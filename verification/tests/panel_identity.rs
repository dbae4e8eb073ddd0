use bitty_ui::panel::PanelId;
use bitty_ui::panel_identity::{IdentityRegistry, MAX_IDENTITY_SLOTS, SlotNumber};

#[test]
fn slot_rejects_zero_and_overflow() {
    assert!(SlotNumber::new(0).is_err());
    assert!(SlotNumber::new(MAX_IDENTITY_SLOTS + 1).is_err());
    assert_eq!(SlotNumber::new(1).unwrap().get(), 1);
}

#[test]
fn reseat_changes_slot_never_identity() {
    let mut reg = IdentityRegistry::new();
    let a = PanelId::new(7);
    let b = PanelId::new(9);
    reg.bind(a, SlotNumber::new(1).unwrap(), "editor").unwrap();
    reg.bind(b, SlotNumber::new(2).unwrap(), "logs").unwrap();
    reg.reseat(a, SlotNumber::new(2).unwrap()).unwrap();
    assert_eq!(reg.slot_of(a).unwrap().get(), 2);
    assert_eq!(reg.slot_of(b).unwrap().get(), 1);
    assert_eq!(reg.title_of(a).unwrap(), "editor");
    assert_eq!(reg.panel_at(SlotNumber::new(2).unwrap()).unwrap(), a);
}

#[test]
fn stale_handle_fails_closed() {
    let mut reg = IdentityRegistry::new();
    let a = PanelId::new(3);
    let handle = reg.bind(a, SlotNumber::new(1).unwrap(), "term").unwrap();
    assert_eq!(reg.resolve(handle), Some(a));
    reg.unbind(a).unwrap();
    assert_eq!(reg.resolve(handle), None);
}
