use bitty_ui::panel_lua::{CapabilityGate, LuaCapability, validate_spellings};

#[test]
fn table_parses_and_has_no_duplicates() {
    validate_spellings().unwrap();
}

#[test]
fn gate_denies_ungranted_and_unknown() {
    let gate = CapabilityGate::with_grants(&[LuaCapability::MovePanel]);
    assert!(gate.allows("bitty.panel:move").is_ok());
    assert!(gate.allows("bitty.panel:resize").is_err());
    assert!(gate.allows("bitty.panel:nope").is_err());
}
