use bitty_ui::beacon_target::UiNodeId;
use bitty_ui::drag_bar::{
    classify_bar_drop, undo_bar_drop, BarDropSession, BarError, BarOutcome, BarPhase,
    BarUndoStack, BarZone, BAR_MOVE_CMD, BAR_SPLIT_CMD, MAX_BAR_UNDO, MAX_BAR_WORKSPACES,
};
use bitty_ui::geometry::Rect;
use bitty_ui::panel::{PanelFocus, PanelId, PanelState, PanelType};
use bitty_ui::panel_command::{CommandError, CommandRegistry, QualifiedCommand};
use bitty_ui::panel_identity::{tab_label, IdentityError, IdentityRegistry, SlotNumber};
use bitty_ui::panel_lua::{
    lookup_command, panel_lua_commands, panel_lua_events, panel_lua_queries, CapabilityGate,
    LuaApiError, LuaCapability,
};
use bitty_ui::panel_overlay::{OverlayError, OverlayKind, OverlayManager};
use bitty_ui::panel_persist::{
    decode_manifest, encode_manifest, plan_restore, ManifestError, PersistedPanel,
    PersistencePolicy, RestartManifest,
};
use bitty_ui::panel_record::{PanelRecord, RehydrateError};
use bitty_ui::panel_rehydrate::{encode_snapshot, rehydrate_snapshot};
use bitty_ui::panel_state::{
    PanelActivity, PanelAttention, PanelInteraction, PanelLifecycle, PanelStateError,
    PanelVisibility, SevenPanelState,
};
use bitty_ui::placement::{Placement, PlacementError};
use bitty_ui::view::ViewId;

fn ids(raw: &[u64]) -> Vec<PanelId> {
    raw.iter().map(|n| PanelId::new(*n)).collect()
}

fn bar_registry() -> CommandRegistry {
    let mut registry = CommandRegistry::new();
    registry.register(PanelId::new(1), BAR_MOVE_CMD).expect("move");
    registry.register(PanelId::new(1), BAR_SPLIT_CMD).expect("split");
    registry
}

fn slot(n: u8) -> SlotNumber {
    SlotNumber::new(n).expect("slot")
}

fn mounted(panel: u64) -> SevenPanelState {
    let mut s = SevenPanelState::new(PanelId::new(panel), UiNodeId::new(panel));
    s.set_lifecycle(PanelLifecycle::Created).expect("created");
    s.set_lifecycle(PanelLifecycle::Mounted).expect("mounted");
    s
}

#[test]
fn bar_zones_mirror() {
    for x in 0..20u16 {
        assert_eq!(classify_bar_drop(20, x), classify_bar_drop(20, 19 - x));
    }
    for x in 0..6 {
        assert_eq!(classify_bar_drop(6, x), Some(BarZone::MoveSwitch));
    }
    assert_eq!(classify_bar_drop(7, 2), Some(BarZone::NewWorkspace));
    assert_eq!(classify_bar_drop(7, 3), Some(BarZone::MoveSwitch));
    for width in 1..40 {
        assert_eq!(classify_bar_drop(width, width / 2), Some(BarZone::MoveSwitch));
        assert_eq!(classify_bar_drop(width, width), None);
    }
    assert_eq!(classify_bar_drop(5, 0), Some(BarZone::MoveSwitch));
}

#[test]
fn a_bar_drop_commits_and_undoes() {
    let registry = bar_registry();
    let mut order = ids(&[1, 2, 3]);
    let mut workspaces = 2usize;
    let mut undo = BarUndoStack::new();
    let mut session =
        BarDropSession::lift(PanelId::new(1), true, BAR_SPLIT_CMD).expect("lift");
    assert_eq!(session.phase(), BarPhase::Lifted);
    session.preview_hover(20, 0, 7);
    assert_eq!(session.phase(), BarPhase::Previewing);
    assert_eq!(session.preview().map(|p| (p.zone, p.workspace)), Some((BarZone::NewWorkspace, 7)));
    let outcome = session.commit(&registry, &mut order, &mut workspaces, &mut undo);
    assert_eq!(outcome, Ok(BarOutcome::Committed(BarZone::NewWorkspace)));
    assert_eq!(order, ids(&[2, 3, 1]));
    assert_eq!(workspaces, 3);
    assert_eq!(undo.len(), 1);
    assert_eq!(undo_bar_drop(&mut undo, &mut order, &mut workspaces), Ok(()));
    assert_eq!(order, ids(&[1, 2, 3]));
    assert_eq!(workspaces, 2);
    assert_eq!(
        undo_bar_drop(&mut undo, &mut order, &mut workspaces),
        Err(BarError::NothingToUndo)
    );
}

#[test]
fn refused_bar_drops_change_nothing() {
    let registry = bar_registry();
    assert_eq!(
        BarDropSession::lift(PanelId::new(1), false, BAR_MOVE_CMD).err(),
        Some(BarError::ModNotHeld)
    );
    assert_eq!(
        BarDropSession::lift(PanelId::new(1), true, "nonsense").err(),
        Some(BarError::BadCommand("nonsense".to_string()))
    );
    let mut order = ids(&[1, 2]);
    let mut workspaces = MAX_BAR_WORKSPACES;
    let mut undo = BarUndoStack::new();
    let lift = |panel: u64, command: &str| {
        BarDropSession::lift(PanelId::new(panel), true, command).expect("lift")
    };
    let unseen = lift(1, BAR_MOVE_CMD).commit(&registry, &mut order, &mut workspaces, &mut undo);
    assert!(matches!(unseen, Err(BarError::UnexpectedCommand { .. })));
    let mut wrong = lift(1, BAR_MOVE_CMD);
    wrong.preview_hover(20, 0, 0);
    assert_eq!(
        wrong.commit(&registry, &mut order, &mut workspaces, &mut undo),
        Err(BarError::UnexpectedCommand {
            found: BAR_MOVE_CMD.to_string(),
            expected: BAR_SPLIT_CMD,
        })
    );
    let mut loose = lift(1, BAR_MOVE_CMD);
    loose.preview_hover(20, 10, 0);
    assert_eq!(
        loose.commit(&CommandRegistry::new(), &mut order, &mut workspaces, &mut undo),
        Err(BarError::UnregisteredCommand(BAR_MOVE_CMD.to_string()))
    );
    let mut absent = lift(9, BAR_MOVE_CMD);
    absent.preview_hover(20, 10, 0);
    assert_eq!(
        absent.commit(&registry, &mut order, &mut workspaces, &mut undo),
        Err(BarError::UnknownPanel { panel: PanelId::new(9) })
    );
    let mut full = lift(1, BAR_SPLIT_CMD);
    full.preview_hover(20, 19, 0);
    assert_eq!(
        full.commit(&registry, &mut order, &mut workspaces, &mut undo),
        Err(BarError::WorkspaceCap { current: MAX_BAR_WORKSPACES })
    );
    assert_eq!(order, ids(&[1, 2]));
    assert_eq!(workspaces, MAX_BAR_WORKSPACES);
    assert!(undo.is_empty());
    let mut center = lift(1, BAR_MOVE_CMD);
    center.preview_hover(20, 10, 0);
    assert_eq!(
        center.commit(&registry, &mut order, &mut workspaces, &mut undo),
        Ok(BarOutcome::Committed(BarZone::MoveSwitch))
    );
}

#[test]
fn bar_undo_forgets_the_oldest() {
    let registry = bar_registry();
    let mut order = ids(&[1, 2]);
    let mut workspaces = 1usize;
    let mut undo = BarUndoStack::new();
    for i in 0..MAX_BAR_UNDO as u64 + 3 {
        let mut session =
            BarDropSession::lift(PanelId::new(1 + i % 2), true, BAR_MOVE_CMD).expect("lift");
        session.preview_hover(20, 10, 0);
        session
            .commit(&registry, &mut order, &mut workspaces, &mut undo)
            .expect("commit");
    }
    assert_eq!(undo.len(), MAX_BAR_UNDO);
}

#[test]
fn panels_go_one_way() {
    assert!(PanelState::can_transition(PanelState::Suspended, PanelState::Disposed));
    assert!(!PanelState::can_transition(PanelState::Disposed, PanelState::Suspended));
    for kind in ["terminal", "rich", "browser", "helper", "canvas"] {
        assert_eq!(PanelType::parse(kind).map(|found| found.as_str()), Some(kind));
    }
    let mut focus = PanelFocus::new();
    focus.set(PanelId::new(1));
    focus.set(PanelId::new(2));
    focus.on_panel_hidden(PanelId::new(2));
    assert_eq!(focus.focused(), Some(PanelId::new(1)));
    assert_eq!(focus.mru_order(), ids(&[1]));
}

#[test]
fn commands_follow_their_grammar() {
    for good in ["bitty.panel:move", "a.b:c", "acme-1.x_2:y-z"] {
        assert_eq!(QualifiedCommand::parse(good).expect("valid").as_str(), good);
    }
    for bad in ["", "a:b", "a.b", "a..b:c", ".a:b", "a.b:", "A.b:c", "a.b:c:d", "a.b:c d"] {
        assert!(matches!(QualifiedCommand::parse(bad), Err(CommandError::Invalid(_))));
    }
    let (seg, name) = ("a".repeat(32), "c".repeat(64));
    assert!(QualifiedCommand::parse(&format!("{seg}.b:{name}")).is_ok());
    assert!(QualifiedCommand::parse(&format!("{seg}a.b:c")).is_err());
    assert!(QualifiedCommand::parse(&format!("a.b:{name}c")).is_err());
    assert!(QualifiedCommand::parse(&format!("{seg}.{seg}:{name}")).is_err());
}

#[test]
fn registering_binds_one_owner() {
    let mut registry = CommandRegistry::new();
    registry.register(PanelId::new(1), "a.b:c").expect("register");
    assert_eq!(
        registry.register(PanelId::new(2), "a.b:c").err(),
        Some(CommandError::Duplicate { command: "a.b:c".to_string(), owner: PanelId::new(1) })
    );
    for i in 1..32 {
        registry.register(PanelId::new(1), &format!("a.b:c{i}")).expect("register");
    }
    assert_eq!(
        registry.register(PanelId::new(1), "a.b:d").err(),
        Some(CommandError::TooManyCommands { max: 32, current: 32 })
    );
    registry.register(PanelId::new(2), "a.b:d").expect("register");
    assert_eq!(registry.commands_for(PanelId::new(1)).len(), 32);
    registry.unregister_panel(PanelId::new(1));
    assert_eq!(registry.len(), 1);
    assert_eq!(registry.owner_of("a.b:c"), None);
    assert_eq!(registry.owner_of("a.b:d"), Some(PanelId::new(2)));
}

#[test]
fn one_modal_at_a_time() {
    let area = Rect::new(0, 0, 4, 1);
    let mut manager = OverlayManager::new();
    let first = manager
        .create_overlay(OverlayKind::Modal, area, "ask", None, 0)
        .expect("modal");
    assert!(manager.modal_active());
    assert_eq!(
        manager.create_overlay(OverlayKind::Modal, area, "again", None, 0),
        Err(OverlayError::OverlayBusy)
    );
    assert_eq!(manager.get(first).map(|o| o.is_modal()), Some(true));
    assert!(manager.dismiss(first).is_some());
    assert!(manager.dismiss(first).is_none());
    assert!(!manager.modal_active());
    manager.clear();
    assert!(manager.is_empty());
}

#[test]
fn overlay_handles_are_unused_when_given() {
    let area = Rect::new(0, 0, 4, 1);
    let mut manager = OverlayManager::new();
    let mut seen: Vec<u64> = Vec::new();
    for round in 0..20u64 {
        let id = manager
            .create_overlay(OverlayKind::Tooltip, area, "p", None, round)
            .expect("overlay");
        assert!(!seen.contains(&id));
        seen.push(id);
        if manager.len() == 4 {
            assert_eq!(
                manager.create_overlay(OverlayKind::Tooltip, area, "p", None, round),
                Err(OverlayError::TooManyOverlays { max: 4, current: 4 })
            );
            let oldest = manager.overlays()[0].id;
            assert!(manager.dismiss(oldest).is_some());
        }
    }
}

#[test]
fn slots_swap_and_stay_single() {
    let mut registry = IdentityRegistry::new();
    registry.bind(PanelId::new(1), slot(1), "one").expect("bind");
    assert_eq!(
        registry.bind(PanelId::new(2), slot(1), "two").err(),
        Some(IdentityError::SlotOccupied { slot: slot(1) })
    );
    registry.bind(PanelId::new(2), slot(2), "two").expect("bind");
    registry.reseat(PanelId::new(1), slot(2)).expect("swap");
    assert_eq!(registry.slot_of(PanelId::new(2)), Ok(slot(1)));
    registry.reseat(PanelId::new(1), slot(9)).expect("move");
    assert_eq!(registry.panel_at(slot(2)), Err(IdentityError::EmptySlot { slot: slot(2) }));
    assert_eq!(registry.panel_at(slot(9)), Ok(PanelId::new(1)));
    assert_eq!(
        registry.reseat(PanelId::new(5), slot(3)),
        Err(IdentityError::UnknownPanel { panel: PanelId::new(5) })
    );
    assert_eq!(
        registry.set_title(PanelId::new(1), &"t".repeat(65)),
        Err(IdentityError::TitleTooLong { found: 65, cap: 64 })
    );
    registry.set_title(PanelId::new(1), "uno").expect("title");
    assert_eq!(registry.title_of(PanelId::new(1)), Ok("uno"));
    assert_eq!(SlotNumber::new(10), Err(IdentityError::SlotOutOfRange { found: 10 }));
    let before = registry.clone();
    registry.reseat(PanelId::new(1), slot(1)).expect("swap");
    assert_ne!(registry, before);
    registry.reseat(PanelId::new(1), slot(9)).expect("swap back");
    assert_eq!(registry, before);
    let handle = registry.handle_of(PanelId::new(1)).expect("handle");
    assert_eq!(registry.resolve(handle), Some(PanelId::new(1)));
    assert_eq!(handle.panel_for_registry(), PanelId::new(1));
    assert_eq!(registry.len(), 2);
}

#[test]
fn tab_labels_show_slot_and_title() {
    assert_eq!(tab_label(slot(3), "logs"), "3:logs");
    assert_eq!(tab_label(slot(3), ""), "3:");
}

#[test]
fn lua_spellings_lead_to_their_command() {
    for command in panel_lua_commands() {
        assert_eq!(lookup_command(command.spelling), Ok(command));
    }
    assert!(!panel_lua_queries().is_empty());
    assert!(!panel_lua_events().is_empty());
    assert_eq!(
        lookup_command("bitty.panel:nope"),
        Err(LuaApiError::UnknownSpelling { spelling: "bitty.panel:nope".to_string() })
    );
    let closed = CapabilityGate::with_grants(&[]);
    let open = CapabilityGate::with_grants(&[LuaCapability::MovePanel]);
    let moved = lookup_command("bitty.panel:move").expect("known");
    assert_eq!(open.allows("bitty.panel:move"), Ok(moved));
    assert_eq!(
        closed.allows("bitty.panel:move"),
        Err(LuaApiError::CapabilityDenied {
            spelling: "bitty.panel:move".to_string(),
            capability: LuaCapability::MovePanel,
        })
    );
}

#[test]
fn manifests_keep_odd_titles() {
    let mut manifest = RestartManifest::new();
    for (i, title) in ["", "plain", "a=b=c", "back\\slash", "caf\u{e9}"].iter().enumerate() {
        let panel = PersistedPanel::new(PanelId::new(9 - i as u64), i as u32, title);
        manifest.push(panel.expect("panel")).expect("push");
    }
    let doc = encode_manifest(&manifest);
    assert_eq!(decode_manifest(&doc), Ok(manifest.clone()));
    let plan = plan_restore(&manifest, PersistencePolicy::StableIdentity);
    let order: Vec<u64> = plan.iter().map(|p| p.id.get()).collect();
    let mut sorted = order.clone();
    sorted.sort();
    assert_eq!(order, sorted);
    assert_eq!(decode_manifest(""), Ok(RestartManifest::new()));
    for separated in ["a;b", "two\nlines"] {
        let mut one = RestartManifest::new();
        one.push(PersistedPanel::new(PanelId::new(1), 0, separated).expect("panel"))
            .expect("push");
        assert!(matches!(
            decode_manifest(&encode_manifest(&one)),
            Err(ManifestError::Malformed { .. })
        ));
    }
}

#[test]
fn manifest_faults_name_their_line() {
    assert_eq!(decode_manifest("nonsense"), Err(ManifestError::Malformed { line: 1 }));
    assert_eq!(
        decode_manifest("v=1;id=1;ws=0;title=x\nnonsense"),
        Err(ManifestError::Malformed { line: 2 })
    );
    assert_eq!(
        decode_manifest(&"x".repeat(513)),
        Err(ManifestError::LineTooLong { line: 1 })
    );
    assert_eq!(
        decode_manifest(&format!("v=1;id=1;ws=0;title={}", "t".repeat(65))),
        Err(ManifestError::TitleTooLong { line: 1 })
    );
    let many: Vec<String> = (0..257).map(|i| format!("v=1;id={i};ws=0;title=x")).collect();
    assert_eq!(
        decode_manifest(&many.join("\n")),
        Err(ManifestError::TooManyPanels { found: 257, cap: 256 })
    );
}

#[test]
fn snapshots_read_back_sorted() {
    let mut second = mounted(2);
    second.set_visibility(PanelVisibility::Visible);
    second.set_attention(PanelAttention::badge(3, "a;b=c\\d").expect("badge"));
    second.set_interaction(PanelInteraction::Typing);
    second.set_activity(PanelActivity::Active);
    let doc = encode_snapshot(&[second.clone(), mounted(1)]);
    assert_eq!(doc, encode_snapshot(&[mounted(1), second.clone()]));
    let report = rehydrate_snapshot(&doc).expect("report");
    assert_eq!(report.applied, vec![1, 2]);
    let back = report.get(PanelId::new(2)).expect("panel");
    assert_eq!(back.attention(), second.attention());
    assert_eq!(back.visibility(), PanelVisibility::Visible);
    assert_eq!(back.interaction(), PanelInteraction::Typing);
    assert_eq!(back.activity(), PanelActivity::Active);
    assert!(report.get(PanelId::new(3)).is_none());
}

#[test]
fn snapshot_faults_reject_the_whole() {
    let good = PanelRecord::capture(&mounted(1)).encode();
    assert_eq!(
        rehydrate_snapshot(&format!("{good}\n{good}")).err(),
        Some(RehydrateError::DuplicatePanel { panel: 1 })
    );
    assert_eq!(
        rehydrate_snapshot(&format!("{good}\nbroken")).err(),
        Some(RehydrateError::Malformed { line: 2 })
    );
    assert!(matches!(
        PanelRecord::decode(&"x".repeat(2049)),
        Err(RehydrateError::RecordTooLong { found: 2049, .. })
    ));
    assert!(matches!(
        PanelRecord::decode(&good.replacen("panel=1", "panel=x", 1)),
        Err(RehydrateError::BadValue { .. })
    ));
    assert!(rehydrate_snapshot("").expect("empty").states.is_empty());
}

#[test]
fn unknown_record_fields_change_nothing() {
    let record = PanelRecord::capture(&mounted(4));
    let line = record.encode();
    for more in ["future=1", "", "a=b;;c=d", "odd=x\\;y", "=nothing"] {
        assert_eq!(PanelRecord::decode(&format!("{line};{more}")), Ok(record.clone()));
    }
    assert!(PanelRecord::decode(&format!("{line};novalue")).is_err());
}

#[test]
fn unknown_manifest_fields_change_nothing() {
    let mut manifest = RestartManifest::new();
    manifest
        .push(PersistedPanel::new(PanelId::new(9), 1, "logs").expect("title"))
        .expect("room");
    for more in ["future=1", "a=b;c=d", "=nothing", "ids=7"] {
        for doc in [
            format!("{more};v=1;id=9;ws=1;title=logs"),
            format!("v=1;{more};id=9;ws=1;title=logs"),
            format!("v=1;id=9;ws=1;{more};title=logs"),
        ] {
            assert_eq!(decode_manifest(&doc), Ok(manifest.clone()));
        }
    }
    assert_eq!(
        decode_manifest("v=1;novalue;id=9;ws=1;title=logs"),
        Err(ManifestError::Malformed { line: 1 })
    );
}

#[test]
fn titles_with_separators_are_never_cut() {
    let record = |id: u64, title: &str| PersistedPanel::new(PanelId::new(id), 0, title).unwrap();
    for title in ["a;b=c", ";", "a;title=b", "a;v=1", "x;\r"] {
        let mut manifest = RestartManifest::new();
        manifest.push(record(1, title)).unwrap();
        let doc = encode_manifest(&manifest);
        assert_eq!(decode_manifest(&doc), Err(ManifestError::Malformed { line: 1 }));
        let mut later = RestartManifest::new();
        later.push(record(2, "plain\r")).unwrap();
        later.push(record(1, title)).unwrap();
        later.push(record(3, "more")).unwrap();
        let doc = encode_manifest(&later);
        assert_eq!(decode_manifest(&doc), Err(ManifestError::Malformed { line: 2 }));
    }
    let mut fed = RestartManifest::new();
    fed.push(record(1, "a\nb")).unwrap();
    assert_eq!(
        decode_manifest(&encode_manifest(&fed)),
        Err(ManifestError::Malformed { line: 2 })
    );
}

#[test]
fn closed_records_keep_their_values() {
    let mut state = mounted(7);
    state.close().expect("close");
    state.set_visibility(PanelVisibility::Minimized);
    state.set_interaction(PanelInteraction::Typing);
    let fresh = PanelRecord::capture(&state).apply_fresh().expect("fresh");
    assert_eq!(fresh.lifecycle(), PanelLifecycle::Closed);
    assert_eq!(fresh.visibility(), PanelVisibility::Minimized);
    assert_eq!(fresh.interaction(), PanelInteraction::Typing);
    assert_eq!(fresh, state);
    let report = rehydrate_snapshot(&encode_snapshot(&[state.clone()])).expect("report");
    assert_eq!(report.clone(), report);
    assert_eq!(report.get(PanelId::new(7)), Some(&state));
}

#[test]
fn registries_compare_by_their_bindings() {
    let mut a = IdentityRegistry::new();
    a.bind(PanelId::new(1), slot(1), "one").expect("bind");
    a.bind(PanelId::new(2), slot(2), "two").expect("bind");
    let mut b = IdentityRegistry::new();
    b.bind(PanelId::new(2), slot(2), "two").expect("bind");
    assert_ne!(a, b);
    b.bind(PanelId::new(1), slot(1), "one").expect("bind");
    assert_eq!(a, b);
    b.set_title(PanelId::new(1), "uno").expect("title");
    assert_ne!(a, b);
    b.set_title(PanelId::new(1), "one").expect("title");
    b.reseat(PanelId::new(1), slot(2)).expect("reseat");
    assert_ne!(a, b);
}

#[test]
fn registries_and_managers_are_copied_whole() {
    let registry = bar_registry();
    let copy = registry.clone();
    assert_eq!(copy.owner_of(BAR_MOVE_CMD), Some(PanelId::new(1)));
    assert_eq!(copy.commands_for(PanelId::new(1)), registry.commands_for(PanelId::new(1)));
    let mut manager = OverlayManager::new();
    let bounds = Rect::new(0, 0, 4, 4);
    manager
        .create_overlay(OverlayKind::Tooltip, bounds, "tip", Some("more".to_string()), 1)
        .expect("overlay");
    let mut twin = manager.clone();
    assert_eq!(twin, manager);
    assert_eq!(
        twin.create_overlay(OverlayKind::Modal, bounds, "ask", None, 1),
        manager.create_overlay(OverlayKind::Modal, bounds, "ask", None, 1)
    );
    assert_eq!(twin, manager);
}

#[test]
fn repeated_grants_are_kept_once() {
    let repeated = CapabilityGate::with_grants(&[
        LuaCapability::MovePanel,
        LuaCapability::FloatPanel,
        LuaCapability::MovePanel,
    ]);
    let plain = CapabilityGate::with_grants(&[LuaCapability::MovePanel, LuaCapability::FloatPanel]);
    assert_eq!(repeated, plain);
    let turned = CapabilityGate::with_grants(&[LuaCapability::FloatPanel, LuaCapability::MovePanel]);
    assert_ne!(turned, plain);
}

#[test]
fn closing_parks_and_reopening_mounts() {
    let mut state = mounted(1);
    let parked = state.close().expect("close");
    assert!(parked.reopenable);
    assert_eq!(state.lifecycle(), PanelLifecycle::Closed);
    state.reopen().expect("reopen");
    assert_eq!(state.lifecycle(), PanelLifecycle::Mounted);
    state.focus_panel().expect("focus");
    assert_eq!(state.lifecycle(), PanelLifecycle::Focused);
    assert_eq!(state.unfocus_panel(), Ok(()));
    assert_eq!(state.lifecycle(), PanelLifecycle::Mounted);
    assert!(PanelLifecycle::can_close(PanelLifecycle::Suspended));
    assert!(!PanelLifecycle::can_close(PanelLifecycle::Disposed));
    let mut fresh = SevenPanelState::new(PanelId::new(1), UiNodeId::new(1));
    assert_eq!(
        fresh.set_lifecycle(PanelLifecycle::Focused),
        Err(PanelStateError::IllegalTransition {
            from: PanelLifecycle::Declared,
            to: PanelLifecycle::Focused,
        })
    );
    assert_eq!(
        PanelAttention::badge(1, &"t".repeat(65)).err(),
        Some(PanelStateError::BadgeTextTooLong { found: 65, cap: 64 })
    );
    for name in ["declared", "created", "mounted", "focused", "closed", "disposed"] {
        assert_eq!(PanelLifecycle::parse(name).map(|v| v.as_str()), Some(name));
    }
}

#[test]
fn unbinding_undoes_binding() {
    let mut placement = Placement::new();
    placement.bind(PanelId::new(1), ViewId::new(10)).expect("bind");
    placement.bind(PanelId::new(2), ViewId::new(20)).expect("bind");
    assert_eq!(
        placement.reparent(PanelId::new(1), ViewId::new(20)),
        Err(PlacementError::ViewOccupied { view: ViewId::new(20) })
    );
    assert_eq!(placement.unbind(PanelId::new(2)), Ok(ViewId::new(20)));
    assert_eq!(placement.len(), 1);
    assert_eq!(placement.view_of(PanelId::new(1)), Some(ViewId::new(10)));
    assert_eq!(placement.panel_of(ViewId::new(10)), Some(PanelId::new(1)));
    assert_eq!(placement.panel_of(ViewId::new(20)), None);
}
