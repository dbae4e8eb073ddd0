use bitty_ui::a11y::{A11yError, A11yRole, ChromeKind};
use bitty_ui::beacon_dispatch::DispatchError;
use bitty_ui::beacon_label::LabelError;
use bitty_ui::beacon_layer::AnnotationLayerError;
use bitty_ui::beacon_provider::{ProviderError, ProviderTarget, ProviderTier};
use bitty_ui::beacon_target::{
    CommandBlockId, CommandBlockRef, LinkId, LinkRef, PanelRef, TargetError, TargetRef, UiNodeId,
    UiNodeRef, WorkspaceId, WorkspaceRef,
};
use bitty_ui::budget::{BudgetDimension, BudgetTier};
use bitty_ui::canvas::CanvasError;
use bitty_ui::decoration::{Decoration, DecorationError};
use bitty_ui::drag::{CrossWorkspaceError, DragMoveError, DragResizeError};
use bitty_ui::drag_bar::{BarError, BarZone};
use bitty_ui::float32::Float32;
use bitty_ui::gesture::{CommandOrigin, EquivalenceError, GestureError};
use bitty_ui::motion::MotionCurve;
use bitty_ui::panel::{BrowserSurfaceId, PanelId, PanelState, PanelType};
use bitty_ui::panel_command::{CommandError, QualifiedCommand};
use bitty_ui::panel_identity::{IdentityError, IdentityRegistry, SlotNumber};
use bitty_ui::panel_lua::{ApiScope, LuaApiError, LuaCapability, PanelApiVersion};
use bitty_ui::panel_overlay::OverlayError;
use bitty_ui::panel_persist::{ManifestError, PersistencePolicy};
use bitty_ui::panel_record::RehydrateError;
use bitty_ui::panel_rules::{EffectKind, RuleDiagnostic, RuleError, RuleId, RuleOrigin};
use bitty_ui::panel_state::{PanelLifecycle, PanelStateError, PanelVisibility};
use bitty_ui::placement::PlacementError;
use bitty_ui::presentation::{PresentationCommandError, PresentationMode};
use bitty_ui::provider::{LayoutError, ProviderId};
use bitty_ui::resolved_style::{StyleError, StyleOrigin};
use bitty_ui::scratchpad::ScratchpadError;
use bitty_ui::view::ViewId;

fn owned(s: &str) -> String {
    s.to_string()
}

#[test]
fn identities_are_spelled_with_their_type() {
    assert_eq!(PanelId::new(0).text(), "PanelId(0)");
    assert_eq!(PanelId::new(u64::MAX).text(), "PanelId(18446744073709551615)");
    assert_eq!(BrowserSurfaceId::new(12).text(), "BrowserSurfaceId(12)");
    assert_eq!(ViewId::new(909).text(), "ViewId(909)");
    assert_eq!(ProviderId::new(10).text(), "ProviderId(10)");
    assert_eq!(RuleId::new(7).text(), "RuleId(7)");
    assert_eq!(WorkspaceId::new(3).text(), "WorkspaceId(3)");
    assert_eq!(CommandBlockId::new(4).text(), "CommandBlockId(4)");
    assert_eq!(UiNodeId::new(5).text(), "UiNodeId(5)");
    assert_eq!(LinkId::new(6).text(), "LinkId(6)");
}

#[test]
fn target_handles_are_spelled_with_their_generation() {
    let cases = [
        (
            TargetRef::Panel(PanelRef { id: PanelId::new(1), generation: 3 }),
            "Panel(PanelId(1), gen 3)",
        ),
        (
            TargetRef::Workspace(WorkspaceRef { id: WorkspaceId::new(2), generation: 0 }),
            "Workspace(WorkspaceId(2), gen 0)",
        ),
        (
            TargetRef::CommandBlock(CommandBlockRef { id: CommandBlockId::new(3), generation: 10 }),
            "CommandBlock(CommandBlockId(3), gen 10)",
        ),
        (
            TargetRef::UiNode(UiNodeRef { id: UiNodeId::new(4), generation: 11 }),
            "UiNode(UiNodeId(4), gen 11)",
        ),
        (
            TargetRef::Link(LinkRef { id: LinkId::new(5), generation: 12 }),
            "Link(LinkId(5), gen 12)",
        ),
    ];
    for (target, want) in cases {
        assert_eq!(target.text(), want);
    }
    assert_eq!(ProviderTarget::Panel(PanelId::new(1)).text(), "Panel(PanelId(1))");
    assert_eq!(
        ProviderTarget::Workspace(WorkspaceId::new(1)).text(),
        "Workspace(WorkspaceId(1))"
    );
    assert_eq!(
        ProviderTarget::CommandBlock(CommandBlockId::new(1)).text(),
        "CommandBlock(CommandBlockId(1))"
    );
    assert_eq!(ProviderTarget::UiNode(UiNodeId::new(1)).text(), "UiNode(UiNodeId(1))");
    assert_eq!(ProviderTarget::Link(LinkId::new(1)).text(), "Link(LinkId(1))");
}

#[test]
fn beacon_messages() {
    assert_eq!(
        TargetError::UnknownTarget(owned("x")).text(),
        "unknown beacon target: x"
    );
    assert_eq!(
        TargetError::StaleTarget(owned("x")).text(),
        "stale beacon target: x"
    );
    assert_eq!(
        TargetError::TooManyTargets { max: 1024, current: 1024 }.text(),
        "too many beacon targets: max 1024, current 1024"
    );
    assert_eq!(
        DispatchError::UnknownLabel(owned("zz")).text(),
        "unknown beacon label: 'zz'"
    );
    assert_eq!(
        DispatchError::StaleTarget(owned("x")).text(),
        "stale beacon target: x"
    );
    assert_eq!(
        DispatchError::TooManyBindings { max: 1024, current: 3 }.text(),
        "too many beacon bindings: max 1024, current 3"
    );
    assert_eq!(
        LabelError::InvalidCharset(owned("home charset is empty")).text(),
        "invalid label charset: home charset is empty"
    );
    assert_eq!(
        LabelError::TooManyTargets { requested: 5, capacity: 4 }.text(),
        "too many beacon targets: requested 5, capacity 4"
    );
    assert_eq!(
        AnnotationLayerError::LengthMismatch { targets: 2, labels: 3, anchors: 4 }.text(),
        "beacon layer length mismatch: 2 targets, 3 labels, 4 anchors"
    );
    assert_eq!(
        AnnotationLayerError::TooManyAnnotations { requested: 1025, max: 1024 }.text(),
        "too many beacon annotations: requested 1025, max 1024"
    );
}

#[test]
fn target_provider_messages() {
    assert_eq!(ProviderTier::Core.text(), "core");
    assert_eq!(ProviderTier::Plugin.text(), "plugin");
    assert_eq!(ProviderTier::Derived.text(), "derived");
    let cases = [
        (
            ProviderError::InvalidName { name: owned("A"), reason: "bad" },
            "invalid target provider name 'A': bad",
        ),
        (
            ProviderError::ReservedName { name: owned("terminal") },
            "target provider name 'terminal' is reserved for the Core terminal provider",
        ),
        (
            ProviderError::UnknownProvider { name: owned("x") },
            "unknown target provider 'x'",
        ),
        (
            ProviderError::CapabilityDenied { name: owned("x") },
            "registering target provider 'x' requires the 'beacon.target-provider' capability",
        ),
        (
            ProviderError::DuplicateName { name: owned("x") },
            "target provider 'x' is already registered",
        ),
        (
            ProviderError::TooManyProviders { max: 64, current: 64 },
            "too many target providers: max 64, current 64",
        ),
        (
            ProviderError::TooManyTargets { max: 1024, current: 1025 },
            "too many snapshot targets: max 1024, current 1025",
        ),
        (
            ProviderError::StaleSnapshot(owned("x")),
            "stale snapshot target: x",
        ),
    ];
    for (err, want) in cases {
        assert_eq!(err.text(), want);
    }
}

#[test]
fn accessibility_messages_and_names() {
    assert_eq!(
        A11yError::UnmappedSceneKind.text(),
        "unmapped scene kind: no role mapping"
    );
    assert_eq!(
        A11yError::NameTooLong { len: 257, cap: 256 }.text(),
        "accessible name too long: 257 chars exceeds cap 256"
    );
    assert_eq!(
        A11yError::TooManyNodes { count: 4097, cap: 4096 }.text(),
        "accessibility tree too large: 4097 nodes exceeds cap 4096"
    );
    assert_eq!(
        A11yError::UnknownParent.text(),
        "unknown parent node: not part of this tree"
    );
    let roles = [
        (A11yRole::Text, "text"),
        (A11yRole::Group, "group"),
        (A11yRole::Code, "code"),
        (A11yRole::Table, "table"),
        (A11yRole::List, "list"),
        (A11yRole::Button, "button"),
        (A11yRole::Input, "input"),
        (A11yRole::Separator, "separator"),
        (A11yRole::Image, "image"),
    ];
    for (role, want) in roles {
        assert_eq!(role.as_str(), want);
    }
    let kinds = [
        (ChromeKind::Bar, "bar"),
        (ChromeKind::Rail, "rail"),
        (ChromeKind::TabStrip, "tablist"),
        (ChromeKind::Notification, "notification"),
        (ChromeKind::Overlay, "overlay"),
    ];
    for (kind, want) in kinds {
        assert_eq!(kind.as_str(), want);
    }
}

#[test]
fn canvas_messages_spell_negative_numbers() {
    let cases = [
        (
            CanvasError::TooManySurfaces { found: 65, cap: 64 },
            "canvas layer full: 65 surfaces exceeds cap 64",
        ),
        (
            CanvasError::TextTooLong { len: 513, cap: 512 },
            "canvas text too long: 513 chars exceeds cap 512",
        ),
        (
            CanvasError::EmptyRect { w: -1, h: 2 },
            "canvas rect is empty: w=-1 h=2",
        ),
        (
            CanvasError::BadRadius { r: i32::MIN, cap: 8192 },
            "canvas radius out of range: -2147483648 exceeds cap 8192",
        ),
        (
            CanvasError::CoordOutOfRange { value: 16385, bound: 16384 },
            "canvas coordinate out of range: 16385 exceeds bound 16384",
        ),
    ];
    for (err, want) in cases {
        assert_eq!(err.text(), want);
    }
}

#[test]
fn budget_motion_and_style_names() {
    assert_eq!(BudgetTier::Rich.as_str(), "rich");
    assert_eq!(BudgetDimension::Nodes.as_str(), "nodes");
    assert_eq!(BudgetDimension::TextureBytes.as_str(), "texture-bytes");
    assert_eq!(BudgetDimension::BlurAreaPx.as_str(), "blur-area-px");
    assert_eq!(BudgetDimension::DrawCalls.as_str(), "draw-calls");
    assert_eq!(MotionCurve::Instant.as_str(), "instant");
    assert_eq!(MotionCurve::Linear.as_str(), "linear");
    assert_eq!(MotionCurve::EaseOut.as_str(), "ease-out");
    assert_eq!(MotionCurve::EaseInOut.as_str(), "ease-in-out");
    assert_eq!(StyleOrigin::Safety.as_str(), "safety");
    assert_eq!(
        StyleError::UnknownKey { key: owned("k") }.text(),
        "unknown style key: k"
    );
    assert_eq!(
        StyleError::TerminalKey { key: owned("k") }.text(),
        "terminal style key rejected: k"
    );
    assert_eq!(
        StyleError::BadPluginKey { key: owned("k") }.text(),
        "malformed plugin style key: k"
    );
}

#[test]
fn decoration_messages() {
    assert_eq!(
        Decoration::new(1, 2, 3, 4).text(),
        "gaps_in=1 gaps_out=2 border=3 radius=4"
    );
    assert_eq!(
        DecorationError::GapsIn(33).text(),
        "decoration.gaps_in 33 is outside [0, 32]"
    );
    assert_eq!(
        DecorationError::GapsOut(34).text(),
        "decoration.gaps_out 34 is outside [0, 32]"
    );
    assert_eq!(
        DecorationError::Border(9).text(),
        "decoration.border 9 is outside [0, 8]"
    );
    assert_eq!(
        DecorationError::Radius(17).text(),
        "decoration.radius 17 is outside [0, 16]"
    );
}

#[test]
fn drag_messages() {
    let id = ViewId::new(4);
    assert_eq!(DragMoveError::ModNotHeld.text(), "drag move requires Mod held");
    assert_eq!(
        DragMoveError::UnknownCommand(owned("c")).text(),
        "unknown drag move command: c"
    );
    assert_eq!(
        DragMoveError::Unregistered(owned("c")).text(),
        "drag move command not registered: c"
    );
    assert_eq!(
        DragMoveError::SourceNotFound(id).text(),
        "drag move source not found: ViewId(4)"
    );
    assert_eq!(
        DragMoveError::TargetNotFound(id).text(),
        "drag move target not found: ViewId(4)"
    );
    assert_eq!(
        DragMoveError::SelfDrop.text(),
        "drag move source and target are the same leaf"
    );
    assert_eq!(
        DragResizeError::UnknownCommand(owned("c")).text(),
        "unknown drag resize command: c"
    );
    assert_eq!(
        DragResizeError::Unregistered(owned("c")).text(),
        "drag resize command not registered: c"
    );
    assert_eq!(
        DragResizeError::BadHandle.text(),
        "drag resize handle addresses no split"
    );
    assert_eq!(
        CrossWorkspaceError::UnknownCommand(owned("c")).text(),
        "unknown workspace drop command: c"
    );
    assert_eq!(
        CrossWorkspaceError::Unregistered(owned("c")).text(),
        "workspace drop command not registered: c"
    );
    assert_eq!(
        CrossWorkspaceError::SourceNotFound(id).text(),
        "workspace drop source not found: ViewId(4)"
    );
    assert_eq!(
        CrossWorkspaceError::AnchorNotFound(id).text(),
        "workspace drop anchor not found: ViewId(4)"
    );
    assert_eq!(
        CrossWorkspaceError::DestinationFull { max: 32 }.text(),
        "workspace drop destination full (max 32)"
    );
}

#[test]
fn bar_and_gesture_messages() {
    assert_eq!(BarZone::MoveSwitch.text(), BarZone::MoveSwitch.as_str());
    let bar = [
        (BarError::ModNotHeld, "bar drag needs the modifier held"),
        (BarError::BadCommand(owned("c")), "bad bar command: c"),
        (
            BarError::UnexpectedCommand { found: owned("a"), expected: "b" },
            "unexpected bar command 'a', expected 'b'",
        ),
        (
            BarError::UnregisteredCommand(owned("c")),
            "bar command not registered: c",
        ),
        (
            BarError::WorkspaceCap { current: 16 },
            "bar workspace capacity reached: 16",
        ),
        (BarError::NothingToUndo, "no bar drop to undo"),
        (
            BarError::UnknownPanel { panel: PanelId::new(2) },
            "bar order has no panel PanelId(2)",
        ),
    ];
    for (err, want) in bar {
        assert_eq!(err.text(), want);
    }
    let id = ViewId::new(4);
    let gesture = [
        (GestureError::ModNotHeld, "gesture requires Mod held"),
        (
            GestureError::MalformedCommand(owned("c")),
            "malformed gesture command: c",
        ),
        (
            GestureError::Unregistered(owned("c")),
            "gesture command not registered: c",
        ),
        (
            GestureError::SourceNotFound(id),
            "gesture source not found: ViewId(4)",
        ),
        (
            GestureError::TargetNotFound(id),
            "gesture target not found: ViewId(4)",
        ),
        (
            GestureError::SelfDrop,
            "gesture source and target are the same leaf",
        ),
    ];
    for (err, want) in gesture {
        assert_eq!(err.text(), want);
    }
    assert_eq!(
        EquivalenceError::Malformed(owned("c")).text(),
        "malformed command: c"
    );
    assert_eq!(
        EquivalenceError::Unregistered(owned("c")).text(),
        "command not registered: c"
    );
    assert_eq!(
        EquivalenceError::Diverged {
            origin_a: CommandOrigin::Cli,
            owner_a: PanelId::new(1),
            origin_b: CommandOrigin::Ipc,
            owner_b: PanelId::new(2),
        }
        .text(),
        "command diverged: cli owned by PanelId(1), ipc owned by PanelId(2)"
    );
}

#[test]
fn panel_messages() {
    assert_eq!(PanelState::Suspended.text(), "Suspended");
    assert_eq!(PanelType::Canvas.text(), PanelType::Canvas.as_str());
    assert_eq!(
        OverlayError::OverlayBusy.text(),
        "modal overlay already active (OverlayBusy)"
    );
    assert_eq!(
        OverlayError::TooManyOverlays { max: 4, current: 4 }.text(),
        "too many overlays: max 4, current 4"
    );
    assert_eq!(
        QualifiedCommand::parse("bitty.panel:move").expect("valid").text(),
        "bitty.panel:move"
    );
    assert_eq!(
        CommandError::Invalid(owned("why")).text(),
        "invalid command: why"
    );
    assert_eq!(
        CommandError::Duplicate { command: owned("c"), owner: PanelId::new(1) }.text(),
        "duplicate command 'c' already owned by PanelId(1)"
    );
    assert_eq!(
        CommandError::TooManyCommands { max: 32, current: 32 }.text(),
        "too many commands: max 32, current 32"
    );
    assert_eq!(
        PlacementError::ViewOccupied { view: ViewId::new(1) }.text(),
        "view ViewId(1) already hosts a panel"
    );
    assert_eq!(
        PlacementError::PanelAlreadyMounted { panel: PanelId::new(1) }.text(),
        "panel PanelId(1) is already mounted"
    );
    assert_eq!(
        PlacementError::NotMounted { panel: PanelId::new(1) }.text(),
        "panel PanelId(1) is not mounted"
    );
}

#[test]
fn identity_messages() {
    let slot = SlotNumber::new(3).expect("slot");
    assert_eq!(slot.text(), "slot 3");
    let mut registry = IdentityRegistry::new();
    let handle = registry.bind(PanelId::new(1), slot, "t").expect("bind");
    assert_eq!(handle.text(), "PanelHandle(opaque)");
    let cases = [
        (
            IdentityError::UnknownPanel { panel: PanelId::new(1) },
            "unknown panel: PanelId(1)",
        ),
        (IdentityError::EmptySlot { slot }, "slot is empty: slot 3"),
        (IdentityError::SlotOccupied { slot }, "slot occupied: slot 3"),
        (
            IdentityError::SlotOutOfRange { found: 10 },
            "slot out of range: 10, cap 9",
        ),
        (
            IdentityError::TitleTooLong { found: 65, cap: 64 },
            "title too long: 65 chars, cap 64",
        ),
        (
            IdentityError::TooManyPanels { found: 257, cap: 256 },
            "too many panels: 257, cap 256",
        ),
    ];
    for (err, want) in cases {
        assert_eq!(err.text(), want);
    }
}

#[test]
fn lua_messages() {
    assert_eq!(PanelApiVersion::V1.text(), PanelApiVersion::V1.as_str());
    assert_eq!(ApiScope::Panel.text(), ApiScope::Panel.as_str());
    let denied = LuaApiError::CapabilityDenied {
        spelling: owned("s"),
        capability: LuaCapability::MovePanel,
    };
    assert_eq!(
        denied.text(),
        format!("capability '{}' denied for 's'", LuaCapability::MovePanel.as_str())
    );
    assert_eq!(
        LuaApiError::BadSpelling { spelling: owned("s") }.text(),
        "bad lua spelling: s"
    );
    assert_eq!(
        LuaApiError::DuplicateSpelling { spelling: owned("s") }.text(),
        "duplicate lua spelling: s"
    );
    assert_eq!(
        LuaApiError::UnknownSpelling { spelling: owned("s") }.text(),
        "unknown lua spelling: s"
    );
}

#[test]
fn persistence_messages() {
    assert_eq!(PersistencePolicy::Ephemeral.text(), "ephemeral");
    assert_eq!(PersistencePolicy::StableIdentity.text(), "stable-identity");
    let manifest = [
        (
            ManifestError::UnsupportedVersion { found: 2, supported: 1 },
            "unsupported manifest version 2, supported 1",
        ),
        (
            ManifestError::Malformed { line: 3 },
            "malformed manifest record at line 3",
        ),
        (
            ManifestError::LineTooLong { line: 3 },
            "manifest line 3 exceeds 512 chars",
        ),
        (
            ManifestError::TooManyPanels { found: 257, cap: 256 },
            "too many persisted panels: 257, cap 256",
        ),
        (
            ManifestError::TitleTooLong { line: 3 },
            "manifest title too long at line 3",
        ),
    ];
    for (err, want) in manifest {
        assert_eq!(err.text(), want);
    }
    let record = [
        (
            RehydrateError::UnsupportedVersion { found: 2, supported: 1 },
            "unsupported snapshot version 2, supported 1",
        ),
        (
            RehydrateError::Malformed { line: 1 },
            "malformed record at line 1",
        ),
        (
            RehydrateError::BadValue { line: 1, key: owned("k") },
            "bad value for 'k' at line 1",
        ),
        (
            RehydrateError::TooManyPanels { found: 257, cap: 256 },
            "too many snapshot panels: 257, cap 256",
        ),
        (
            RehydrateError::RecordTooLong { line: 1, found: 2049 },
            "record too long at line 1: 2049 chars",
        ),
        (
            RehydrateError::DuplicatePanel { panel: 5 },
            "duplicate snapshot panel 5",
        ),
        (
            RehydrateError::State(PanelStateError::AlreadyDisposed),
            "panel state error: panel already disposed",
        ),
    ];
    for (err, want) in record {
        assert_eq!(err.text(), want);
    }
    assert_eq!(
        RehydrateError::from(PanelStateError::AlreadyDisposed),
        RehydrateError::State(PanelStateError::AlreadyDisposed)
    );
}

#[test]
fn rule_and_state_messages() {
    let diagnostic = RuleDiagnostic::new(
        EffectKind::MinSize,
        vec![RuleId::new(1), RuleId::new(2), RuleId::new(30)],
    );
    let want = format!(
        "conflict on {}: rules RuleId(1), RuleId(2), RuleId(30)",
        EffectKind::MinSize.as_str()
    );
    assert_eq!(diagnostic.text(), want);
    assert_eq!(RuleError::Conflict(diagnostic).text(), want);
    assert_eq!(
        RuleError::TooManyRules { cap: 64 }.text(),
        "panel rule set full: cap 64"
    );
    assert_eq!(
        RuleError::DuplicateRule { id: RuleId::new(7) }.text(),
        "duplicate panel rule id: RuleId(7)"
    );
    assert_eq!(RuleOrigin::Safety.text(), RuleOrigin::Safety.as_str());
    assert_eq!(
        PanelStateError::IllegalTransition {
            from: PanelLifecycle::Declared,
            to: PanelLifecycle::Focused,
        }
        .text(),
        format!(
            "illegal lifecycle transition {} -> {}",
            PanelLifecycle::Declared.as_str(),
            PanelLifecycle::Focused.as_str()
        )
    );
    assert_eq!(
        PanelStateError::BadgeTextTooLong { found: 65, cap: 64 }.text(),
        "badge text too long: 65 chars, cap 64"
    );
    assert_eq!(PanelStateError::AlreadyDisposed.text(), "panel already disposed");
    assert_eq!(
        PanelStateError::TooManyPanels { found: 257, cap: 256 }.text(),
        "too many panels: 257, cap 256"
    );
    assert_eq!(PanelVisibility::Occluded.text(), PanelVisibility::Occluded.as_str());
}

#[test]
fn presentation_and_scratchpad_messages() {
    assert_eq!(
        PresentationCommandError::UnknownCommand(owned("c")).text(),
        "unknown presentation command: c"
    );
    assert_eq!(
        PresentationCommandError::Rejected {
            from: PresentationMode::Tiled,
            to: PresentationMode::Floating,
        }
        .text(),
        "presentation transition rejected: tiled -> floating"
    );
    assert_eq!(
        PresentationCommandError::LeafNotFound(ViewId::new(2)).text(),
        "presentation target not found: ViewId(2)"
    );
    let slot = [
        (ScratchpadError::Occupied, "scratchpad slot already occupied"),
        (ScratchpadError::Vacant, "scratchpad slot is empty"),
        (
            ScratchpadError::MissingTarget,
            "scratchpad hide needs a target leaf",
        ),
        (
            ScratchpadError::LeafNotFound(ViewId::new(2)),
            "scratchpad target not found: ViewId(2)",
        ),
        (
            ScratchpadError::Rejected {
                from: PresentationMode::Fullscreen,
                to: PresentationMode::Scratchpad,
            },
            "scratchpad transition rejected: fullscreen -> scratchpad",
        ),
        (
            ScratchpadError::UnknownCommand(owned("c")),
            "unknown scratchpad command: c",
        ),
    ];
    for (err, want) in slot {
        assert_eq!(err.text(), want);
    }
}

#[test]
fn layout_provider_messages() {
    let cases = [
        (
            LayoutError::InvalidName { name: owned("N"), reason: "why" },
            "invalid layout provider name 'N': why",
        ),
        (
            LayoutError::UnknownProvider { name: owned("n") },
            "unknown layout provider 'n'",
        ),
        (
            LayoutError::CapabilityDenied { name: owned("n") },
            "registering layout provider 'n' requires the 'layout.provider' capability",
        ),
        (
            LayoutError::ReservedName { name: owned("grid") },
            "layout provider name 'grid' is reserved for the canonical provider",
        ),
        (
            LayoutError::DuplicateName { name: owned("n") },
            "layout provider 'n' is already registered",
        ),
        (
            LayoutError::DuplicateId { id: 3 },
            "layout provider id 3 is already registered",
        ),
        (
            LayoutError::EmptyViewSet,
            "layout proposal needs at least one view",
        ),
        (LayoutError::EmptyProposal, "layout proposal contains no views"),
        (
            LayoutError::DuplicateView { id: 1 },
            "layout proposal repeats ViewId(1)",
        ),
        (
            LayoutError::MissingView { id: 1 },
            "layout proposal drops requested ViewId(1)",
        ),
        (
            LayoutError::UnexpectedView { id: 1 },
            "layout proposal invents unrequested ViewId(1)",
        ),
        (
            LayoutError::RatioOutOfBounds { ratio: Float32::from_bits(0.95f32.to_bits()) },
            "layout proposal ratio 0.95 is outside [0.1, 0.9]",
        ),
        (
            LayoutError::UnsupportedNode { kind: "Stack" },
            "layout proposal uses 'Stack' (only H and V splits are allowed)",
        ),
    ];
    for (err, want) in cases {
        assert_eq!(err.text("0.95"), want);
    }
}
