//! Headless UI primitives for a tiling terminal: an owned layout tree with a
//! deterministic solver, focus traversal, drag and gesture sessions, panels,
//! beacons, accessibility trees and the bounded registries around them.
//!
//! Everything here is a pure function of its inputs, but for one draw: a new
//! accessibility tree builder takes a random brand, which tells its handles
//! from those of other builders ([`A11yTreeBuilder::with_brand`] takes it as an
//! argument). Every public function carries a contract, and the module-level
//! laws are stated as public proof functions next to the functions they relate.

pub mod a11y;
pub mod a11y_laws;
pub mod a11y_tree;
pub mod beacon_dispatch;
pub mod beacon_label;
pub mod beacon_layer;
pub mod beacon_provider;
pub mod beacon_target;
pub mod budget;
pub mod canvas;
pub mod decoration;
pub mod drag;
pub mod drag_bar;
pub mod float32;
pub mod float64;
pub mod focus;
pub mod geometry;
pub mod gesture;
pub mod layout;
pub mod layout_edit;
pub mod layout_laws;
pub mod motion;
pub mod panel;
pub mod panel_command;
pub mod panel_identity;
pub mod panel_lua;
pub mod panel_overlay;
pub mod panel_persist;
pub mod panel_record;
pub mod panel_record_laws;
pub mod panel_rehydrate;
pub mod panel_rules;
pub mod panel_state;
pub mod placement;
pub mod presentation;
pub mod provider;
pub mod provider_registry;
pub mod resolved_style;
pub mod scratchpad;
pub mod seqs;
pub mod term_state;
pub mod text;
pub mod theme;
pub mod tilers;
pub mod tree;
pub mod tree_laws;
pub mod uitree;
pub mod view;
pub mod workspace_scene;

pub use decoration::{
    DecoratedView, Decoration, DecorationError, DEFAULT_BORDER_PX, DEFAULT_GAPS_IN_PX,
    DEFAULT_GAPS_OUT_PX, DEFAULT_RADIUS_PX, MAX_BORDER_PX, MAX_GAP_PX, MAX_RADIUS_PX,
};
pub use drag::{DragHistory, DRAG_HISTORY_CAP};
pub use focus::{Focus, FocusDirection};
pub use geometry::{Gaps, Point, Rect, Size, SplitAxis};
pub use layout::{
    clamp_ratio, smart_split_axis, split_rect, split_rect_with_gap, LayoutNode, OverlayLayer,
    OverlayTier,
};
pub use panel::{
    route_input, validate_panel_bounds, BrowserSurfaceId, InputTarget, PanelFocus, PanelId,
    PanelState, PanelType, ViewContent,
};
pub use panel_command::{
    CommandError, CommandRegistry, QualifiedCommand, MAX_COMMANDS_PER_PANEL_TYPE,
};
pub use panel_overlay::{
    Overlay, OverlayError, OverlayKind, OverlayManager, MAX_OVERLAYS_PER_WINDOW,
    MAX_OVERLAY_TEXT_LEN, MAX_OVERLAY_TOOLTIP_LEN,
};
pub use presentation::{
    apply_presentation_command, presentation_command_for_mode, presentation_mode_for_command,
    PresentationCommandError, PresentationMode, PRESENTATION_CMD_FLOATING,
    PRESENTATION_CMD_FULLSCREEN, PRESENTATION_CMD_SCRATCHPAD, PRESENTATION_CMD_TILED,
};
pub use provider::{
    validate_proposal, LayoutError, LayoutProvider, ProviderId, ProviderName, WorkspaceSnapshot,
    DWINDLE_PROVIDER_ID, GRID_PROVIDER_ID, LAYOUT_PROVIDER_CAPABILITY, MASTER_PROVIDER_ID,
    MAX_PROVIDER_NAME_LEN, NOOP_PROVIDER_ID, NOOP_PROVIDER_NAME, RESERVED_PROVIDER_NAMES,
};
pub use provider_registry::ProviderRegistry;
pub use scratchpad::{
    apply_scratchpad_toggle, HiddenEntry, ScratchpadError, ScratchpadSlot, SCRATCHPAD_CMD_TOGGLE,
};
pub use tilers::{DwindleProvider, GridProvider, MasterProvider, NoopTiler};
pub use uitree::{UiNode, UiNodeId, UiNodeKind};
pub use view::{LeafView, ViewId};
pub use workspace_scene::SceneLayer;
