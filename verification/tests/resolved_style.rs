use bitty_ui::resolved_style::{StyleCascade, StyleError, StyleOrigin};
use bitty_ui::theme::{CoreToken, TokenColor};

const RED: TokenColor = TokenColor([0xFF, 0x00, 0x00, 0xFF]);
const GREEN: TokenColor = TokenColor([0x00, 0xFF, 0x00, 0xFF]);
const BLUE: TokenColor = TokenColor([0x00, 0x00, 0xFF, 0xFF]);

const CORE_TOKENS: [CoreToken; 3] = [
    CoreToken {
        name: "content.accent",
        color: TokenColor([0x80, 0x80, 0xFF, 0xFF]),
    },
    CoreToken {
        name: "content.foreground",
        color: TokenColor([0xEE, 0xEE, 0xEE, 0xFF]),
    },
    CoreToken {
        name: "chrome.border",
        color: TokenColor([0x33, 0x33, 0x33, 0xFF]),
    },
];

#[test]
fn origin_order_is_the_ux20_contract() {
    let mut ranks: Vec<u8> = StyleOrigin::ordered().iter().map(|o| o.rank()).collect();
    let sorted = {
        let mut copy = ranks.clone();
        copy.sort();
        copy
    };
    assert_eq!(ranks, sorted, "ordered() must run lowest to highest");
    assert!(StyleOrigin::Safety.rank() > StyleOrigin::UserRule.rank());
    assert!(StyleOrigin::UserRule.rank() > StyleOrigin::WorkspaceRule.rank());
    assert!(StyleOrigin::WorkspaceRule.rank() > StyleOrigin::UserTheme.rank());
    assert!(StyleOrigin::UserTheme.rank() > StyleOrigin::PluginPreference.rank());
    assert!(StyleOrigin::PluginPreference.rank() > StyleOrigin::PluginContentTheme.rank());
    assert!(StyleOrigin::PluginContentTheme.rank() > StyleOrigin::FrameworkDefault.rank());
    ranks.clear();
}

#[test]
fn highest_claimant_wins_with_attribution() {
    let mut cascade = StyleCascade::new(&CORE_TOKENS);
    cascade
        .set(StyleOrigin::PluginContentTheme, "content.accent", BLUE)
        .expect("valid key");
    cascade
        .set(StyleOrigin::PluginPreference, "content.accent", GREEN)
        .expect("valid key");
    cascade
        .set(StyleOrigin::UserTheme, "content.accent", RED)
        .expect("valid key");
    let resolved = cascade.resolve("content.accent").expect("claimed");
    assert_eq!(resolved.value, RED);
    assert_eq!(resolved.origin, StyleOrigin::UserTheme);
    assert_eq!(
        cascade.attribution("content.accent"),
        Some(StyleOrigin::UserTheme)
    );
    cascade
        .set(StyleOrigin::WorkspaceRule, "content.accent", GREEN)
        .expect("valid key");
    assert_eq!(
        cascade.attribution("content.accent"),
        Some(StyleOrigin::WorkspaceRule)
    );
    cascade
        .set(StyleOrigin::Safety, "content.accent", BLUE)
        .expect("valid key");
    let safe = cascade.resolve("content.accent").expect("claimed");
    assert_eq!(safe.value, BLUE);
    assert_eq!(safe.origin, StyleOrigin::Safety);
}

#[test]
fn framework_defaults_keep_core_total() {
    let cascade = StyleCascade::new(&CORE_TOKENS);
    for token in CORE_TOKENS {
        let name = token.name;
        let resolved = cascade.resolve(name);
        assert!(resolved.is_some(), "core key {name} must resolve");
        assert_eq!(
            resolved.expect("checked").origin,
            StyleOrigin::FrameworkDefault
        );
    }
    assert_eq!(cascade.resolve("not.a.key"), None);
    assert!(cascade.resolve_all().len() >= CORE_TOKENS.len());
}

#[test]
fn key_boundary_rejects_terminal_unknown_and_bad_plugin() {
    let mut cascade = StyleCascade::new(&CORE_TOKENS);
    assert!(matches!(
        cascade.set(StyleOrigin::UserTheme, "terminal.foreground", RED),
        Err(StyleError::TerminalKey { .. })
    ));
    assert!(matches!(
        cascade.set(StyleOrigin::UserTheme, "chrome.unknown", RED),
        Err(StyleError::UnknownKey { .. })
    ));
    assert!(matches!(
        cascade.set(StyleOrigin::UserTheme, "plugin.", RED),
        Err(StyleError::BadPluginKey { .. })
    ));
    cascade
        .set(StyleOrigin::PluginContentTheme, "plugin.notes.accent", RED)
        .expect("namespaced plugin key is accepted");
    assert_eq!(
        cascade.attribution("plugin.notes.accent"),
        Some(StyleOrigin::PluginContentTheme)
    );
}

#[test]
fn origin_names_round_trip() {
    for origin in StyleOrigin::ordered() {
        assert_eq!(StyleOrigin::parse(origin.as_str()), Some(origin));
    }
    assert_eq!(StyleOrigin::parse("user"), None);
}
