use bitty_ui::panel::PanelId;
use bitty_ui::panel_persist::{
    ManifestError, PERSIST_MANIFEST_VERSION, PersistedPanel, PersistencePolicy, RestartManifest,
    decode_manifest, encode_manifest, plan_restore,
};

fn sample() -> RestartManifest {
    let mut m = RestartManifest::new();
    m.push(PersistedPanel::new(PanelId::new(9), 1, "logs").unwrap())
        .unwrap();
    m.push(PersistedPanel::new(PanelId::new(3), 0, "editor").unwrap())
        .unwrap();
    m
}

#[test]
fn round_trip_preserves_records() {
    let doc = encode_manifest(&sample());
    let back = decode_manifest(&doc).unwrap();
    assert_eq!(back, sample());
}

#[test]
fn stable_plan_sorts_by_id_ephemeral_keeps_order() {
    let m = sample();
    let stable = plan_restore(&m, PersistencePolicy::StableIdentity);
    assert_eq!(stable[0].id, PanelId::new(3));
    let ephemeral = plan_restore(&m, PersistencePolicy::Ephemeral);
    assert_eq!(ephemeral[0].id, PanelId::new(9));
}

#[test]
fn bad_version_rejects_whole_document() {
    let err = decode_manifest("v=99;id=1;ws=0;title=x").unwrap_err();
    assert_eq!(
        err,
        ManifestError::UnsupportedVersion {
            found: 99,
            supported: PERSIST_MANIFEST_VERSION
        }
    );
}
