use waywallen::plugin::{
    save_decision, state_from_bytes, LegacyPathError, PluginStateStore, PluginUpdateManifest,
    PluginUpdatePackage, SaveDecision, StateLoadError, MAX_PLUGIN_STATE_BYTES,
};

fn manifest() -> PluginUpdateManifest {
    PluginUpdateManifest {
        version: "0.2.0".to_string(),
        entry_version: 2,
        spawn_version: 6,
        x86_64: Some(PluginUpdatePackage {
            zip_url: "https://example.org/owe/x86_64.zip".to_string(),
            sha256: "x86_64-sha256".to_string(),
        }),
        aarch64: Some(PluginUpdatePackage {
            zip_url: "https://example.org/owe/aarch64.zip".to_string(),
            sha256: "aarch64-sha256".to_string(),
        }),
    }
}

#[test]
fn parses_arch_packages_and_versions() {
    let m = manifest();
    assert_eq!(m.entry_version, 2);
    assert_eq!(m.spawn_version, 6);
    let x86_64 = m.package_for_arch("x86_64").expect("x86_64 package");
    assert_eq!(x86_64.zip_url, "https://example.org/owe/x86_64.zip");
    assert_eq!(x86_64.sha256, "x86_64-sha256");
    let aarch64 = m.package_for_arch("aarch64").expect("aarch64 package");
    assert_eq!(aarch64.zip_url, "https://example.org/owe/aarch64.zip");
    assert_eq!(aarch64.sha256, "aarch64-sha256");
    assert_eq!(m.package_for_arch("riscv64"), None);
    let mut only_x86 = manifest();
    only_x86.aarch64 = None;
    assert_eq!(only_x86.package_for_arch("aarch64"), None);
}

#[test]
fn unchanged_state_is_not_written_and_oversized_state_refused() {
    assert_eq!(save_decision(None, "one"), SaveDecision::Write);
    assert_eq!(save_decision(Some("one"), "one"), SaveDecision::Unchanged);
    assert_eq!(save_decision(Some("one"), "two"), SaveDecision::Write);
    let oversized = "x".repeat(MAX_PLUGIN_STATE_BYTES + 1);
    assert_eq!(save_decision(None, &oversized), SaveDecision::TooLarge);
    assert_eq!(
        save_decision(Some(&oversized), &oversized),
        SaveDecision::Unchanged
    );
    let exact = "x".repeat(MAX_PLUGIN_STATE_BYTES);
    assert_eq!(save_decision(None, &exact), SaveDecision::Write);
    let multibyte = "é".repeat(MAX_PLUGIN_STATE_BYTES / 2 + 1);
    assert_eq!(save_decision(None, &multibyte), SaveDecision::TooLarge);
}

#[test]
fn loaded_state_is_bounded_and_utf8() {
    assert_eq!(state_from_bytes(b"two".to_vec()), Ok("two".to_string()));
    assert_eq!(
        state_from_bytes(vec![b'x'; MAX_PLUGIN_STATE_BYTES + 1]),
        Err(StateLoadError::TooLarge)
    );
    assert_eq!(
        state_from_bytes(vec![0xff, 0xfe]),
        Err(StateLoadError::NotUtf8)
    );
}

#[test]
fn legacy_names_must_be_basenames() {
    let store = PluginStateStore::new("/data/state".to_string(), "/data".to_string());
    assert_eq!(store.root(), "/data/state");
    assert_eq!(store.legacy_root(), "/data");
    assert_eq!(store.legacy_path("../secret"), Err(LegacyPathError::NotBasename));
    assert_eq!(store.legacy_path("a/b"), Err(LegacyPathError::NotBasename));
    assert_eq!(store.legacy_path(""), Err(LegacyPathError::NotBasename));
    assert_eq!(store.legacy_path(".."), Err(LegacyPathError::NotBasename));
    assert_eq!(
        store.legacy_path("old.json"),
        Ok("/data/old.json".to_string())
    );
}

#[test]
fn state_and_temp_paths_live_under_the_root() {
    let store = PluginStateStore::new("/data/state".to_string(), "/data".to_string());
    assert_eq!(store.state_path("org.example"), "/data/state/org.example.state");
    assert_eq!(
        store.temp_path("org.example", "1234"),
        "/data/state/.org.example.1234.tmp"
    );
}

#[test]
fn a_written_state_loads_back_unchanged() {
    let state = "{\"volume\": 0.5, \"name\": \"zoë\"}";
    assert_eq!(save_decision(None, state), SaveDecision::Write);
    assert_eq!(state_from_bytes(state.as_bytes().to_vec()), Ok(state.to_string()));
    assert_eq!(save_decision(Some(state), state), SaveDecision::Unchanged);
}
