use kse_core::contract::{
    config_file_for, config_version_in, default_contract, detect_by_files, normalize_version,
    resolve_language, scope_test_threshold, BuildTool, FileMarkers, Language, Registry, Scope,
    StageRelease, Threshold,
};

fn no_files() -> FileMarkers {
    FileMarkers {
        cargo_toml: false,
        pyproject_toml: false,
        requirements_txt: false,
        go_mod: false,
        pubspec_yaml: false,
        package_json: false,
    }
}

fn cli_scope(test_threshold: Option<f64>) -> Scope {
    Scope {
        name: "cli".into(),
        dir: ".".into(),
        language: Language::Rust,
        framework: String::new(),
        build_tool: BuildTool::Cargo,
        registry: Registry::Crates,
        release: StageRelease::default(),
        test_threshold: test_threshold.map(|t| Threshold { bits: t.to_bits() }),
    }
}

#[test]
fn test_resolve_language_declared() {
    let s = cli_scope(None);
    assert!(matches!(resolve_language(&s, &no_files()), Language::Rust));
}

#[test]
fn test_scope_test_threshold_custom() {
    let mut c = default_contract();
    c.stages.test.threshold = Threshold { bits: 70.0f64.to_bits() };
    let s = cli_scope(Some(90.0));
    assert_eq!(f64::from_bits(scope_test_threshold(&c, &s).bits), 90.0);
}

#[test]
fn test_scope_test_threshold_global() {
    let mut c = default_contract();
    c.stages.test.threshold = Threshold { bits: 70.0f64.to_bits() };
    let s = cli_scope(None);
    assert_eq!(f64::from_bits(scope_test_threshold(&c, &s).bits), 70.0);
}

#[test]
fn test_detect_by_files_rust() {
    let mut m = no_files();
    m.cargo_toml = true;
    assert!(matches!(detect_by_files(&m), Language::Rust));
}

#[test]
fn test_detect_by_files_unknown() {
    assert!(matches!(detect_by_files(&no_files()), Language::Unknown(_)));
}

#[test]
fn contract_test_normalize_version_v_prefix() {
    assert_eq!(normalize_version("v1.2.3"), "1.2.3");
}

#[test]
fn test_normalize_version_scoped() {
    assert_eq!(normalize_version("cli/v0.1.0"), "0.1.0");
}

#[test]
fn test_read_config_version_cargo() {
    assert_eq!(config_file_for(&Language::Rust), Some("Cargo.toml"));
    let v = config_version_in("[package]\nname = \"foo\"\nversion = \"0.1.0\"\n");
    assert_eq!(v.as_deref(), Some("0.1.0"));
}

#[test]
fn default_contract_values() {
    let c = default_contract();
    assert!(c.scopes.is_empty());
    assert_eq!(f64::from_bits(c.stages.test.threshold.bits), 70.0);
    assert_eq!(c.stages.release.changelog, "CHANGELOG.md");
    assert_eq!(c.platforms.source_control, "github");
    assert_eq!(Language::Rust.name(), "Rust");
}
