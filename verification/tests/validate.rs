use kse_core::validate::{read_cargo_version, validate_changelog, validate_version};

#[test]
fn test_validate_changelog_found() {
    assert!(validate_changelog("v1.0.0", "CHANGELOG.md", Some("## [1.0.0]\n\ncontent\n")).is_ok());
}

#[test]
fn test_validate_changelog_missing() {
    assert!(validate_changelog("v1.0.0", "CHANGELOG.md", Some("## [2.0.0]\n\ncontent\n")).is_err());
}

#[test]
fn test_validate_changelog_file_not_found() {
    assert!(validate_changelog("v1.0.0", "NONE.md", None).is_err());
}

#[test]
fn test_validate_version_cargo_match() {
    let result = validate_version("v1.0.0", Some("[package]\nname = \"foo\"\nversion = \"1.0.0\"\n"), None);
    assert!(result.is_ok());
    assert_eq!(result.unwrap(), "1.0.0");
}

#[test]
fn test_validate_version_cargo_mismatch() {
    assert!(validate_version("v1.0.0", Some("[package]\nname = \"foo\"\nversion = \"2.0.0\"\n"), None).is_err());
}

#[test]
fn test_validate_version_scoped_tag() {
    let result = validate_version("cli/v0.1.0", Some("[package]\nname = \"foo\"\nversion = \"0.1.0\"\n"), None);
    assert!(result.is_ok());
    assert_eq!(result.unwrap(), "0.1.0");
}

#[test]
fn test_validate_version_invalid_format() {
    assert!(validate_version("bad", None, None).is_err());
}

#[test]
fn version_messages() {
    assert_eq!(validate_version("bad", None, None), Err("版本号格式错误: bad".to_string()));
    assert_eq!(
        validate_version("v1.0.0", Some("[package]\nversion = \"2.0.0\"\n"), None),
        Err("版本不匹配: tag=v1.0.0 Cargo.toml=2.0.0".to_string())
    );
    assert_eq!(
        validate_version("v1.0.0", Some("[package]\nname = \"x\"\n"), None),
        Err("无法读取 Cargo.toml 版本号".to_string())
    );
    assert_eq!(
        validate_version("v1.0.0", None, Some("[project]\nversion = \"0.9.0\"\n")),
        Err("版本不匹配: tag=v1.0.0 pyproject.toml=0.9.0".to_string())
    );
    assert_eq!(validate_version("v1.0.0", None, Some("x = 1\n")), Ok("1.0.0".to_string()));
    assert_eq!(read_cargo_version("  version = \"3.1.4\" # x\n"), Some("3.1.4".to_string()));
    assert_eq!(read_cargo_version("version = \"unterminated\n"), None);
}
