use nvm_tasks::mirrors::{contains, get_all_mirror_presets, get_registry_for_npm};
use nvm_tasks::settings::{apply_setting, parse_nvm_settings};
use nvm_tasks::version::{compare_versions, parse_u32};

#[test]
fn test_parse_nvm_settings() {
    let content = "root: C:\\nvm\npath: C:\\nodejs\n# comment\nnode_mirror: https://npmmirror.com/mirrors/node/\n";
    let config = parse_nvm_settings(content);
    assert_eq!(config.nvm_path, "C:\\nvm");
    assert_eq!(config.nvm_symlink, "C:\\nodejs");
    assert_eq!(config.node_mirror, "https://npmmirror.com/mirrors/node/");
    assert_eq!(config.arch, "64"); // Default
}

#[test]
fn test_parse_nvm_settings_with_multiline_and_spaces() {
    let content = "root : D:\\nvm  \n  path  :  D:\\nodejs \narch : 32";
    let config = parse_nvm_settings(content);
    assert_eq!(config.nvm_path, "D:\\nvm");
    assert_eq!(config.nvm_symlink, "D:\\nodejs");
    assert_eq!(config.arch, "32");
}

#[test]
fn test_get_mirror_presets() {
    let presets = get_all_mirror_presets();
    assert!(!presets.is_empty());
    assert_eq!(presets[1].id, "taobao");
}

#[test]
fn settings_keys_ignore_case_and_defaults_stay() {
    let content = "ROOT: E:\\nvm\r\nGlobal_Prefix: E:\\npm\r\nclose_action: hide\r\nunknown: 1\r\nnocolon\r\n";
    let config = parse_nvm_settings(content);
    assert_eq!(config.nvm_path, "E:\\nvm");
    assert_eq!(config.global_prefix, Some("E:\\npm".to_string()));
    assert_eq!(config.close_action, "hide");
    assert_eq!(config.node_mirror, "https://nodejs.org/dist/");
    assert_eq!(config.npm_mirror, "");
    assert_eq!(config.last_updated, None);
}

#[test]
fn settings_value_keeps_later_colons() {
    let config = parse_nvm_settings("npm_mirror: https://npmmirror.com/mirrors/npm/\nglobal_prefix:   \n");
    assert_eq!(config.npm_mirror, "https://npmmirror.com/mirrors/npm/");
    assert_eq!(config.global_prefix, None);
    let empty = parse_nvm_settings("");
    assert_eq!(empty.arch, "64");
    assert_eq!(empty.close_action, "ask");
}

#[test]
fn apply_setting_by_key() {
    let mut config = parse_nvm_settings("");
    apply_setting(&mut config, "arch", "32");
    apply_setting(&mut config, "Arch", "16");
    assert_eq!(config.arch, "32");
    apply_setting(&mut config, "global_prefix", "D:\\g");
    assert_eq!(config.global_prefix, Some("D:\\g".to_string()));
    apply_setting(&mut config, "global_prefix", "");
    assert_eq!(config.global_prefix, None);
}

#[test]
fn registry_for_npm_mirror() {
    assert_eq!(get_registry_for_npm(""), None);
    assert_eq!(
        get_registry_for_npm("https://npmmirror.com/mirrors/npm/"),
        Some("https://registry.npmmirror.com".to_string())
    );
    assert_eq!(
        get_registry_for_npm("huawei"),
        Some("https://repo.huaweicloud.com/repository/npm/".to_string())
    );
    assert_eq!(
        get_registry_for_npm("https://registry.npmjs.org/custom"),
        Some("https://registry.npmjs.org/custom".to_string())
    );
    assert_eq!(get_registry_for_npm("https://example.com/npm/"), None);
    assert!(contains("abcabd", "abd"));
    assert!(!contains("ab", "abc"));
    assert!(contains("x", ""));
}

#[test]
fn version_comparison() {
    assert!(compare_versions("1.2.3", "1.2.4"));
    assert!(compare_versions("1.2.3", "2.0.0"));
    assert!(!compare_versions("1.2.3", "1.2.3"));
    assert!(!compare_versions("1.3.0", "1.2.9"));
    assert!(compare_versions("1.2", "1.2.1"));
    assert!(!compare_versions("1.2.3.9", "1.2.3"));
    // parts that are not numbers are left out
    assert!(compare_versions("1.x.3", "1.4"));
    assert!(compare_versions("0.9.0", "+1.0.0"));
}

#[test]
fn parse_u32_edges() {
    assert_eq!(parse_u32("0"), Some(0));
    assert_eq!(parse_u32("+5"), Some(5));
    assert_eq!(parse_u32("007"), Some(7));
    assert_eq!(parse_u32("4294967295"), Some(u32::MAX));
    assert_eq!(parse_u32("4294967296"), None);
    assert_eq!(parse_u32("99999999999999999999"), None);
    assert_eq!(parse_u32(""), None);
    assert_eq!(parse_u32("+"), None);
    assert_eq!(parse_u32("++5"), None);
    assert_eq!(parse_u32("-0"), None);
    assert_eq!(parse_u32("12a"), None);
    assert_eq!(parse_u32(" 1"), None);
    assert_eq!(parse_u32("\u{0663}"), None);
    for s in ["0", "+5", "4294967295", "4294967296", "", "+", "-0", "1x"] {
        assert_eq!(parse_u32(s), s.parse::<u32>().ok());
    }
}
