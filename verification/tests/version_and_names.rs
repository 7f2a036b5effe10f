use update_packages::names::{extract_project_name, get_projects_file};
use update_packages::numbers::{parse_u32_or_zero, u64_to_string};
use update_packages::text::{split_str, str_contains, str_contains_ci, trim_str};
use update_packages::version::increment_patch_version;

#[test]
fn patch_bump_keeps_major_minor() {
    assert_eq!(increment_patch_version("2.4.9"), "2.4.10");
    assert_eq!(increment_patch_version("0.0.0"), "0.0.1");
    assert_eq!(increment_patch_version("10.20.30"), "10.20.31");
}

#[test]
fn patch_bump_drops_extra_parts() {
    assert_eq!(increment_patch_version("1.2.3.4"), "1.2.4");
}

#[test]
fn patch_bump_treats_unparsable_patch_as_zero() {
    assert_eq!(increment_patch_version("1.2.x"), "1.2.1");
    assert_eq!(increment_patch_version("1.2."), "1.2.1");
    assert_eq!(increment_patch_version("1.2.99999999999"), "1.2.1");
}

#[test]
fn patch_bump_fallback_for_short_versions() {
    assert_eq!(increment_patch_version("1"), "1.0.1");
    assert_eq!(increment_patch_version(""), ".0.1");
    assert_eq!(increment_patch_version("1.2"), "1.2.0.1");
}

#[test]
fn parse_u32_matches_rust_parser() {
    assert_eq!(parse_u32_or_zero("7"), 7);
    assert_eq!(parse_u32_or_zero("+7"), 7);
    assert_eq!(parse_u32_or_zero("0"), 0);
    assert_eq!(parse_u32_or_zero(""), 0);
    assert_eq!(parse_u32_or_zero("+"), 0);
    assert_eq!(parse_u32_or_zero("x7"), 0);
    assert_eq!(parse_u32_or_zero("4294967295"), 4294967295);
    assert_eq!(parse_u32_or_zero("4294967296"), 0);
}

#[test]
fn decimal_rendering() {
    assert_eq!(u64_to_string(0), "0");
    assert_eq!(u64_to_string(9), "9");
    assert_eq!(u64_to_string(907), "907");
    assert_eq!(u64_to_string(4294967296), "4294967296");
}

#[test]
fn split_matches_rust_split() {
    assert_eq!(split_str("a.b", '.'), vec!["a", "b"]);
    assert_eq!(split_str("", '.'), vec![""]);
    assert_eq!(split_str("a..b", '.'), vec!["a", "", "b"]);
    assert_eq!(split_str(".a.", '.'), vec!["", "a", ""]);
}

#[test]
fn trim_removes_ascii_whitespace() {
    assert_eq!(trim_str("  /usr/bin/npm\n"), "/usr/bin/npm");
    assert_eq!(trim_str("\t\r\n "), "");
    assert_eq!(trim_str("abc"), "abc");
}

#[test]
fn substring_search() {
    assert!(str_contains("GNU bash, version 5", "bash"));
    assert!(!str_contains("zsh", "bash"));
    assert!(str_contains_ci("NPM helper", "npm"));
    assert!(str_contains_ci("Node.exe", "node"));
    assert!(!str_contains_ci("narwhal", "npm"));
}

#[test]
fn target_name_above_last_marker() {
    assert_eq!(extract_project_name("/Users/x/proj/node_modules/@scope/name"), "proj");
}

#[test]
fn target_name_uses_last_marker_when_nested() {
    assert_eq!(extract_project_name("/a/node_modules/pkg/node_modules/@nested/lib"), "pkg");
}

#[test]
fn target_name_fallbacks() {
    assert_eq!(extract_project_name("/a/b/c"), "c");
    assert_eq!(extract_project_name("/a/b/"), "b");
    assert_eq!(extract_project_name("node_modules"), "node_modules");
    assert_eq!(extract_project_name("/x/node_modules/@only"), "x");
}

#[test]
fn projects_file_inside_data_dir() {
    assert_eq!(
        get_projects_file("/home/u/.library-build-management"),
        "/home/u/.library-build-management/projects.json"
    );
}
