use parse_changelog::{
    default_prefix_pattern, extract_version_from_title, full_unlink, trim_start, unlink, Pattern,
};

/// Extracts a version from a title under the default prefix format.
fn version(s: &str) -> (String, String) {
    extract_version_from_title(s, &default_prefix_pattern())
}

fn pair(a: &str, b: &str) -> (String, String) {
    (a.to_string(), b.to_string())
}

#[test]
fn test_extract_version_from_title() {
    assert_eq!(version("[1.0.0]"), pair("1.0.0", ""));
    assert_eq!(version("[1.0.0](link)"), pair("1.0.0", ""));
    assert_eq!(version("[1.0.0]()"), pair("1.0.0", ""));
    assert_eq!(version("[1.0.0][link]"), pair("1.0.0", ""));
    assert_eq!(version("[1.0.0][]"), pair("1.0.0", ""));

    assert_eq!(version("v[1.0.0]"), pair("1.0.0", ""));
    assert_eq!(version("v[1.0.0](link)"), pair("1.0.0", ""));
    assert_eq!(version("v[1.0.0]()"), pair("1.0.0", ""));
    assert_eq!(version("v[1.0.0][link]"), pair("1.0.0", ""));
    assert_eq!(version("v[1.0.0][]"), pair("1.0.0", ""));

    assert_eq!(version("[v1.0.0]"), pair("1.0.0", ""));
    assert_eq!(version("[v1.0.0](link)"), pair("1.0.0", ""));
    assert_eq!(version("[v1.0.0]()"), pair("1.0.0", ""));
    assert_eq!(version("[v1.0.0][link]"), pair("1.0.0", ""));
    assert_eq!(version("[v1.0.0][]"), pair("1.0.0", ""));

    assert_eq!(version("[1.0.0] 2022"), pair("1.0.0", ""));
    assert_eq!(version("[1.0.0](link) 2022"), pair("1.0.0", ""));
    assert_eq!(version("[1.0.0]() 2022"), pair("1.0.0", ""));
    assert_eq!(version("[1.0.0][link] 2022"), pair("1.0.0", ""));
    assert_eq!(version("[1.0.0][] 2022"), pair("1.0.0", ""));

    assert_eq!(version("[1.0.0 2022]"), pair("1.0.0", ""));
    assert_eq!(version("[1.0.0 2022](link)"), pair("1.0.0", ""));
    assert_eq!(version("[1.0.0 2022]()"), pair("1.0.0", ""));
    assert_eq!(version("[1.0.0 2022][link]"), pair("1.0.0", ""));
    assert_eq!(version("[1.0.0 2022][]"), pair("1.0.0", ""));

    // unclosed '['
    assert_eq!(version("[1.0.0"), pair("1.0.0", ""));
    assert_eq!(version("v[1.0.0"), pair("1.0.0", ""));
    assert_eq!(version("[v1.0.0"), pair("1.0.0", ""));

    assert_eq!(version("[1.0.0]a(link)"), pair("1.0.0", "a(link)"));
    assert_eq!(version("[1.0.0][]]"), pair("1.0.0", "]"));
    assert_eq!(version("[1.0.0](link)a"), pair("1.0.0", "a"));
}

// See also the note on `unlink`: this removes a single link wrapper.
#[test]
fn test_unlink() {
    assert_eq!(unlink("[1.0.0]"), pair("1.0.0", ""));
    assert_eq!(unlink("[1.0.0](link)"), pair("1.0.0", ""));
    assert_eq!(unlink("[1.0.0]()"), pair("1.0.0", ""));
    assert_eq!(unlink("[1.0.0][link]"), pair("1.0.0", ""));
    assert_eq!(unlink("[1.0.0][]"), pair("1.0.0", ""));

    // Link without trailing ']': e.g., [1.0.0 2022-01-01]
    assert_eq!(unlink("[1.0.0"), pair("1.0.0", ""));
    assert_eq!(unlink("[1.0.0(a)"), pair("1.0.0(a)", ""));

    // Link without leading '[': e.g., [Version 1.0.0]
    assert_eq!(unlink("1.0.0]"), pair("1.0.0", ""));
    assert_eq!(unlink("1.0.0](link)"), pair("1.0.0", ""));
    assert_eq!(unlink("1.0.0][link]"), pair("1.0.0", ""));

    assert_eq!(unlink("[1.0.0]a(link)"), pair("1.0.0", "a(link)"));
    assert_eq!(unlink("[1.0.0][]]"), pair("1.0.0", "]"));
    assert_eq!(unlink("[1.0.0](link)a"), pair("1.0.0", "a"));
}

#[test]
fn test_full_unlink() {
    assert_eq!(full_unlink("[1.0.0]"), "1.0.0");
    assert_eq!(full_unlink("[1.0.0]()"), "1.0.0");
    assert_eq!(full_unlink("[1.0.0](link)"), "1.0.0");
    assert_eq!(full_unlink("[1.0.0][]"), "1.0.0");
    assert_eq!(full_unlink("[1.0.0][link]"), "1.0.0");
    assert_eq!(full_unlink("[1.0.0][link1][a](link2)"), "1.0.0a");
    assert_eq!(full_unlink("[1.0.0][link1][a][link2]"), "1.0.0a");
    assert_eq!(full_unlink("v [1.0.0][link1][a](link2) [b][link3] [c] (d)"), "v 1.0.0a b c (d)");
}

#[test]
fn custom_prefix_extraction() {
    // A prefix format other than the default drops its match before the
    // version token is read.
    let cargo = Pattern::new("Cargo ").unwrap();
    assert_eq!(extract_version_from_title("Cargo 1.50 (2021-02-11)", &cargo), pair("1.50", ""));
    // The default prefix would not strip "Cargo ", so the token fails.
    assert_eq!(version("Cargo 1.50 (2021-02-11)"), pair("Cargo", ""));
}

#[test]
fn test_trim_start() {
    assert_eq!(trim_start("# 0.1.0"), "# 0.1.0");
    assert_eq!(trim_start("   # 0.1.0"), "# 0.1.0");
    assert_eq!(trim_start("    # 0.1.0"), "    # 0.1.0");
    assert_eq!(trim_start("\t# 0.1.0"), "\t# 0.1.0");
}
