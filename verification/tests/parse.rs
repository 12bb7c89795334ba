use parse_changelog::{parse, parse_iter, Parser, Release};

/// Strips up to three leading spaces and all trailing white space, as the
/// parser does for heading-relative content comparisons.
fn trim(s: &str) -> &str {
    let mut cnt = 0;
    while s[cnt..].starts_with(' ') {
        cnt += 1;
    }
    // Indents less than 4 are ignored.
    if cnt < 4 {
        s[cnt..].trim_end()
    } else {
        s.trim_end()
    }
}

#[test]
fn test_success() {
    let changelogs = [
        // Atx-style 1
        "
# Changelog
## unreleased
## 0.2.0
0.2.0.
## 0.1.0
0.1.0.
",
        // Atx-style 2
        "
# Changelog
# unreleased
# 0.2.0
0.2.0.
# 0.1.0
0.1.0.
",
        // Atx-style & 3 indents
        "
   # Changelog
   # unreleased
   # 0.2.0
   0.2.0.
   # 0.1.0
   0.1.0.
",
        // Setext-style 1
        "
Changelog
==
unreleased
--
0.2.0
--
0.2.0.
0.1.0
--
0.1.0.
",
        // Setext-style 2
        "
Changelog
==
unreleased
==
0.2.0
==
0.2.0.
0.1.0
==
0.1.0.
",
        // Setext-style & 3 indents
        "
   Changelog
   ==
   unreleased
   ==
   0.2.0
   ==
   0.2.0.
   0.1.0
   ==
   0.1.0.
",
    ];

    for changelog in &changelogs {
        let changelog = parse(changelog).unwrap();
        assert_eq!(changelog[0].title, "0.2.0");
        assert_eq!(trim(&changelog[0].notes), "0.2.0.");

        assert_eq!(changelog["0.2.0"].title, "0.2.0");
        assert_eq!(trim(&changelog["0.2.0"].notes), "0.2.0.");

        assert_eq!(changelog["0.1.0"].title, "0.1.0");
        assert_eq!(trim(&changelog["0.1.0"].notes), "0.1.0.");
    }
}

#[test]
fn test_failure() {
    let changelogs = [
        // Atx-style & 4 indents
        "    ## 0.1.0\n",
        // Setext-style & 4 indents
        "    0.1.0\n    ==\n",
        // Setext-style & 4 indents
        "    0.1.0\n==\n",
        // Setext-style & 4 indents
        "    0.1.0\n--\n",
        // Setext-style & non-'=' char
        "0.1.0\n==?\n",
        // Setext-style & non-'-' char
        "0.1.0\n--?\n",
    ];
    for changelog in &changelogs {
        assert!(parse(changelog).unwrap_err().is_parse());
    }

    assert!(Parser::new().prefix_format("").is_ok());
    assert!(Parser::new().prefix_format("  ").is_ok());
    assert!(Parser::new().prefix_format("\t\n").is_ok());
    assert!(Parser::new().prefix_format(r"\/").is_ok());

    assert!(Parser::new().version_format("").unwrap_err().is_format());
    assert!(Parser::new().version_format("  ").unwrap_err().is_format());
    assert!(Parser::new().version_format("\t\n").unwrap_err().is_format());
    assert!(Parser::new().version_format(r"\/").is_ok());
}

#[test]
fn multiple_heading() {
    let changelogs = ["## 0.1.0\n## 0.1.0\n", "## 0.1.0\n## 0.1.0\n## 0.0.0\n"];
    for changelog in &changelogs {
        assert!(parse(changelog).unwrap_err().is_parse());
    }

    let changelogs = ["## 0.1.0\n##0.1.0\n", "##0.1.0\n## 0.1.0\n##0.0.0\n"];
    for changelog in &changelogs {
        assert_eq!(parse(changelog).unwrap().len(), 1);
    }
}

// Atx-style heading
#[test]
fn atx_heading() {
    for level in 1..=6 {
        let changelog = &format!("{} 0.1.0", "#".repeat(level));
        assert_eq!(1, parse(changelog).unwrap().len());
    }

    let changelog = &format!("{} 0.1.0", "#".repeat(7));
    assert!(parse(changelog).unwrap_err().is_parse());
}

#[test]
fn code_block() {
    let changelog = "\
# 0.2.0
```
# 0.2.0
```
# 0.1.0
```
# 0.1.0
```
";
    let changelog = parse(changelog).unwrap();
    assert_eq!(changelog.len(), 2);
    assert_eq!(changelog["0.2.0"].notes, "```\n# 0.2.0\n```");
    assert_eq!(changelog["0.1.0"].notes, "```\n# 0.1.0\n```");

    let changelog = "\
# 0.2.0
    # 0.2.0
# 0.1.0
    # 0.1.0
";
    let changelog = parse(changelog).unwrap();
    assert_eq!(changelog.len(), 2);
    assert_eq!(changelog["0.2.0"].notes, "    # 0.2.0");
    assert_eq!(changelog["0.1.0"].notes, "    # 0.1.0");
}

#[test]
fn comment() {
    let changelog = "\
# 0.2.0
<!--
# 0.2.0
-->
# 0.1.0
<!--
# 0.1.0
-->
";
    let changelog = parse(changelog).unwrap();
    assert_eq!(changelog.len(), 2);
    assert_eq!(changelog["0.2.0"].notes, "<!--\n# 0.2.0\n-->");
    assert_eq!(changelog["0.1.0"].notes, "<!--\n# 0.1.0\n-->");

    let changelog = "\
# 0.2.0
<!--
# 0.2.0-->
# 0.1.0
<!--
# 0.1.0-->
";
    let changelog = parse(changelog).unwrap();
    assert_eq!(changelog.len(), 2);
    assert_eq!(changelog["0.2.0"].notes, "<!--\n# 0.2.0-->");
    assert_eq!(changelog["0.1.0"].notes, "<!--\n# 0.1.0-->");

    let changelog = "\
# 0.2.0
<!--
# 0.2.0 --> <!--
# 0.2.0 -->
# 0.1.0
<!--
# 0.1.0 --> <!--
# 0.1.0 -->
# 0.0.0
";
    let changelog = parse(changelog).unwrap();
    assert_eq!(changelog.len(), 3);
    assert_eq!(changelog["0.2.0"].notes, "<!--\n# 0.2.0 --> <!--\n# 0.2.0 -->");
    assert_eq!(changelog["0.1.0"].notes, "<!--\n# 0.1.0 --> <!--\n# 0.1.0 -->");
    assert_eq!(changelog["0.0.0"].notes, "");
}

#[test]
fn link() {
    let changelog = "\
# [Version 0.5.2 2022-01-01]
# [Version 0.5.1 2022-01-01][link]
# [Version 0.5.0 2022-01-01](link)
# Version [0.4.2 2022-01-01]
# Version [0.4.1 2022-01-01][link]
# Version [0.4.0 2022-01-01](link)
# [0.3.2 2022-01-01]
# [0.3.1 2022-01-01][link]
# [0.3.0 2022-01-01](link)
# [0.2.2] 2022-01-01
# [0.2.1][link] 2022-01-01
# [0.2.0](link) 2022-01-01
# [0.1.2]
# [0.1.1][link]
# [0.1.0](link)
";
    let changelog = parse(changelog).unwrap();
    assert_eq!(changelog.len(), 15);
    assert_eq!(changelog["0.5.2"].version, "0.5.2");
    assert_eq!(changelog["0.5.2"].title, "[Version 0.5.2 2022-01-01]");
    assert_eq!(changelog["0.5.2"].title_no_link(), "Version 0.5.2 2022-01-01");
    assert_eq!(changelog["0.5.1"].version, "0.5.1");
    assert_eq!(changelog["0.5.1"].title, "[Version 0.5.1 2022-01-01][link]");
    assert_eq!(changelog["0.5.1"].title_no_link(), "Version 0.5.1 2022-01-01");
    assert_eq!(changelog["0.5.0"].version, "0.5.0");
    assert_eq!(changelog["0.5.0"].title, "[Version 0.5.0 2022-01-01](link)");
    assert_eq!(changelog["0.5.0"].title_no_link(), "Version 0.5.0 2022-01-01");
    assert_eq!(changelog["0.4.2"].version, "0.4.2");
    assert_eq!(changelog["0.4.2"].title, "Version [0.4.2 2022-01-01]");
    assert_eq!(changelog["0.4.2"].title_no_link(), "Version 0.4.2 2022-01-01");
    assert_eq!(changelog["0.4.1"].version, "0.4.1");
    assert_eq!(changelog["0.4.1"].title, "Version [0.4.1 2022-01-01][link]");
    assert_eq!(changelog["0.4.1"].title_no_link(), "Version 0.4.1 2022-01-01");
    assert_eq!(changelog["0.4.0"].version, "0.4.0");
    assert_eq!(changelog["0.4.0"].title, "Version [0.4.0 2022-01-01](link)");
    assert_eq!(changelog["0.4.0"].title_no_link(), "Version 0.4.0 2022-01-01");
    assert_eq!(changelog["0.3.2"].version, "0.3.2");
    assert_eq!(changelog["0.3.2"].title, "[0.3.2 2022-01-01]");
    assert_eq!(changelog["0.3.2"].title_no_link(), "0.3.2 2022-01-01");
    assert_eq!(changelog["0.3.1"].version, "0.3.1");
    assert_eq!(changelog["0.3.1"].title, "[0.3.1 2022-01-01][link]");
    assert_eq!(changelog["0.3.1"].title_no_link(), "0.3.1 2022-01-01");
    assert_eq!(changelog["0.3.0"].version, "0.3.0");
    assert_eq!(changelog["0.3.0"].title, "[0.3.0 2022-01-01](link)");
    assert_eq!(changelog["0.3.0"].title_no_link(), "0.3.0 2022-01-01");
    assert_eq!(changelog["0.2.2"].version, "0.2.2");
    assert_eq!(changelog["0.2.2"].title, "[0.2.2] 2022-01-01");
    assert_eq!(changelog["0.2.2"].title_no_link(), "0.2.2 2022-01-01");
    assert_eq!(changelog["0.2.1"].version, "0.2.1");
    assert_eq!(changelog["0.2.1"].title, "[0.2.1][link] 2022-01-01");
    assert_eq!(changelog["0.2.1"].title_no_link(), "0.2.1 2022-01-01");
    assert_eq!(changelog["0.2.0"].version, "0.2.0");
    assert_eq!(changelog["0.2.0"].title, "[0.2.0](link) 2022-01-01");
    assert_eq!(changelog["0.2.0"].title_no_link(), "0.2.0 2022-01-01");
    assert_eq!(changelog["0.1.2"].version, "0.1.2");
    assert_eq!(changelog["0.1.2"].title, "[0.1.2]");
    assert_eq!(changelog["0.1.2"].title_no_link(), "0.1.2");
    assert_eq!(changelog["0.1.1"].version, "0.1.1");
    assert_eq!(changelog["0.1.1"].title, "[0.1.1][link]");
    assert_eq!(changelog["0.1.1"].title_no_link(), "0.1.1");
    assert_eq!(changelog["0.1.0"].version, "0.1.0");
    assert_eq!(changelog["0.1.0"].title, "[0.1.0](link)");
    assert_eq!(changelog["0.1.0"].title_no_link(), "0.1.0");
}

// Regression tests for inputs found by fuzzing.
#[test]
fn fuzz() {
    let tests: &[(&str, Result<usize, &str>)] =
        &[("1115.8.8 '9.\n-\n\u{c}\"----\u{19}\u{1f}<!--.4\n## 444.444.4\r\r \u{b}---->", Ok(1))];
    for &(test, expected_len) in tests {
        let res = parse(test);
        match expected_len {
            Ok(expected_len) => {
                assert_eq!(res.unwrap().len(), expected_len);
            }
            Err(s) => {
                assert_eq!(res.unwrap_err().message(), s);
            }
        }
    }
}

#[test]
fn pathological_fake_heading() {
    let text = &"#".repeat(1024 * 1024 * 128);
    let now = std::time::Instant::now();
    parse(text).unwrap_err();
    println!("{:?}", now.elapsed());
}

#[test]
fn parse_is_pure() {
    let text = "\
# Changelog
## 0.2.0
Second.
## 0.1.0
First.
";
    let a = parse(text).unwrap();
    let b = parse(text).unwrap();
    assert_eq!(a, b);
    assert_eq!(a.len(), 2);
}

#[test]
fn iter_matches_parse() {
    let text = "\
## 0.3.0
Third.
## 0.2.0
Second.
## 0.1.0
First.
";
    let map = parse(text).unwrap();
    let mut it = parse_iter(text);
    let mut collected: Vec<Release> = Vec::new();
    while let Some(release) = it.next() {
        collected.push(release);
    }
    assert_eq!(collected.len(), map.len());
    for (i, release) in collected.iter().enumerate() {
        let (key, value) = map.get_index(i).unwrap();
        assert_eq!(key, &release.version);
        assert_eq!(value, release);
    }
}

#[test]
fn iter_does_not_error() {
    // Duplicate versions: the whole-document parse errors, the iterator
    // yields both entries.
    let text = "## 0.1.0\n## 0.1.0\n";
    assert!(parse(text).unwrap_err().is_parse());
    let mut it = parse_iter(text);
    let mut count = 0;
    while let Some(release) = it.next() {
        assert_eq!(release.version, "0.1.0");
        count += 1;
    }
    assert_eq!(count, 2);

    // No release heading: the whole-document parse errors, the iterator
    // yields nothing.
    let text = "# Changelog\nsome text\n";
    let err = parse(text).unwrap_err();
    assert!(err.is_parse());
    assert_eq!(err.message(), "no release note was found");
    let mut it = parse_iter(text);
    assert!(it.next().is_none());
}

#[test]
fn duplicate_error_message() {
    let err = parse("## 1.2.3\n## 1.2.3\n").unwrap_err();
    assert!(err.is_parse());
    assert!(!err.is_format());
    assert_eq!(err.message(), "multiple release notes for '1.2.3'");
}

#[test]
fn empty_document() {
    assert!(parse("").unwrap_err().is_parse());
    let mut it = parse_iter("");
    assert!(it.next().is_none());
}

#[test]
fn custom_formats() {
    // A custom prefix and a custom two-segment version format.
    let text = "\
## Cargo 1.51 (2021-03-25)
Newer.
## Cargo 1.50 (2021-02-11)
Older.
";
    let mut parser = Parser::new();
    parser.prefix_format("Cargo ").unwrap();
    parser.version_format(r"^[0-9]+\.[0-9]+(\.[0-9])?$").unwrap();
    let changelog = parser.parse(text).unwrap();
    assert_eq!(changelog.len(), 2);
    assert_eq!(changelog["1.50"].version, "1.50");
    assert_eq!(changelog["1.50"].title, "Cargo 1.50 (2021-02-11)");
    assert_eq!(trim(&changelog["1.50"].notes), "Older.");
}

#[test]
fn format_error_kinds() {
    // A pattern the engine rejects.
    let err = Parser::new().version_format(r"\\\").unwrap_err();
    assert!(err.is_format());
    assert!(!err.is_parse());
    let err = Parser::new().prefix_format(r"(").unwrap_err();
    assert!(err.is_format());
    // An empty or all-white-space version format.
    let err = Parser::new().version_format(" ").unwrap_err();
    assert!(err.is_format());
    assert_eq!(err.message(), "empty or whitespace version format");
}

#[test]
fn level_locking() {
    // The first release locks the heading level; a deeper heading folds
    // into the notes, a shallower one ends the release.
    let text = "\
# Changelog
## 0.2.0
### Fixed
a bug
# Appendix
## 0.1.0
First.
";
    let changelog = parse(text).unwrap();
    assert_eq!(changelog.len(), 2);
    assert_eq!(changelog["0.2.0"].notes, "### Fixed\na bug");
    assert_eq!(changelog["0.1.0"].notes, "First.");
}

#[test]
fn unreleased_heading() {
    // A heading that fails the version format at the locked level ends the
    // release without starting one.
    let text = "\
## 0.2.0
Second.
## unreleased
pending
## 0.1.0
First.
";
    let changelog = parse(text).unwrap();
    assert_eq!(changelog.len(), 2);
    assert_eq!(changelog["0.2.0"].notes, "Second.");
    assert_eq!(changelog["0.1.0"].notes, "First.");
}

#[test]
fn unreleased_version_token() {
    // The default version format accepts the literal token `Unreleased`.
    let text = "\
## Unreleased
pending
## 0.1.0
First.
";
    let changelog = parse(text).unwrap();
    assert_eq!(changelog.len(), 2);
    assert_eq!(changelog["Unreleased"].notes, "pending");
    assert_eq!(changelog[0].version, "Unreleased");
}

#[test]
fn blank_line_trimming() {
    // Blank lines around the notes are not part of them.
    let text = "## 0.1.0\n\n\nbody\nmore\n\n\n";
    let changelog = parse(text).unwrap();
    assert_eq!(changelog["0.1.0"].notes, "body\nmore");
}

#[test]
fn tab_after_marker() {
    // A tab may separate the heading marker from its text.
    let changelog = parse("##\t0.1.0\nbody\n").unwrap();
    assert_eq!(changelog["0.1.0"].title, "0.1.0");
    assert_eq!(changelog["0.1.0"].notes, "body");
}

#[test]
fn setext_underline_details() {
    // A single underline character suffices, and trailing white space on
    // the underline is ignored.
    let changelog = parse("0.2.0\n=\nSecond.\n0.1.0\n=   \nFirst.\n").unwrap();
    assert_eq!(changelog.len(), 2);
    assert_eq!(changelog["0.2.0"].notes, "Second.");
    assert_eq!(changelog["0.1.0"].notes, "First.");
}

#[test]
fn fence_indentation() {
    // A fence with up to three leading spaces counts; with four it is
    // plain content, so the heading inside stays visible.
    let text = "\
# 0.2.0
   ```
# fenced
   ```
# 0.1.0
    ```
# 0.0.9
";
    let changelog = parse(text).unwrap();
    assert_eq!(changelog.len(), 3);
    assert_eq!(changelog["0.2.0"].notes, "   ```\n# fenced\n   ```");
    assert_eq!(changelog["0.1.0"].notes, "    ```");
    assert_eq!(changelog["0.0.9"].notes, "");
}

#[test]
fn carriage_returns() {
    // A carriage return before the terminator is trimmed from titles and
    // from the end of the notes.
    let changelog = parse("## 0.2.0\r\nbody\r\n## 0.1.0\r\nolder\r\n").unwrap();
    assert_eq!(changelog.len(), 2);
    assert_eq!(changelog["0.2.0"].title, "0.2.0");
    assert_eq!(changelog["0.2.0"].notes, "body");
    assert_eq!(changelog["0.1.0"].notes, "older");
}

#[test]
fn six_hashes_without_text() {
    // Six hashes with no text give a heading with an empty title, which
    // yields no version; seven hashes give no heading at all.
    assert!(parse("######\n").unwrap_err().is_parse());
    assert!(parse("#######\n").unwrap_err().is_parse());
}
