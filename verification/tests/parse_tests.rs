use target_info::parse::{parse_file, strip_md_suffix, ParseError, ParsedTargetInfoFile};

fn vocabulary() -> Vec<String> {
    vec![
        "Requirements".to_string(),
        "Testing".to_string(),
        "Cross compilation".to_string(),
    ]
}

#[test]
fn no_frontmatter() {
    let name = "archlinux-unknown-linux-gnu.md"; // arch linux is an arch, right?
    let content = "";
    assert!(parse_file(name, content, &vocabulary()).is_err());
}

#[test]
fn invalid_section() {
    let name = "6502-nintendo-nes.md";
    let content = "
---
---

## Not A Real Section
";

    assert!(parse_file(name, content, &vocabulary()).is_err());
}

#[test]
fn wrong_header() {
    let name = "x86_64-known-linux-gnu.md";
    let content = "
---
---

# x86_64-known-linux-gnu
";

    assert!(parse_file(name, content, &vocabulary()).is_err());
}

#[test]
fn parse_correctly() {
    let name = "cat-unknown-linux-gnu.md";
    let content = r#"
---
tier: "1" # first-class cats
maintainers: ["who maintains the cat?"]
---
## Requirements

This target mostly just meows and doesn't do much.

## Testing

You can pet the cat and it might respond positively.

## Cross compilation

If you're on a dog system, there might be conflicts with the cat, be careful.
But it should be possible.
        "#;

    let info = parse_file(name, content, &vocabulary()).unwrap();

    assert_eq!(info.maintainers, vec!["who maintains the cat?"]);
    assert_eq!(info.pattern, name);
    assert_eq!(info.tier, Some("1".to_owned()));
    assert_eq!(
        info.sections,
        vec![
            (
                "Requirements".to_owned(),
                "This target mostly just meows and doesn't do much.".to_owned(),
            ),
            (
                "Testing".to_owned(),
                "You can pet the cat and it might respond positively.".to_owned(),
            ),
            (
                "Cross compilation".to_owned(),
                "If you're on a dog system, there might be conflicts with the cat, be careful.\nBut it should be possible.".to_owned(),
            ),
        ]
    );
}

#[test]
fn missing_frontmatter_variant() {
    let r = parse_file("a", "no delimiters here at all\n", &vocabulary());
    assert!(matches!(r, Err(ParseError::MissingFrontmatter)));
}

#[test]
fn missing_body_variant() {
    // One delimiter occurrence: the header block is the last content.
    let r = parse_file("a", "---\ntier: \"2\"\n", &vocabulary());
    assert!(matches!(r, Err(ParseError::MissingBody)));
}

#[test]
fn invalid_frontmatter_variant() {
    // `tier` must be a string, not a sequence.
    let r = parse_file("a", "---\ntier: [1, 2]\n---\n", &vocabulary());
    assert!(matches!(r, Err(ParseError::InvalidFrontmatter(_))));
}

#[test]
fn invalid_heading_variant() {
    let r = parse_file("a", "---\n---\n# Level One\n", &vocabulary());
    assert!(matches!(r, Err(ParseError::InvalidHeading)));
}

#[test]
fn unknown_section_enumerates_vocabulary() {
    let r = parse_file("a", "---\n---\n## Bogus\n", &vocabulary());
    match r {
        Err(ParseError::UnknownSection(name, allowed)) => {
            assert_eq!(name, "Bogus");
            assert_eq!(allowed, vocabulary());
        }
        other => panic!("expected an unknown-section rejection, got {:?}", other),
    }
}

#[test]
fn content_before_first_heading_variant() {
    let r = parse_file("a", "---\n---\nprose first\n## Testing\n", &vocabulary());
    assert!(matches!(r, Err(ParseError::ContentBeforeFirstHeading)));
}

#[test]
fn empty_body_is_valid() {
    // Two delimiters with nothing after: an empty body, distinct from a
    // missing one, and no headings means no sections.
    let info = parse_file("a", "---\n---\n", &vocabulary()).unwrap();
    assert_eq!(info.pattern, "a");
    assert_eq!(info.tier, None);
    assert_eq!(info.maintainers, Vec::<String>::new());
    assert_eq!(info.sections, Vec::<(String, String)>::new());
}

#[test]
fn header_fields_round_trip() {
    let content = "---\ntier: \"3\"\nmaintainers: [\"ada\", \"grace\"]\n---\n## Testing\nok\n";
    let info = parse_file("t", content, &vocabulary()).unwrap();
    assert_eq!(info.tier, Some("3".to_owned()));
    assert_eq!(info.maintainers, vec!["ada".to_owned(), "grace".to_owned()]);
    assert_eq!(info.sections, vec![("Testing".to_owned(), "ok".to_owned())]);
}

#[test]
fn unrecognized_header_fields_are_ignored() {
    let content = "---\nfootguns: 7\n---\n";
    let info = parse_file("t", content, &vocabulary()).unwrap();
    assert_eq!(info.tier, None);
    assert_eq!(info.maintainers, Vec::<String>::new());
}

#[test]
fn duplicate_sections_are_kept_separate() {
    let content = "---\n---\n## Testing\nfirst\n## Testing\nsecond\n";
    let info = parse_file("t", content, &vocabulary()).unwrap();
    assert_eq!(
        info.sections,
        vec![
            ("Testing".to_owned(), "first".to_owned()),
            ("Testing".to_owned(), "second".to_owned()),
        ]
    );
}

#[test]
fn section_bodies_trim_edges_and_keep_interior() {
    let content = "---\n---\n## Testing\n\nline one\n\nline two\n\n";
    let info = parse_file("t", content, &vocabulary()).unwrap();
    assert_eq!(
        info.sections,
        vec![("Testing".to_owned(), "line one\n\nline two".to_owned())]
    );
}

#[test]
fn carriage_returns_are_stripped_from_lines() {
    let content = "---\n---\n## Testing\r\nline\r\n";
    let info = parse_file("t", content, &vocabulary()).unwrap();
    assert_eq!(info.sections, vec![("Testing".to_owned(), "line".to_owned())]);
}

#[test]
fn body_runs_to_the_end_of_the_content() {
    // Everything after the second delimiter occurrence belongs to the body,
    // later delimiter lines included.
    let content = "---\n---\n## Testing\nabc\n---\ndef\n";
    let info = parse_file("t", content, &vocabulary()).unwrap();
    assert_eq!(
        info.sections,
        vec![("Testing".to_owned(), "abc\n---\ndef".to_owned())]
    );
}

#[test]
fn parsing_twice_agrees() {
    let content = "---\ntier: \"2\"\n---\n## Testing\nsame\n";
    let a = parse_file("t", content, &vocabulary());
    let b = parse_file("t", content, &vocabulary());
    assert_eq!(a.unwrap(), b.unwrap());
}

#[test]
fn strip_md_suffix_accepts_md_names() {
    assert_eq!(
        strip_md_suffix("cat-unknown-linux-gnu.md"),
        Some("cat-unknown-linux-gnu".to_owned())
    );
}

#[test]
fn strip_md_suffix_rejects_other_names() {
    assert_eq!(strip_md_suffix("notes.txt"), None);
    assert_eq!(strip_md_suffix("md"), None);
    assert_eq!(strip_md_suffix(""), None);
}

#[test]
fn parsed_document_is_a_plain_value() {
    let doc = ParsedTargetInfoFile {
        pattern: "p".to_owned(),
        tier: None,
        maintainers: vec![],
        sections: vec![],
    };
    let info = parse_file("p", "---\n---\n", &vocabulary()).unwrap();
    assert_eq!(info, doc);
}
