use agent_skills::skill::{Metadata, ParsedSkill, SkillFrontmatter};
use agent_skills::validator::{
    is_kebab_case, is_semver_like, find_xml_tag, validate, ValidationError,
};

fn make(
    dir: &str,
    name: &str,
    desc: &str,
    author: Option<&str>,
    version: Option<&str>,
) -> ParsedSkill {
    ParsedSkill {
        dir_name: dir.to_string(),
        dir_path: dir.to_string(),
        frontmatter: SkillFrontmatter {
            name: name.to_string(),
            description: desc.to_string(),
            license: Some("MIT".into()),
            metadata: Some(Metadata {
                author: author.map(String::from),
                version: version.map(String::from),
            }),
        },
        body: String::new(),
    }
}

#[test]
fn happy_path() {
    let s = make("markdown", "markdown", "lint md", Some("X"), Some("1.0.0"));
    assert!(validate(&s).is_ok());
}

#[test]
fn missing_author() {
    let s = make("markdown", "markdown", "lint md", None, Some("1.0.0"));
    let r = validate(&s);
    assert!(matches!(r.errors[0], ValidationError::AuthorMissing));
}

#[test]
fn missing_version() {
    let s = make("markdown", "markdown", "lint md", Some("X"), None);
    let r = validate(&s);
    assert!(matches!(r.errors[0], ValidationError::VersionMissing));
}

#[test]
fn name_dir_mismatch() {
    let s = make("markdown", "md", "lint md", Some("X"), Some("1.0.0"));
    let r = validate(&s);
    assert!(matches!(r.errors[0], ValidationError::NameMismatch { .. }));
}

#[test]
fn bad_version() {
    let s = make("markdown", "markdown", "lint md", Some("X"), Some("v1.0"));
    let r = validate(&s);
    assert!(matches!(r.errors[0], ValidationError::InvalidVersion(_)));
}

#[test]
fn two_part_version_rejected() {
    let s = make("markdown", "markdown", "lint md", Some("X"), Some("1.0"));
    let r = validate(&s);
    assert!(matches!(r.errors[0], ValidationError::InvalidVersion(_)));
}

#[test]
fn four_part_version_rejected() {
    let s = make(
        "markdown",
        "markdown",
        "lint md",
        Some("X"),
        Some("1.0.0.0"),
    );
    let r = validate(&s);
    assert!(matches!(r.errors[0], ValidationError::InvalidVersion(_)));
}

#[test]
fn version_with_leading_zero_rejected() {
    let s = make("markdown", "markdown", "lint md", Some("X"), Some("01.0.0"));
    let r = validate(&s);
    assert!(matches!(r.errors[0], ValidationError::InvalidVersion(_)));

    let s = make("markdown", "markdown", "lint md", Some("X"), Some("1.02.0"));
    let r = validate(&s);
    assert!(matches!(r.errors[0], ValidationError::InvalidVersion(_)));

    let s = make(
        "markdown",
        "markdown",
        "lint md",
        Some("X"),
        Some("1.0.003"),
    );
    let r = validate(&s);
    assert!(matches!(r.errors[0], ValidationError::InvalidVersion(_)));
}

#[test]
fn version_zero_segment_ok() {
    let s = make("markdown", "markdown", "lint md", Some("X"), Some("0.0.0"));
    assert!(validate(&s).is_ok());

    let s = make("markdown", "markdown", "lint md", Some("X"), Some("1.0.0"));
    assert!(validate(&s).is_ok());
}

#[test]
fn double_hyphen_rejected() {
    let s = make("foo--bar", "foo--bar", "x", Some("X"), Some("1.0.0"));
    let r = validate(&s);
    assert!(matches!(
        r.errors[0],
        ValidationError::NameNotKebabCase { .. }
    ));
}

#[test]
fn trailing_hyphen_rejected() {
    let s = make("foo-", "foo-", "x", Some("X"), Some("1.0.0"));
    let r = validate(&s);
    assert!(matches!(
        r.errors[0],
        ValidationError::NameNotKebabCase { .. }
    ));
}

#[test]
fn description_at_limit_ok() {
    let desc = "a".repeat(1024);
    let s = make("markdown", "markdown", &desc, Some("X"), Some("1.0.0"));
    assert!(validate(&s).is_ok());
}

#[test]
fn description_too_long() {
    let desc = "a".repeat(1025);
    let s = make("markdown", "markdown", &desc, Some("X"), Some("1.0.0"));
    let r = validate(&s);
    assert!(matches!(
        r.errors[0],
        ValidationError::DescriptionTooLong(1025)
    ));
}

#[test]
fn description_with_xml_tag_rejected() {
    let s = make(
        "markdown",
        "markdown",
        "hello <example>foo</example>",
        Some("X"),
        Some("1.0.0"),
    );
    let r = validate(&s);
    assert!(matches!(
        r.errors[0],
        ValidationError::DescriptionContainsXmlTag(_)
    ));
}

#[test]
fn description_with_self_closing_tag_rejected() {
    let s = make(
        "markdown",
        "markdown",
        "x <br/> y",
        Some("X"),
        Some("1.0.0"),
    );
    let r = validate(&s);
    assert!(matches!(
        r.errors[0],
        ValidationError::DescriptionContainsXmlTag(_)
    ));
}

#[test]
fn description_with_lt_operator_ok() {
    let s = make(
        "markdown",
        "markdown",
        "use when a < b or 1 < 2",
        Some("X"),
        Some("1.0.0"),
    );
    assert!(validate(&s).is_ok());
}

// ---- further cases ----

#[test]
fn report_keeps_dir_name_and_lists_every_violation_in_order() {
    let mut s = make("dir", "Bad Name", "  ", None, None);
    s.frontmatter.metadata = None;
    let r = validate(&s);
    assert_eq!(r.dir_name, "dir");
    assert_eq!(r.errors.len(), 4);
    assert!(matches!(&r.errors[0], ValidationError::NameNotKebabCase { name } if name == "Bad Name"));
    assert!(matches!(r.errors[1], ValidationError::DescriptionMissing));
    assert!(matches!(r.errors[2], ValidationError::AuthorMissing));
    assert!(matches!(r.errors[3], ValidationError::VersionMissing));
    assert!(!r.is_ok());
}

#[test]
fn blank_name_is_missing() {
    let s = make("x", " \t ", "d", Some("a"), Some("1.2.3"));
    let r = validate(&s);
    assert_eq!(r.errors.len(), 1);
    assert!(matches!(r.errors[0], ValidationError::NameMissing));
}

#[test]
fn long_description_with_tag_reports_both() {
    let desc = format!("{}<b>", "a".repeat(1030));
    let s = make("x", "x", &desc, Some("a"), Some("1.2.3"));
    let r = validate(&s);
    assert_eq!(r.errors.len(), 2);
    assert!(matches!(r.errors[0], ValidationError::DescriptionTooLong(1033)));
    assert!(matches!(&r.errors[1], ValidationError::DescriptionContainsXmlTag(t) if t == "<b>"));
}

#[test]
fn description_length_counts_characters_not_bytes() {
    let desc = "é".repeat(1024);
    let s = make("x", "x", &desc, Some("a"), Some("1.2.3"));
    assert!(validate(&s).is_ok());
}

#[test]
fn version_is_trimmed_before_checking() {
    let s = make("x", "x", "d", Some("a"), Some("  2.10.0 \n"));
    assert!(validate(&s).is_ok());
    let s = make("x", "x", "d", Some("a"), Some(" 2.x.0 "));
    let r = validate(&s);
    assert!(matches!(&r.errors[0], ValidationError::InvalidVersion(v) if v == "2.x.0"));
    let s = make("x", "x", "d", Some("a"), Some("   "));
    let r = validate(&s);
    assert!(matches!(r.errors[0], ValidationError::VersionMissing));
}

#[test]
fn blank_author_is_missing() {
    let s = make("x", "x", "d", Some("  "), Some("1.0.0"));
    let r = validate(&s);
    assert_eq!(r.errors.len(), 1);
    assert!(matches!(r.errors[0], ValidationError::AuthorMissing));
}

#[test]
fn kebab_case_rules() {
    assert!(is_kebab_case("a-b-c1"));
    assert!(is_kebab_case("abc"));
    assert!(!is_kebab_case(""));
    assert!(!is_kebab_case("-a"));
    assert!(!is_kebab_case("a_b"));
    assert!(!is_kebab_case("Ab"));
}

#[test]
fn semver_like_rules() {
    assert!(is_semver_like("0.0.0"));
    assert!(is_semver_like("10.200.3000"));
    assert!(!is_semver_like("1.0."));
    assert!(!is_semver_like("1..0"));
    assert!(!is_semver_like("00.1.1"));
    assert!(!is_semver_like("1.0.0-beta"));
}

#[test]
fn xml_tag_search() {
    assert_eq!(find_xml_tag("a </x> b <y>"), Some("</x>".to_string()));
    assert_eq!(find_xml_tag("a < b > c"), None);
    assert_eq!(find_xml_tag("<a"), None);
    assert_eq!(find_xml_tag("1<2 then <Tag attr=1> end"), Some("<Tag attr=1>".to_string()));
    assert_eq!(find_xml_tag("<ab <cd>"), Some("<ab <cd>".to_string()));
}

#[test]
fn report_text_and_messages() {
    let s = make("markdown", "markdown", "lint md", Some("X"), Some("1.0.0"));
    assert_eq!(validate(&s).describe(), "markdown: OK");
    let s = make("dir", "md", "d", None, Some("1.0"));
    let r = validate(&s);
    assert_eq!(
        r.describe(),
        "dir: 3 error(s)\n  - name \"md\" does not match directory name \"dir\"\n  - metadata.author is required but missing\n  - metadata.version \"1.0\" is not a valid semver-like version (expected MAJOR.MINOR.PATCH, digits only, no leading zeros)\n"
    );
    assert_eq!(
        ValidationError::DescriptionTooLong(2000).message(),
        "description is too long (2000 chars, max 1024)"
    );
    assert_eq!(
        ValidationError::DescriptionContainsXmlTag("<a>".into()).message(),
        "description must not contain XML tags (found \"<a>\")"
    );
}
