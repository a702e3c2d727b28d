use agent_skills::sources::SOURCES_FILE;
use agent_skills::archiver::{archive_entry_name, is_hidden, plan_archive, ArchiveError, TAG_PREFIX};
use agent_skills::order::{sort_artifacts, str_lt};
use agent_skills::archiver::BuiltArtifact;
use agent_skills::paths::{file_name, join_path, to_forward_slashes};
use agent_skills::skill::{
    parse_skill, FrontmatterRead, Metadata, ParseError, ParsedSkill, ReadFailure, SkillFrontmatter,
};

fn skill(version: Option<&str>) -> ParsedSkill {
    ParsedSkill {
        dir_name: "markdown".into(),
        dir_path: "skills/markdown".into(),
        frontmatter: SkillFrontmatter {
            name: "markdown".into(),
            description: "lint md".into(),
            license: None,
            metadata: Some(Metadata { author: Some("X".into()), version: version.map(String::from) }),
        },
        body: String::new(),
    }
}

#[test]
fn archive_names_follow_the_tag_scheme() {
    assert_eq!(TAG_PREFIX, "agent-skills-");
    let a = plan_archive(&skill(Some("1.0.0")), "dist").unwrap();
    assert_eq!(a.name, "markdown");
    assert_eq!(a.version, "1.0.0");
    assert_eq!(a.tag, "agent-skills-markdown-v1.0.0");
    assert_eq!(a.file_name, "agent-skills-markdown-v1.0.0.zip");
    assert_eq!(a.zip_path, "dist/agent-skills-markdown-v1.0.0.zip");
    let a = plan_archive(&skill(Some("2.0.0")), "out/").unwrap();
    assert_eq!(a.zip_path, "out/agent-skills-markdown-v2.0.0.zip");
}

#[test]
fn archive_needs_a_version() {
    let err = plan_archive(&skill(None), "dist").unwrap_err();
    assert!(matches!(err, ArchiveError::MissingVersion(d) if d == "markdown"));
    let mut s = skill(Some("1.0.0"));
    s.frontmatter.metadata = None;
    assert!(matches!(plan_archive(&s, "dist"), Err(ArchiveError::MissingVersion(_))));
}

#[test]
fn hidden_entries() {
    assert!(!is_hidden(0, Some(".skill")));
    assert!(is_hidden(1, Some(".sources.json")));
    assert!(!is_hidden(2, Some("SKILL.md")));
    assert!(!is_hidden(1, None));
    assert!(!is_hidden(1, Some("")));
}

#[test]
fn archive_entry_names() {
    assert_eq!(archive_entry_name("markdown", "", true), "markdown/");
    assert_eq!(archive_entry_name("markdown", "SKILL.md", false), "markdown/SKILL.md");
    assert_eq!(archive_entry_name("markdown", "refs\\a.md", false), "markdown/refs/a.md");
    assert_eq!(archive_entry_name("markdown", "refs", true), "markdown/refs/");
}

#[test]
fn path_helpers() {
    assert_eq!(join_path("a", "b"), "a/b");
    assert_eq!(join_path("a/", "b"), "a/b");
    assert_eq!(join_path("", "b"), "b");
    assert_eq!(to_forward_slashes("a\\b\\c"), "a/b/c");
    assert_eq!(file_name("skills/markdown"), Some("markdown".to_string()));
    assert_eq!(file_name("skills/markdown/"), Some("markdown".to_string()));
    assert_eq!(file_name("foo.txt/."), Some("foo.txt".to_string()));
    assert_eq!(file_name("foo.txt/.//"), Some("foo.txt".to_string()));
    assert_eq!(file_name("foo/.."), None);
    assert_eq!(file_name("/"), None);
    assert_eq!(file_name(""), None);
    assert_eq!(file_name("."), None);
    for p in ["a/b", "a/b/", "x/./", "/tmp/y", "a/../b"] {
        let expected = std::path::Path::new(p).file_name().and_then(|s| s.to_str()).map(String::from);
        assert_eq!(file_name(p), expected, "{p}");
    }
}

fn fm() -> SkillFrontmatter {
    SkillFrontmatter {
        name: "markdown".into(),
        description: "d".into(),
        license: None,
        metadata: None,
    }
}

#[test]
fn parse_skill_outcomes() {
    let ok = parse_skill(
        "skills/markdown",
        Ok(FrontmatterRead::Split { data: Some(fm()), content: "# Body\n".into() }),
    )
    .unwrap();
    assert_eq!(ok.dir_name, "markdown");
    assert_eq!(ok.dir_path, "skills/markdown");
    assert_eq!(ok.body, "# Body\n");
    assert_eq!(ok.frontmatter.name, "markdown");

    assert!(matches!(
        parse_skill("skills/x", Err(ReadFailure::NotFound)),
        Err(ParseError::MissingSkillMd(d)) if d == "skills/x"
    ));
    assert!(matches!(
        parse_skill("skills/x", Err(ReadFailure::Other("denied".into()))),
        Err(ParseError::Io { path, source }) if path == "skills/x/SKILL.md" && source == "denied"
    ));
    assert!(matches!(
        parse_skill("skills/x", Ok(FrontmatterRead::Invalid("bad yaml".into()))),
        Err(ParseError::InvalidFrontmatter { path, .. }) if path == "skills/x/SKILL.md"
    ));
    assert!(matches!(
        parse_skill("skills/x", Ok(FrontmatterRead::Split { data: None, content: String::new() })),
        Err(ParseError::NoFrontmatter { path }) if path == "skills/x/SKILL.md"
    ));
    assert!(matches!(
        parse_skill("skills/..", Ok(FrontmatterRead::Split { data: Some(fm()), content: String::new() })),
        Err(ParseError::InvalidDirName(d)) if d == "skills/.."
    ));
}

fn art(file: &str) -> BuiltArtifact {
    BuiltArtifact {
        name: file.into(),
        version: "1".into(),
        tag: file.into(),
        file_name: file.into(),
        zip_path: file.into(),
    }
}

#[test]
fn artifacts_sort_by_file_name() {
    let sorted = sort_artifacts(vec![art("b.zip"), art("a.zip"), art("ab.zip"), art("B.zip"), art("é.zip")]);
    let names: Vec<&str> = sorted.iter().map(|a| a.file_name.as_str()).collect();
    assert_eq!(names, vec!["B.zip", "a.zip", "ab.zip", "b.zip", "é.zip"]);
    assert!(str_lt("a", "ab"));
    assert!(!str_lt("ab", "a"));
    assert!(!str_lt("a", "a"));
    assert!(str_lt("Z", "a"));
}

#[test]
fn provenance_file_is_left_out_of_archives() {
    assert!(is_hidden(1, Some(SOURCES_FILE)));
    assert!(is_hidden(3, Some(SOURCES_FILE)));
}

#[test]
fn sorting_keeps_the_order_of_equal_file_names() {
    let mut first = art("same.zip");
    first.zip_path = "one".into();
    let mut second = art("same.zip");
    second.zip_path = "two".into();
    let sorted = sort_artifacts(vec![art("z.zip"), first, art("a.zip"), second]);
    let paths: Vec<&str> = sorted.iter().map(|a| a.zip_path.as_str()).collect();
    assert_eq!(paths, vec!["a.zip", "one", "two", "z.zip"]);
}
