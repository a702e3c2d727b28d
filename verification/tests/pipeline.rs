use agent_skills::archiver::BuiltArtifact;
use agent_skills::pipeline::{build_step, collect_artifacts, validate_all, BuildStep};
use agent_skills::skill::{Metadata, ParseError, ParsedSkill, SkillFrontmatter};

fn skill(dir: &str, name: &str, version: &str) -> ParsedSkill {
    ParsedSkill {
        dir_name: name.into(),
        dir_path: dir.into(),
        frontmatter: SkillFrontmatter {
            name: name.into(),
            description: "d".into(),
            license: None,
            metadata: Some(Metadata { author: Some("a".into()), version: Some(version.into()) }),
        },
        body: String::new(),
    }
}

#[test]
fn scan_sorts_outcomes() {
    let outcomes = vec![
        ("skills/a".to_string(), Ok(skill("skills/a", "a", "1.0.0"))),
        ("skills/empty".to_string(), Err(ParseError::MissingSkillMd("skills/empty".into()))),
        ("skills/bad".to_string(), Err(ParseError::NoFrontmatter { path: "skills/bad/SKILL.md".into() })),
        ("skills/b".to_string(), Ok(skill("skills/b", "b", "nope"))),
    ];
    let scan = validate_all(outcomes);
    assert_eq!(scan.valid.len(), 1);
    assert_eq!(scan.valid[0].dir_path, "skills/a");
    assert_eq!(scan.parse_errors.len(), 1);
    assert_eq!(scan.parse_errors[0].0, "skills/bad");
    assert_eq!(scan.reports.len(), 1);
    assert_eq!(scan.reports[0].dir_name, "b");
    assert!(scan.duplicates.is_empty());
    assert!(scan.had_errors);
    assert_eq!(build_step(&scan), BuildStep::Abort);
}

#[test]
fn scan_flags_name_collisions() {
    let outcomes = vec![
        ("skills/a".to_string(), Ok(skill("skills/a", "a", "1.0.0"))),
        ("plugins/p/skills/a".to_string(), Ok(skill("plugins/p/skills/a", "a", "1.0.0"))),
        ("plugins/q/skills/a".to_string(), Ok(skill("plugins/q/skills/a", "a", "2.0.0"))),
    ];
    let scan = validate_all(outcomes);
    assert_eq!(scan.valid.len(), 3);
    assert_eq!(scan.duplicates.len(), 2);
    assert_eq!(
        scan.duplicates[0],
        ("a".to_string(), "skills/a".to_string(), "plugins/p/skills/a".to_string())
    );
    assert_eq!(
        scan.duplicates[1],
        ("a".to_string(), "plugins/p/skills/a".to_string(), "plugins/q/skills/a".to_string())
    );
    assert!(scan.had_errors);
}

#[test]
fn clean_scans_decide_the_build() {
    let scan = validate_all(vec![("skills/a".to_string(), Ok(skill("skills/a", "a", "1.0.0")))]);
    assert!(!scan.had_errors);
    assert_eq!(build_step(&scan), BuildStep::Archive);
    let scan = validate_all(Vec::new());
    assert!(!scan.had_errors);
    assert_eq!(build_step(&scan), BuildStep::NothingToBuild);
}

fn art(file: &str) -> BuiltArtifact {
    BuiltArtifact {
        name: "n".into(),
        version: "1".into(),
        tag: "t".into(),
        file_name: file.into(),
        zip_path: file.into(),
    }
}

#[test]
fn collecting_archive_results() {
    let ok = collect_artifacts(vec![Ok(art("b.zip")), Ok(art("a.zip"))]).unwrap();
    assert_eq!(ok[0].file_name, "a.zip");
    assert_eq!(ok[1].file_name, "b.zip");
    let err = collect_artifacts(vec![Ok(art("a.zip")), Err("first".into()), Err("second".into())])
        .unwrap_err();
    assert_eq!(err.first, "first");
    assert_eq!(err.failures, 2);
}
