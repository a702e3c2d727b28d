use agent_skills::sources::{
    drift_from_diff, empty_report, lines_of, log_summary, pin_unchanged, record_skill, short,
    skill_display_name, skill_name_for_dir, undetermined_drift, DriftReport, LogLevel, SkillDrift, SourceDrift,
    SourceSpec,
};

fn spec() -> SourceSpec {
    SourceSpec {
        repo: "submodules/x".into(),
        synced: "abc".into(),
        paths: vec!["docs".into(), "schema".into()],
    }
}

#[test]
fn short_truncates_and_tolerates_tiny_input() {
    assert_eq!(short("0123456789"), "0123456");
    assert_eq!(short("abc"), "abc");
}

#[test]
fn short_keeps_whole_input_when_seven_bytes_split_a_character() {
    assert_eq!(short("abcdeféé"), "abcdeféé");
    assert_eq!(short("abcdeé12"), "abcdeé");
    assert_eq!(short("0123456"), "0123456");
}

#[test]
fn lines_follow_str_lines() {
    assert_eq!(lines_of("a\nb\r\nc"), vec!["a", "b", "c"]);
    assert_eq!(lines_of("a\n\nb\n"), vec!["a", "", "b"]);
    assert_eq!(lines_of(""), Vec::<String>::new());
    assert_eq!(lines_of("x\r"), vec!["x\r"]);
    let expected: Vec<String> = "p\r\nq\n\nr\r\n".lines().map(String::from).collect();
    assert_eq!(lines_of("p\r\nq\n\nr\r\n"), expected);
}

#[test]
fn drift_from_diff_output() {
    let s = spec();
    assert!(pin_unchanged(&s, "abc"));
    assert!(!pin_unchanged(&s, "abd"));
    assert!(drift_from_diff(&s, "def", "  \n").is_none());
    let d = drift_from_diff(&s, "def", "docs/a.md\ndocs/b.md\n").unwrap();
    assert_eq!(d.repo, "submodules/x");
    assert_eq!(d.synced, "abc");
    assert_eq!(d.current, "def");
    assert_eq!(d.changed, vec!["docs/a.md", "docs/b.md"]);
    assert!(d.error.is_none());
    let u = undetermined_drift(&s, "boom".into());
    assert_eq!(u.current, "");
    assert!(u.changed.is_empty());
    assert_eq!(u.error.as_deref(), Some("boom"));
}

#[test]
fn report_records_only_skills_with_entries() {
    let mut report = DriftReport { stale: false, skills: Vec::new() };
    record_skill(&mut report, "quiet".into(), "skills/quiet".into(), Vec::new());
    assert!(report.skills.is_empty());
    assert!(!report.stale);
    let s = spec();
    record_skill(&mut report, "broken".into(), "skills/broken".into(), vec![undetermined_drift(&s, "e".into())]);
    assert_eq!(report.skills.len(), 1);
    assert!(!report.stale);
    let d = drift_from_diff(&s, "def", "docs/a.md").unwrap();
    record_skill(&mut report, "demo".into(), "skills/demo".into(), vec![d]);
    assert_eq!(report.skills.len(), 2);
    assert!(report.stale);
    assert_eq!(report.skills[1].skill, "demo");
}

#[test]
fn display_name_fallbacks() {
    assert_eq!(skill_display_name(Some("a".into()), Some("b".into()), "c".into()), "a");
    assert_eq!(skill_display_name(None, Some("b".into()), "c".into()), "b");
    assert_eq!(skill_display_name(None, None, "c".into()), "c");
}

#[test]
fn summary_of_a_report() {
    let empty = DriftReport { stale: false, skills: Vec::new() };
    let lines = log_summary(&empty);
    assert_eq!(lines.len(), 1);
    assert_eq!(lines[0].level, LogLevel::Info);
    assert_eq!(lines[0].message, "all skills are in sync with their upstream sources");

    let report = DriftReport {
        stale: true,
        skills: vec![SkillDrift {
            skill: "mcp-knowledge".into(),
            dir: "plugins/ai-protocols/skills/mcp-knowledge".into(),
            sources: vec![
                SourceDrift {
                    repo: "submodules/modelcontextprotocol".into(),
                    synced: "aaaaaaaaaa".into(),
                    current: "bbbbbbb".into(),
                    changed: vec!["docs/specification/draft/schema.mdx".into()],
                    error: None,
                },
                SourceDrift {
                    repo: "submodules/other".into(),
                    synced: "c".into(),
                    current: String::new(),
                    changed: Vec::new(),
                    error: Some("missing commit".into()),
                },
            ],
        }],
    };
    let lines = log_summary(&report);
    assert_eq!(lines.len(), 2);
    assert_eq!(lines[0].level, LogLevel::Info);
    assert_eq!(lines[0].skill.as_deref(), Some("mcp-knowledge"));
    assert_eq!(lines[0].repo.as_deref(), Some("submodules/modelcontextprotocol"));
    assert_eq!(lines[0].message, "stale: aaaaaaa..bbbbbbb touched 1 file(s) under tracked paths");
    assert_eq!(lines[1].level, LogLevel::Warn);
    assert_eq!(lines[1].message, "drift undetermined: missing commit");
}

#[test]
fn built_report_keeps_its_invariant() {
    let s = spec();
    let mut report = empty_report();
    assert!(!report.stale && report.skills.is_empty());
    record_skill(&mut report, "none".into(), "skills/none".into(), Vec::new());
    record_skill(&mut report, "broken".into(), "skills/broken".into(), vec![undetermined_drift(&s, "e".into())]);
    assert!(!report.stale);
    let d = drift_from_diff(&s, "def", "docs/a.md
").unwrap();
    record_skill(
        &mut report,
        "mixed".into(),
        "skills/mixed".into(),
        vec![d, undetermined_drift(&s, "f".into())],
    );
    assert_eq!(report.skills.len(), 2);
    for skill in &report.skills {
        assert!(!skill.sources.is_empty());
        for d in &skill.sources {
            let changed = d.error.is_none() && !d.changed.is_empty();
            let undetermined = d.error.is_some() && d.changed.is_empty() && d.current.is_empty();
            assert!(changed || undetermined);
        }
    }
    let any_changed = report.skills.iter().any(|k| k.sources.iter().any(|d| !d.changed.is_empty()));
    assert_eq!(report.stale, any_changed);
    assert!(report.stale);
}

#[test]
fn skill_named_by_field_else_directory() {
    assert_eq!(skill_name_for_dir(Some("given".into()), "skills/dir"), "given");
    assert_eq!(skill_name_for_dir(None, "plugins/p/skills/dir/"), "dir");
    assert_eq!(skill_name_for_dir(None, "skills/.."), "skills/..");
    assert_eq!(skill_name_for_dir(None, "/"), "/");
}
