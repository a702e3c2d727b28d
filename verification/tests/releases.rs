use agent_skills::archiver::BuiltArtifact;
use agent_skills::releases::{
    github_token, plan_uploads, release_body, ExistingRelease, ReleaseIndex, UploadAction,
};

fn art(tag: &str) -> BuiltArtifact {
    BuiltArtifact {
        name: "markdown".into(),
        version: "1.0.0".into(),
        tag: tag.into(),
        file_name: format!("{tag}.zip"),
        zip_path: format!("dist/{tag}.zip"),
    }
}

#[test]
fn index_insert_replaces_and_get_reads_back() {
    let mut index = ReleaseIndex::new();
    assert_eq!(index.len(), 0);
    index.insert("t1".into(), ExistingRelease { id: 1, assets: vec![] });
    index.insert("t2".into(), ExistingRelease { id: 2, assets: vec!["t2.zip".into()] });
    index.insert("t1".into(), ExistingRelease { id: 3, assets: vec!["x".into()] });
    assert_eq!(index.len(), 2);
    assert_eq!(index.get("t1").unwrap().id, 3);
    assert_eq!(index.get("t2").unwrap().id, 2);
    assert!(index.get("t3").is_none());
}

#[test]
fn upload_plan_per_artifact() {
    let mut index = ReleaseIndex::new();
    index.insert("done".into(), ExistingRelease { id: 7, assets: vec!["done.zip".into()] });
    index.insert("orphan".into(), ExistingRelease { id: 9, assets: vec!["other.zip".into()] });
    let arts = vec![art("done"), art("orphan"), art("new")];
    let plan = plan_uploads(&index, &arts);
    assert_eq!(plan.actions, vec![UploadAction::Skip, UploadAction::UploadAsset(9), UploadAction::CreateRelease]);
    assert_eq!((plan.created, plan.asset_uploads, plan.skipped), (1, 1, 1));
}

#[test]
fn release_body_and_token() {
    assert_eq!(
        release_body(&art("agent-skills-markdown-v1.0.0")),
        "Automated release of skill `markdown` version `1.0.0`."
    );
    assert_eq!(github_token("  abc \n"), Some("abc".to_string()));
    assert_eq!(github_token(" \t "), None);
}

#[test]
fn second_run_skips_everything() {
    let mut index = ReleaseIndex::new();
    index.insert("orphan".into(), ExistingRelease { id: 9, assets: vec![] });
    let arts = vec![art("orphan"), art("new")];
    let first = plan_uploads(&index, &arts);
    assert_eq!((first.created, first.asset_uploads, first.skipped), (1, 1, 0));
    // What the first run published, as the next listing shows it.
    index.insert("orphan".into(), ExistingRelease { id: 9, assets: vec!["orphan.zip".into()] });
    index.insert("new".into(), ExistingRelease { id: 10, assets: vec!["new.zip".into()] });
    let second = plan_uploads(&index, &arts);
    assert_eq!(second.actions, vec![UploadAction::Skip, UploadAction::Skip]);
    assert_eq!((second.created, second.asset_uploads, second.skipped), (0, 0, 2));
}
