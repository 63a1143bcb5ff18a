use geopq::export::S3Dest;
use geopq::publish::{upload_text, Ending, Outcome, Phase, PublishRun, Task};

fn run(dest: bool, stac: bool) -> PublishRun {
    PublishRun {
        as_is: false,
        merge: false,
        dest: dest.then(|| S3Dest { uri: "s3://b/p/".to_string(), profile: None, endpoint: None }),
        stac,
        replace: false,
        sibling: Some("s3://b/collection.json".to_string()),
        local: "/tmp/out".to_string(),
        process: 12,
        phase: Phase::Ready,
        tree: false,
        staged: false,
    }
}

fn show(t: &Task) -> String {
    format!("{t:?}")
}

fn ending(t: Task) -> Ending {
    match t {
        Task::Finish(e) => e,
        other => panic!("{other:?}"),
    }
}

fn failed(e: &str) -> Outcome {
    Outcome::Failed(e.to_string())
}

#[test]
fn a_local_export_is_one_pass() {
    let mut r = run(false, false);
    assert!(matches!(r.begin(), Task::Optimize { staged: None }));
    assert!(r.reads_coordinates(true) && !r.reads_coordinates(false));
    let e = ending(r.step(Outcome::Made { tree: true }));
    assert!(e.failure.is_none() && !e.drop_output && !e.drop_collection && !e.drop_stage);
    assert_eq!(r.phase, Phase::Over);
    let mut r = run(false, false);
    r.begin();
    assert_eq!(ending(r.step(failed("disk full"))).failure.as_deref(), Some("disk full"));
}

#[test]
fn layers_are_merged_before_they_are_optimized() {
    let mut r = run(false, false);
    r.merge = true;
    assert_eq!(show(&r.begin()), "Merge(\"geopq_merge_12.parquet\")");
    assert_eq!(show(&r.step(Outcome::Done)), "Optimize { staged: Some(\"geopq_merge_12.parquet\") }");
    assert!(!r.reads_coordinates(true));
    assert!(ending(r.step(failed("x"))).drop_stage);
    let mut r = run(false, false);
    r.merge = true;
    r.begin();
    let e = ending(r.step(failed("no overlap")));
    assert_eq!(e.failure.as_deref(), Some("merge failed: no overlap"));
    assert!(!e.drop_stage);
}

#[test]
fn a_file_is_published_with_its_collection() {
    let mut r = run(true, true);
    r.begin();
    assert!(matches!(r.step(Outcome::Made { tree: false }), Task::WriteCollection));
    assert_eq!(show(&r.step(Outcome::Done)), "SendFile(\"s3://b/p/\")");
    assert_eq!(show(&r.step(Outcome::Done)), "Look(\"s3://b/collection.json\")");
    assert_eq!(show(&r.step(Outcome::Found("{}".to_string()))), "Join(\"{}\")");
    assert_eq!(show(&r.step(Outcome::Done)), "SendCollection(\"s3://b/collection.json\")");
    let e = ending(r.step(Outcome::Done));
    assert!(e.failure.is_none() && e.drop_output && e.drop_collection);
}

#[test]
fn a_collection_nobody_published_is_sent_as_it_is() {
    let mut r = run(true, true);
    r.phase = Phase::Finding;
    assert!(matches!(r.step(Outcome::Done), Task::SendCollection(_)));
}

#[test]
fn a_tree_is_sent_only_where_nothing_is() {
    let mut r = run(true, true);
    r.begin();
    r.step(Outcome::Made { tree: true });
    assert_eq!(show(&r.step(Outcome::Done)), "Look(\"s3://b/p/collection.json\")");
    let e = ending(r.step(Outcome::Found("{}".to_string())));
    let text = e.failure.unwrap();
    assert!(text.starts_with("optimized, but the upload failed: s3://b/p/collection.json already exists"));
    assert!(text.ends_with("(the local copy is at /tmp/out)"));
    assert!(!e.drop_output);

    let mut r = run(true, false);
    r.begin();
    assert!(matches!(r.step(Outcome::Made { tree: true }), Task::Look(_)));
    assert_eq!(show(&r.step(Outcome::Done)), "SendTree(\"s3://b/p/\")");
    assert!(ending(r.step(Outcome::Done)).drop_output);

    let mut r = run(true, false);
    r.replace = true;
    r.begin();
    assert!(matches!(r.step(Outcome::Made { tree: true }), Task::SendTree(_)));
}

#[test]
fn every_failed_upload_says_where_the_output_is() {
    let at = |phase, e: &str| {
        let mut r = run(true, true);
        r.phase = phase;
        ending(r.step(failed(e))).failure.unwrap()
    };
    let said = |e: &str| format!("optimized, but the upload failed: {e}\n(the local copy is at /tmp/out)");
    assert_eq!(at(Phase::Describing, "x"), said("STAC collection.json failed: x"));
    assert_eq!(at(Phase::Looking, "x"), said("cannot check the destination: x"));
    assert_eq!(at(Phase::SendingTree, "x"), said("x"));
    assert_eq!(at(Phase::SendingFile, "x"), said("x"));
    assert_eq!(
        at(Phase::Finding, "x"),
        said("data uploaded, but cannot check for an existing collection.json: x")
    );
    assert_eq!(at(Phase::Joining, "x"), said("data uploaded, but x"));
    assert_eq!(
        at(Phase::SendingCollection, "x"),
        said("data uploaded, but collection.json upload failed: x")
    );
    let mut r = run(true, true);
    r.sibling = None;
    r.phase = Phase::SendingFile;
    assert_eq!(
        ending(r.step(Outcome::Done)).failure.unwrap(),
        said("data uploaded, but no prefix for collection.json")
    );
}

#[test]
fn an_unchanged_upload_keeps_its_source() {
    let mut r = run(true, true);
    r.as_is = true;
    assert!(matches!(r.begin(), Task::SendFile(_)));
    assert!(matches!(r.step(Outcome::Done), Task::WriteCollection));
    assert!(matches!(r.step(Outcome::Done), Task::Look(_)));
    let e = ending(r.step(failed("403")));
    assert_eq!(
        e.failure.as_deref(),
        Some("data uploaded, but cannot check for an existing collection.json: 403")
    );
    assert!(e.drop_collection && !e.drop_output);
    let mut r = run(true, false);
    r.as_is = true;
    r.begin();
    let e = ending(r.step(Outcome::Done));
    assert!(e.failure.is_none() && !e.drop_output && !e.drop_collection);
    let mut r = run(true, true);
    r.as_is = true;
    r.begin();
    assert_eq!(ending(r.step(failed("timeout"))).failure.as_deref(), Some("timeout"));
    assert_eq!(upload_text("a.parquet", "1 MB", "3 MB"), "uploading a.parquet: 1 MB / 3 MB");
}

#[test]
fn several_layers_are_merged_and_one_is_not() {
    let new = |layers: &[u64]| {
        PublishRun::new(&layers.to_vec(), None, false, false, None, "/tmp/out".to_string(), 12)
    };
    assert!(!new(&[]).merge && !new(&[4]).merge && new(&[4, 5]).merge);
    let d = S3Dest { uri: "s3://b/p".to_string(), profile: None, endpoint: None };
    let mut r = PublishRun::unchanged(d, true, None, "/tmp/in".to_string(), 12);
    assert_eq!(show(&r.begin()), "SendFile(\"s3://b/p\")");
}
