use geopq::attrs::{match_counts, Rows};
use geopq::joins::{
    join_file_name, match_text, match_tone, JoinAnswer, JoinDialog, JoinStep, MatchCount, MatchTone,
};
use geopq::session::{SourceInfo, ViewerApp};
use arrow::array::{ArrayRef, Int64Array, StringArray};
use arrow::record_batch::RecordBatch;
use std::collections::VecDeque;
use std::sync::Arc;

fn list(v: &[&str]) -> Vec<String> {
    v.iter().map(|s| s.to_string()).collect()
}

fn dialog() -> JoinDialog {
    let mut d = JoinDialog::open(1, Some(4), &list(&["id", "name", "pop"]));
    d.layer_key = "gid".to_string();
    d.table_key = "id".to_string();
    d
}

fn rows(cols: Vec<(&str, ArrayRef)>) -> Rows {
    Rows { batch: RecordBatch::try_from_iter(cols).unwrap() }
}

#[test]
fn a_join_needs_both_keys() {
    let mut d = JoinDialog::open(1, None, &list(&["id"]));
    assert_eq!(d.layer_id, 0);
    assert!(!d.can_probe());
    d.layer_key = "gid".to_string();
    assert!(!d.can_probe());
    d.table_key = "id".to_string();
    assert!(d.can_probe() && d.can_join(true) && !d.can_join(false));
    d.select_layer(7);
    assert!(d.layer_key.is_empty() && d.layer_id == 7 && !d.can_probe());
}

#[test]
fn joined_columns_get_names_of_their_own() {
    let mut d = dialog();
    let f = d.join_fields(&list(&["gid", "name", "name_2"]));
    assert_eq!(f.iter().map(|x| x.source.as_str()).collect::<Vec<&str>>(), vec!["name", "pop"]);
    assert_eq!(f.iter().map(|x| x.out.as_str()).collect::<Vec<&str>>(), vec!["name_3", "pop"]);
    d.fields[1].on = false;
    assert_eq!(d.join_fields(&Vec::new()).len(), 1);
}

#[test]
fn only_the_awaited_count_is_taken() {
    let mut d = dialog();
    d.begin_probe(5);
    assert!(matches!(d.on_answer(4, JoinAnswer::Counted(Some(1), Some(1))), JoinStep::Nothing));
    assert!(d.probe.is_none() && d.pending == Some(5));
    d.on_answer(5, JoinAnswer::Counted(Some(10), Some(8)));
    assert!(matches!(d.probe, Some(Ok(MatchCount { total: 10, matched: 8 }))));
    assert_eq!(d.pending, None);
    d.begin_probe(6);
    d.on_answer(6, JoinAnswer::Counted(None, Some(8)));
    assert!(matches!(&d.probe, Some(Err(e)) if e == "could not count matches"));
    d.begin_probe(7);
    d.on_answer(7, JoinAnswer::Failed("no such column".to_string()));
    assert!(matches!(&d.probe, Some(Err(e)) if e == "no such column"));
}

#[test]
fn a_join_that_fails_is_an_error() {
    let mut d = dialog();
    assert_eq!(d.begin_join(5), None);
    assert!(d.running && !d.can_join(true));
    match d.on_answer(5, JoinAnswer::Failed("disk full".to_string())) {
        JoinStep::Error(e) => assert_eq!(e, "join failed: disk full"),
        other => panic!("{other:?}"),
    }
    assert!(!d.running);
    d.replace = true;
    assert_eq!(d.begin_join(6), Some(4));
    assert!(matches!(d.on_answer(6, JoinAnswer::Written), JoinStep::Finish));
}

#[test]
fn matches_are_read_from_the_first_row() {
    let n = |v: Vec<i64>| Arc::new(Int64Array::from(v)) as ArrayRef;
    match match_counts(&rows(vec![("t", n(vec![10, 99])), ("m", n(vec![8, 99]))])) {
        Some(JoinAnswer::Counted(t, m)) => assert_eq!((t, m), (Some(10), Some(8))),
        other => panic!("{other:?}"),
    }
    let text = Arc::new(StringArray::from(vec!["x"])) as ArrayRef;
    match match_counts(&rows(vec![("t", text), ("m", n(vec![8]))])) {
        Some(JoinAnswer::Counted(t, m)) => assert_eq!((t, m), (None, Some(8))),
        other => panic!("{other:?}"),
    }
    assert!(match_counts(&rows(vec![("t", n(vec![8]))])).is_none());
    assert!(match_counts(&rows(vec![("t", n(vec![])), ("m", n(vec![]))])).is_none());
}

#[test]
fn a_count_has_its_tone() {
    let c = |total, matched| MatchCount { total, matched };
    assert_eq!(match_tone(c(10, 0)), MatchTone::Alarm);
    assert_eq!(match_tone(c(10, 9)), MatchTone::Warn);
    assert_eq!(match_tone(c(10, 10)), MatchTone::Plain);
    assert_eq!(match_text(12, 40_000), "12 of 40k features matched");
    assert_eq!(join_file_name(7, 3), "geopq_join_7_3.parquet");
}

#[test]
fn joined_rows_are_put_to_load() {
    let mut a = ViewerApp::new(Vec::new(), VecDeque::new());
    let source = |h| SourceInfo { handle: h, label: "j".to_string(), theme: None };
    a.finish_join(None, source(1));
    assert_eq!(a.queue().loading.len(), 1);
    assert!(a.queue().pending_names.is_empty());
    // A layer that is gone cannot pass anything on.
    a.finish_join(Some(9), source(2));
    assert_eq!(a.queue().loading.len(), 2);
    assert!(a.queue().pending_styles.is_empty());
}

#[test]
fn a_join_needs_a_layer() {
    let mut a = ViewerApp::new(Vec::new(), VecDeque::new());
    assert!(!a.keeps_join_open());
    assert_eq!(*a.errors(), vec!["a join needs a layer to join onto".to_string()]);
}
