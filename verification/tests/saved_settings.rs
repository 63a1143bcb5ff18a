use geopq::settings::{collection_text, read_collection, load_direct_files, save_direct_files, SavedSettings};
use geopq::shots::write_screenshot;

fn list(v: &[&str]) -> Vec<String> {
    v.iter().map(|s| s.to_string()).collect()
}

fn sorted(mut v: Vec<String>) -> Vec<String> {
    v.sort();
    v
}

fn text(s: SavedSettings) -> String {
    match s {
        SavedSettings::Text(t) => t,
        SavedSettings::NotAnObject => panic!("not an object"),
    }
}

#[test]
fn standing_answers_are_read_back() {
    let saved = text(save_direct_files(None, &list(&["a.parquet|12", "b \"q\".parquet|7"])));
    assert_eq!(
        sorted(load_direct_files(Some(&saved))),
        list(&["a.parquet|12", "b \"q\".parquet|7"])
    );
}

#[test]
fn unreadable_settings_hold_no_answers() {
    assert!(load_direct_files(None).is_empty());
    assert!(load_direct_files(Some("{")).is_empty());
    assert!(load_direct_files(Some("[1]")).is_empty());
    assert!(load_direct_files(Some("{\"direct_files\": 3}")).is_empty());
    assert!(load_direct_files(Some("{\"direct_files\": [\"a\", 3]}")).is_empty());
    assert_eq!(load_direct_files(Some("{\"direct_files\": [\"a\"]}")), list(&["a"]));
    assert_eq!(load_direct_files(Some("{\"direct_files\": [\"b\", \"a\", \"b\"]}")), list(&["b", "a"]));
}

#[test]
fn other_settings_survive_a_save() {
    let saved = text(save_direct_files(
        Some("{\"theme\": \"dark\", \"n\": [1, 2.5], \"direct_files\": [\"old\"]}"),
        &list(&["new"]),
    ));
    let v: serde_json::Value = serde_json::from_str(&saved).unwrap();
    assert_eq!(v["theme"], serde_json::Value::from("dark"));
    assert_eq!(v["n"][1], serde_json::Value::from(2.5));
    assert_eq!(v["direct_files"], serde_json::Value::from(vec!["new"]));
}

#[test]
fn broken_settings_are_started_anew() {
    let saved = text(save_direct_files(Some("{{{"), &list(&["a"])));
    assert_eq!(load_direct_files(Some(&saved)), list(&["a"]));
    let saved = text(save_direct_files(Some("null"), &list(&["a"])));
    assert_eq!(load_direct_files(Some(&saved)), list(&["a"]));
}

#[test]
fn settings_that_are_no_object_are_left_alone() {
    assert!(matches!(save_direct_files(Some("[1]"), &list(&["a"])), SavedSettings::NotAnObject));
}

#[test]
fn settings_are_written_for_people() {
    assert_eq!(
        text(save_direct_files(None, &list(&["a"]))),
        "{\n  \"direct_files\": [\n    \"a\"\n  ]\n}"
    );
}

#[test]
fn a_screenshot_is_its_pixels_in_rows() {
    let px = vec![[1, 2, 3, 4], [5, 6, 7, 8]];
    assert_eq!(write_screenshot(2, 1, &px), Ok(vec![1, 2, 3, 4, 5, 6, 7, 8]));
}

#[test]
fn a_screenshot_of_the_wrong_size_is_refused() {
    let px = vec![[1, 2, 3, 4]];
    assert_eq!(write_screenshot(2, 1, &px), Err("screenshot buffer size mismatch".to_string()));
}

#[test]
fn a_collection_is_read_and_written() {
    let m = read_collection("{\"id\": \"a\", \"links\": [1, 2.5]}").unwrap();
    assert_eq!(m.len(), 2);
    let text = collection_text(&m).unwrap();
    assert!(text.starts_with("{\n  \"id\": \"a\","));
    assert_eq!(read_collection(&text).unwrap(), m);
    assert_eq!(read_collection("[]"), Err("collection.json is not an object".to_string()));
    assert_eq!(read_collection("null"), Err("collection.json is not an object".to_string()));
    assert_eq!(read_collection("{"), Err("EOF while parsing an object at line 1 column 1".to_string()));
}
