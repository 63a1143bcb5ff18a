use geopq::tables::{
    table_summary, unplaced_note, AttrImport, ColType, ColumnPreview, Delivery, GeometryPlan, ImportNote,
    Nulled, PlanColumn, Sampled, SaveCopy, Tables,
};

fn list(v: &[&str]) -> Vec<String> {
    v.iter().map(|s| s.to_string()).collect()
}

fn column(name: &str, ty: ColType) -> PlanColumn {
    PlanColumn { source_name: name.to_string(), name: name.to_string(), ty, chosen: true }
}

fn preview(bad: usize) -> ColumnPreview {
    ColumnPreview { inferred: ColType::Integer, samples: Vec::new(), bad, bad_examples: Vec::new() }
}

fn import() -> AttrImport {
    AttrImport {
        source: 4,
        label: "a.csv".to_string(),
        name: "a".to_string(),
        columns: vec![
            column("id", ColType::Integer),
            column("name", ColType::Other(1)),
            column("lon", ColType::Float),
        ],
        previews: vec![preview(0), preview(2), preview(1)],
        sampled: false,
        sampled_rows: 0,
        typed_source: false,
        delimiter: b',',
        has_header: true,
        numbers: 0,
        geometry: GeometryPlan::Table,
        reread: false,
    }
}

#[test]
fn one_table_is_read_at_a_time() {
    let mut t = Tables::new();
    assert!(t.open_attr_table_named("a.csv").is_ok());
    assert_eq!(t.busy.as_deref(), Some("reading a.csv"));
    assert_eq!(
        t.open_attr_table_named("b.csv"),
        Err("another table is still being read".to_string())
    );
    assert_eq!(t.on_inspected("a.csv", Ok(import())), Ok(true));
    assert!(t.busy.is_none() && t.import.is_some());
    assert_eq!(
        t.on_inspected("b.csv", Err("empty".to_string())),
        Err("b.csv: empty".to_string())
    );
}

#[test]
fn sample_values_go_to_the_file_they_are_of() {
    let mut t = Tables::new();
    t.import = Some(import());
    let s = |n: usize| Sampled {
        previews: (0..n).map(|_| preview(0)).collect(),
        rows: 50,
        points: Some(GeometryPlan::Points { x: "lon".to_string(), y: "lat".to_string(), epsg: 4326 }),
    };
    assert_eq!(t.on_sampled("b.csv", Ok(s(3))), None);
    assert!(!t.import.as_ref().unwrap().sampled);
    assert_eq!(t.on_sampled("b.csv", Err("x".to_string())), None);
    assert_eq!(t.on_sampled("a.csv", Ok(s(2))), None);
    assert!(!t.import.as_ref().unwrap().sampled);
    assert_eq!(t.on_sampled("a.csv", Ok(s(3))), None);
    let i = t.import.as_ref().unwrap();
    assert!(i.sampled && i.sampled_rows == 50 && matches!(i.geometry, GeometryPlan::Points { .. }));
    assert_eq!(
        t.on_sampled("a.csv", Err("x".to_string())),
        Some("could not read sample values: x".to_string())
    );
}

#[test]
fn an_import_is_delivered_as_a_table_or_as_points() {
    let mut t = Tables::new();
    t.import = Some(import());
    let i = t.begin_import().unwrap();
    assert_eq!(t.busy.as_deref(), Some("importing a"));
    assert!(t.begin_import().is_none());
    match t.deliver("a", i.geometry, None, 12) {
        Ok(Delivery::Table { file }) => assert_eq!(file, "geopq_table_12_1.parquet"),
        other => panic!("{other:?}"),
    }
    assert!(t.busy.is_none());
    let p = GeometryPlan::Points { x: "lon".to_string(), y: "lat".to_string(), epsg: 2056 };
    match t.deliver("a", p, None, 12) {
        Ok(Delivery::Points { file, x, epsg, .. }) => {
            assert_eq!((file.as_str(), x.as_str(), epsg), ("geopq_points_12_2.parquet", "lon", 2056))
        }
        other => panic!("{other:?}"),
    }
}

#[test]
fn lost_values_are_reported() {
    let mut t = Tables::new();
    let nulled = vec![
        Nulled { column: "n".to_string(), count: 1 },
        Nulled { column: "m".to_string(), count: 3 },
    ];
    let errors = t.add_table("a".to_string(), list(&["n"]), 5, 9, Err("full".to_string()), &nulled);
    assert_eq!(
        errors,
        list(&[
            "a: could not write the imported copy: full",
            "a: 1 value in n did not fit its type and became NULL",
            "a: 3 values in m did not fit its type and became NULL",
        ])
    );
    assert_eq!(t.tables[0].copy, None);
    match t.save_table_copy(0) {
        SaveCopy::Error(e) => assert_eq!(e, "a: there is no imported copy to save"),
        other => panic!("{other:?}"),
    }
    let none = t.add_table("b".to_string(), list(&["n"]), 5, 9, Ok("/tmp/b".to_string()), &Vec::new());
    assert!(none.is_empty());
    match t.save_table_copy(1) {
        SaveCopy::Copy { from, name } => assert_eq!((from.as_str(), name.as_str()), ("/tmp/b", "b")),
        other => panic!("{other:?}"),
    }
    assert!(matches!(t.save_table_copy(7), SaveCopy::Nothing));
    t.close(0);
    assert_eq!((t.find(0), t.find(1)), (None, Some(0)));
}

#[test]
fn rows_without_coordinates_are_counted() {
    assert_eq!(unplaced_note("a", 5, 5), None);
    assert!(unplaced_note("a", 12_345, 12_000).unwrap().starts_with("a: 345 of 12k"));
    assert_eq!(table_summary(12_345, 7, "3 MB"), "12k rows · 7 cols · 3 MB");
}

#[test]
fn the_header_tick_takes_all_or_nothing() {
    let mut i = import();
    assert!(i.all_on());
    i.toggle_all();
    assert!(!i.any_on() && !i.can_import());
    assert!(matches!(i.note(), ImportNote::NothingSelected));
    i.columns[0].chosen = true;
    i.toggle_all();
    assert!(i.all_on());
}

#[test]
fn changed_reading_options_are_worked_out_again() {
    let mut i = import();
    i.set_delimiter(b',');
    assert!(!i.reread);
    i.set_delimiter(b';');
    assert!(i.reread && i.delimiter == b';');
    let mut i = import();
    i.set_header(true);
    assert!(i.reread);
    assert!(i.set_numbers(2) && !i.set_numbers(2));
}

#[test]
fn points_are_made_of_two_numeric_columns() {
    let mut i = import();
    assert_eq!(i.numeric(), list(&["id", "lon"]));
    assert_eq!(i.button(), "Import");
    i.pick_points();
    assert_eq!(i.button(), "Import as layer");
    match &i.geometry {
        GeometryPlan::Points { x, y, epsg } => assert_eq!((x.as_str(), y.as_str(), *epsg), ("id", "lon", 4326)),
        other => panic!("{other:?}"),
    }
    assert!(i.can_import());
    i.columns[2].chosen = false;
    assert!(!i.can_import());
    assert!(matches!(i.note(), ImportNote::CoordinatesLeftOut));
    i.pick_table();
    assert!(i.can_import());
    match i.note() {
        ImportNote::Losing(t) => assert_eq!(t, "2 sampled values will become NULL"),
        other => panic!("{other:?}"),
    }
    i.columns[1].chosen = false;
    assert!(matches!(i.note(), ImportNote::Quiet));
    let mut i = import();
    i.geometry = GeometryPlan::Points { x: "id".to_string(), y: "lon".to_string(), epsg: 0 };
    assert!(!i.can_import());
    assert_eq!(i.button(), "Import");
}

#[test]
fn the_dialog_says_what_it_has_read() {
    let mut i = import();
    assert_eq!(i.header(), "3 columns from the file's footer — reading values…");
    i.sampled = true;
    i.sampled_rows = 12_345;
    assert_eq!(i.header(), "3 columns, 12k rows sampled");
}

#[test]
fn a_file_is_looked_into_again_when_asked() {
    let mut i = import();
    assert!(!i.take_reread());
    i.set_delimiter(b';');
    assert!(i.take_reread() && !i.take_reread());
    let mut fresh = import();
    fresh.name = "other".to_string();
    fresh.columns.truncate(1);
    fresh.delimiter = b'|';
    i.reinspected(fresh);
    assert_eq!((i.columns.len(), i.name.as_str(), i.delimiter), (1, "a", b'|'));
}

#[test]
fn columns_say_what_is_wrong_with_them() {
    let mut i = import();
    assert!(!i.retyped(0) && i.retyped(1));
    i.columns[0].ty = ColType::Float;
    assert!(i.retyped(0));
    let mut p = preview(2);
    p.bad_examples = list(&["x", "y"]);
    assert_eq!(p.bad_note(), Some("2 won't parse: x, y".to_string()));
    assert_eq!(preview(0).bad_note(), None);
}

#[test]
fn points_on_an_unknown_grid_are_not_written() {
    let mut t = Tables::new();
    t.busy = Some("importing a".to_string());
    let points = |epsg: u32| GeometryPlan::Points { x: "lon".to_string(), y: "lat".to_string(), epsg };
    match t.deliver("a", points(99), Some("no such code".to_string()), 12) {
        Err(e) => assert_eq!(e, "a: EPSG:99 — no such code"),
        other => panic!("{other:?}"),
    }
    assert!(t.busy.is_none() && t.next_file == 0);
    match t.deliver("a", points(2056), None, 12) {
        Ok(Delivery::Points { file, .. }) => assert_eq!(file, "geopq_points_12_1.parquet"),
        other => panic!("{other:?}"),
    }
}

#[test]
fn a_failed_import_says_so() {
    let mut t = Tables::new();
    t.busy = Some("importing a".to_string());
    assert_eq!(t.import_failed("a", "no such column"), "a: no such column");
    assert!(t.busy.is_none());
}

#[test]
fn saved_tables_are_read_one_after_the_other() {
    let mut t = Tables::new();
    t.queue_table(4, "a".to_string());
    t.queue_table(5, "b".to_string());
    let first = t.next_queued().unwrap();
    assert_eq!((first.source, first.name.as_str()), (4, "a"));
    assert_eq!(t.busy.as_deref(), Some("reading a"));
    assert!(t.next_queued().is_none());
    assert_eq!(t.on_inspected("a", Ok(import())), Ok(true));
    // Its dialog waits for an answer.
    assert!(t.next_queued().is_none());
    t.cancel_import();
    assert_eq!(t.next_queued().unwrap().name, "b");
    assert!(t.on_inspected("b", Err("gone".to_string())).is_err());
    assert!(t.next_queued().is_none());
    t.queue_table(6, "c".to_string());
    t.clear();
    assert!(t.next_queued().is_none());
}
