use geopq::imports::{
    converter, download_label, part_name, table_label, up_to_date, Converter, DlMsg, DlStep, Downloads,
    GpkgTable, ImportFile, ImportFormat, ImportMsg, ImportStep, Imports,
};

fn file(stem: &str) -> ImportFile {
    ImportFile { path: format!("/d/{stem}.gpkg"), stem: stem.to_string() }
}

fn table(name: &str) -> GpkgTable {
    GpkgTable { name: name.to_string(), rows: 12_345, srs_name: "WGS 84".to_string() }
}

#[test]
fn a_file_of_one_table_converts_at_once() {
    let mut i = Imports::new();
    match i.begin_import(file("a"), Some(ImportFormat::Gpkg), Ok(vec![table("t")])) {
        ImportStep::Check(n) => assert_eq!(n, "a.t.parquet"),
        other => panic!("{other:?}"),
    }
    i.start_convert();
    assert!(!i.may_close());
    let mut i = Imports::new();
    match i.begin_import(file("a"), Some(ImportFormat::GeoJson), Ok(Vec::new())) {
        ImportStep::Check(n) => assert_eq!(n, "a.parquet"),
        other => panic!("{other:?}"),
    }
}

#[test]
fn a_file_of_several_tables_waits_for_a_choice() {
    let mut i = Imports::new();
    let r = i.begin_import(file("a"), Some(ImportFormat::Gpkg), Ok(vec![table("t"), table("u")]));
    assert!(matches!(r, ImportStep::Wait));
    let s = i.state.as_ref().unwrap();
    assert!(s.error.is_none());
    assert_ne!(s.dst_for(Some(&s.tables[0])), s.dst_for(Some(&s.tables[1])));
}

#[test]
fn a_file_that_cannot_be_imported_says_why() {
    let error = |format, listed| {
        let mut i = Imports::new();
        assert!(matches!(i.begin_import(file("a"), format, listed), ImportStep::Wait));
        i.state.unwrap().error.unwrap()
    };
    assert_eq!(
        error(Some(ImportFormat::Gpkg), Ok(Vec::new())),
        "no feature tables in this GeoPackage"
    );
    assert_eq!(error(Some(ImportFormat::Gpkg), Err("locked".to_string())), "locked");
    assert_eq!(error(None, Ok(Vec::new())), "unsupported file type");
}

#[test]
fn further_files_wait_in_line() {
    let mut i = Imports::new();
    assert!(i.admit_file(file("a")).is_some());
    i.begin_import(file("a"), Some(ImportFormat::Gpkg), Ok(vec![table("t")]));
    assert!(i.admit_file(file("b")).is_none());
    assert!(i.admit_file(file("c")).is_none());
    assert_eq!(i.title("GeoPackage"), "Import GeoPackage (2 more queued)");
    assert_eq!(i.next().unwrap().stem, "b");
    assert!(i.state.is_none());
    assert_eq!(i.next().unwrap().stem, "c");
    assert!(i.next().is_none());
    assert_eq!(i.title("GeoPackage"), "Import GeoPackage");
}

#[test]
fn the_converter_reports_to_the_dialog() {
    let mut i = Imports::new();
    i.begin_import(file("a"), Some(ImportFormat::Gpkg), Ok(vec![table("t")]));
    i.start_convert();
    let s = i.state.as_mut().unwrap();
    assert_eq!(s.on_message(ImportMsg::Progress(5)), None);
    assert_eq!(s.progress, 5);
    assert_eq!(s.on_message(ImportMsg::Done("x".to_string())), Some("x".to_string()));
    assert_eq!(s.on_message(ImportMsg::Failed("bad".to_string())), None);
    assert!(!s.running && s.error.as_deref() == Some("bad"));
}

#[test]
fn a_conversion_is_current_when_it_is_newer_and_whole() {
    let magic = || Some(vec![0x50, 0x41, 0x52, 0x31]);
    assert!(up_to_date(Some(5), Some(5), magic()));
    assert!(!up_to_date(Some(4), Some(5), magic()));
    // A file may be from before 1970.
    assert!(up_to_date(Some(-4), Some(-5), magic()) && !up_to_date(Some(-5), Some(-4), magic()));
    assert!(!up_to_date(Some(6), Some(5), Some(vec![0, 0, 0, 0])));
    assert!(!up_to_date(Some(6), Some(5), Some(vec![0x50, 0x41])));
    assert!(!up_to_date(None, Some(5), magic()));
    assert!(!up_to_date(Some(6), None, magic()));
    assert!(!up_to_date(Some(6), Some(5), None));
}

#[test]
fn tables_and_files_have_their_labels() {
    assert_eq!(table_label(&table("roads")), "roads (12k rows, WGS 84)");
    assert_eq!(part_name("a.parquet"), "a.parquet.part");
    assert_eq!(converter(ImportFormat::Gpkg, true), Converter::Gpkg);
    assert_eq!(converter(ImportFormat::Gpkg, false), Converter::NoTable);
    assert_eq!(converter(ImportFormat::Shapefile, false), Converter::Shapefile);
    assert_eq!(converter(ImportFormat::GeoJson, false), Converter::GeoJson);
}

#[test]
fn downloads_end_in_an_import_or_an_error() {
    let mut d = Downloads::new();
    let a = d.begin("Parks".to_string());
    let b = d.begin("Trees".to_string());
    d.on_message(DlMsg::Progress(a, 10, Some(20)));
    assert_eq!((d.list[0].got, d.list[0].total), (10, Some(20)));
    match d.on_message(DlMsg::Done(a, "/tmp/p.gpkg".to_string())) {
        DlStep::Import(p) => assert_eq!(p, "/tmp/p.gpkg"),
        other => panic!("{other:?}"),
    }
    assert_eq!(d.list.len(), 1);
    match d.on_message(DlMsg::Failed(b, "404".to_string())) {
        DlStep::Error(e) => assert_eq!(e, "404"),
        other => panic!("{other:?}"),
    }
    assert!(d.list.is_empty());
}

#[test]
fn a_download_that_was_stopped_is_no_error() {
    let mut d = Downloads::new();
    let a = d.begin("Parks".to_string());
    d.stop(0);
    assert!(matches!(d.on_message(DlMsg::Failed(a, "cancelled".to_string())), DlStep::Nothing));
    assert_eq!(download_label("Parks", "3 MB", Some("12 MB")), "Parks — 3 MB / 12 MB");
    assert_eq!(download_label("Parks", "3 MB", None), "Parks — 3 MB");
}
