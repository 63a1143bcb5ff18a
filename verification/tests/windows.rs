use geopq::attrs::{
    attr_columns, attr_lines, attr_rows, attrs_capped, capped_note, feature_title, geom_summary,
    measure_hint, measure_text, GeomType, Measured, Rows,
};
use geopq::context::{
    clamp_opacity, keeps_projection_name, load_failed, save_failed, save_tables, SavedLayer,
    SavedTable, SavedView,
};
use geopq::dialogs::{
    epsg_code, graticule_latlon, open_url, opens_as_table, parse_number, poll_svg_export,
    reset_question, route_dropped, url_valid, DropAction, FileDialog, LonLat, PickAction, PickAnswer,
    PickFor, SvgWait, UrlAction,
};
use geopq::info::{
    column_type, copyright_line, fetched, fetched_note, file_rows, geo_rows, load_label, network_hover,
    network_line, readiness, status_color, tiles_note, Clustering, FileFacts, GateFacts, GeoFacts,
    InfoRow, Status, Traffic,
};
use geopq::layers::{all_full, GeomKind, Layer, LayerFilter};
use geopq::loader::LoadMsg;
use geopq::session::{CameraPose, Capped, SourceInfo, Stage, ViewerApp, STRIP_FRAMES};
use geopq::tables::Tables;
use arrow::array::{ArrayRef, Float64Array, Int32Array, StringArray, TimestampSecondArray};
use arrow::record_batch::RecordBatch;
use std::collections::VecDeque;
use std::sync::Arc;

fn list(v: &[&str]) -> Vec<String> {
    v.iter().map(|s| s.to_string()).collect()
}

fn app() -> ViewerApp {
    let mut a = ViewerApp::new(Vec::new(), VecDeque::new());
    a.take_effects();
    a
}

fn arrive(a: &mut ViewerApp, layers: Vec<Layer>) {
    for layer in layers {
        let job = a.enqueue_load(source(layer.id));
        let m = LoadMsg::Loaded { job, layer, geometry: job, adopt: None };
        a.poll_loader(vec![m].into_iter().collect());
    }
}

fn layer(id: u64, features: usize) -> Layer {
    Layer {
        id,
        name: format!("layer {id}"),
        kind: GeomKind::Polygon,
        direct: false,
        visible: true,
        box_layer: false,
        show_boxes: false,
        collection: false,
        generation: 0,
        draw_gen: 0,
        sections: 1,
        loaded: all_full(1),
        starts: vec![0, 10],
        boxes: Some(1),
        feature_count: features,
        filter: None,
        build_ms: 0,
        bad_geoms: 0,
        files: 1,
        style: 40 + id,
        credit: None,
    }
}

fn source(handle: u64) -> SourceInfo {
    SourceInfo { handle, label: "s".to_string(), theme: None }
}

// --- dialogs --------------------------------------------------------------------------------

#[test]
fn one_file_dialog_is_open_at_a_time() {
    let mut d = FileDialog::new();
    assert!(d.spawn_pick(PickFor::OpenFiles));
    assert!(!d.spawn_pick(PickFor::SaveContext));
    assert!(matches!(d.poll_pick(PickAnswer::Waiting), PickAction::Nothing));
    assert!(!d.spawn_pick(PickFor::SaveContext));
    match d.poll_pick(PickAnswer::Paths(list(&["a", "b"]))) {
        PickAction::OpenFiles(p) => assert_eq!(p, list(&["a", "b"])),
        other => panic!("{other:?}"),
    }
    assert!(d.spawn_pick(PickFor::SaveTable(7)));
    match d.poll_pick(PickAnswer::Paths(list(&["x.parquet"]))) {
        PickAction::SaveTable(id, p) => assert_eq!((id, p.as_str()), (7, "x.parquet")),
        other => panic!("{other:?}"),
    }
}

#[test]
fn a_dialog_that_was_cancelled_or_died_can_be_opened_again() {
    let mut d = FileDialog::new();
    assert!(d.spawn_pick(PickFor::Screenshot(1)));
    assert!(matches!(d.poll_pick(PickAnswer::Gone), PickAction::Nothing));
    assert!(d.spawn_pick(PickFor::OptimizeFolder));
    assert!(matches!(d.poll_pick(PickAnswer::Paths(Vec::new())), PickAction::Nothing));
    assert!(d.open.is_none());
    assert!(matches!(d.poll_pick(PickAnswer::Paths(list(&["late"]))), PickAction::Nothing));
}

#[test]
fn every_dialog_answer_finds_its_way() {
    let answer = |what| {
        let mut d = FileDialog::new();
        d.spawn_pick(what);
        format!("{:?}", d.poll_pick(PickAnswer::Paths(list(&["p"]))))
    };
    assert_eq!(answer(PickFor::OpenFolder), "OpenFolder(\"p\")");
    assert_eq!(answer(PickFor::ImportVector), "Import(\"p\")");
    assert_eq!(answer(PickFor::AttributeTable), "OpenTables([\"p\"])");
    assert_eq!(answer(PickFor::LoadContext), "LoadContext(\"p\")");
    assert_eq!(answer(PickFor::SaveContext), "SaveContext(\"p\")");
    assert_eq!(answer(PickFor::ColorMap), "ColorMap(\"p\")");
    assert_eq!(answer(PickFor::OptimizeFile), "Optimize(\"p\")");
    assert_eq!(answer(PickFor::OptimizeFolder), "OptimizeInto(\"p\")");
    assert_eq!(answer(PickFor::Screenshot(3)), "SaveScreenshot(3, \"p\")");
    assert_eq!(answer(PickFor::ExportSvg(4)), "SaveSvg(4, \"p\")");
}

#[test]
fn a_drawing_is_not_lost_to_an_open_dialog() {
    assert_eq!(poll_svg_export(true, true, false), SvgWait::Leave);
    assert_eq!(poll_svg_export(false, true, false), SvgWait::Take);
    assert_eq!(poll_svg_export(false, false, true), SvgWait::Drop);
    assert_eq!(poll_svg_export(false, false, false), SvgWait::Leave);
}

#[test]
fn an_address_leads_to_a_portal_or_a_file() {
    assert!(url_valid("http://x") && url_valid("https://x") && url_valid("s3://b/k"));
    assert!(!url_valid("ftp://x") && !url_valid(""));
    match open_url(" https://city.gov/data.json// ", "") {
        UrlAction::Portal(u) => assert_eq!(u, "https://city.gov/data.json//"),
        other => panic!("{other:?}"),
    }
    match open_url("s3://b/k.parquet", " https://minio ") {
        UrlAction::Open { endpoint } => assert_eq!(endpoint.as_deref(), Some("https://minio")),
        other => panic!("{other:?}"),
    }
    assert!(matches!(open_url("https://x/a", "  "), UrlAction::Open { endpoint: None }));
    assert!(opens_as_table(false, true, false) && opens_as_table(false, false, true));
    assert!(!opens_as_table(true, true, true) && !opens_as_table(false, false, false));
}

#[test]
fn dropped_files_are_routed_by_what_they_are() {
    assert_eq!(route_dropped(true, true, true), DropAction::Folder);
    assert_eq!(route_dropped(false, true, true), DropAction::Import);
    assert_eq!(route_dropped(false, false, true), DropAction::Table);
    assert_eq!(route_dropped(false, false, false), DropAction::File);
}

#[test]
fn an_epsg_code_is_a_whole_number() {
    assert_eq!(epsg_code(" 4326 "), Ok(4326));
    assert_eq!(epsg_code("+2056"), Ok(2056));
    assert_eq!(epsg_code("0004326"), Ok(4326));
    for bad in ["", "+", "-1", "4326.0", "EPSG:4326", "4294967296", "99999999999999999999", "++1", "1 2"] {
        assert_eq!(epsg_code(bad), Err("invalid EPSG code".to_string()), "{bad}");
        assert_eq!(bad.trim().parse::<u32>().ok(), None);
    }
    assert_eq!(parse_number("4294967295"), Some(u32::MAX));
}

#[test]
fn a_projection_chosen_by_hand_is_not_automatic() {
    let mut a = app();
    a.choose_projection(Some(5), false);
    assert_eq!((a.cam().display, a.cam().auto_projection), (5, false));
    a.choose_projection(None, false);
    assert!(!a.cam().auto_projection);
    a.choose_projection(None, true);
    assert_eq!((a.cam().display, a.cam().auto_projection), (5, true));
}

#[test]
fn starting_over_is_asked_about() {
    assert_eq!(
        reset_question(1, 0),
        "Close 1 layer and return to the default projection, camera and view settings."
    );
    assert!(reset_question(2, 3).starts_with("Close 5 layers and"));
    let mut a = app();
    assert!(!a.can_reset());
    a.choose_projection(Some(5), false);
    assert!(a.can_reset());
}

#[test]
fn problems_are_shown_while_there_are_any() {
    let mut a = app();
    assert!(!a.errors_shown());
    a.push_error("e".to_string());
    assert!(a.errors_shown());
    a.close_errors(false, false);
    assert!(!a.errors_shown() && a.errors().len() == 1);
    a.toggle_errors();
    a.close_errors(true, true);
    assert!(!a.errors_shown() && a.errors().is_empty());
}

#[test]
fn frames_keep_coming_while_something_is_under_way() {
    let mut a = app();
    assert!(!a.keeps_painting(false) && a.keeps_painting(true));
    a.enqueue_load(source(1));
    assert!(a.keeps_painting(false));
    assert!(!a.owe_frame());
    a.poll_loader(vec![LoadMsg::Progress { job: 0, frac_bits: 0, stage: String::new() }].into_iter().collect());
    for _ in 0..STRIP_FRAMES {
        assert!(a.owe_frame());
    }
    assert!(!a.owe_frame());
}

#[test]
fn the_graticule_has_meridians_and_parallels() {
    for (mercator, max) in [(true, 85), (false, 90)] {
        let g = graticule_latlon(mercator);
        assert_eq!(g.len(), 36);
        for (k, line) in g[..25].iter().enumerate() {
            assert_eq!(line.len(), max as usize + 1);
            assert_eq!(line[0], LonLat { lon: 15 * k as i32 - 180, lat: -max });
            assert_eq!(line[max as usize].lat, max);
        }
        for (k, line) in g[25..].iter().enumerate() {
            assert_eq!(line.len(), 181);
            assert_eq!(line[0], LonLat { lon: -180, lat: 15 * k as i32 - 75 });
            assert_eq!(line[180].lon, 180);
        }
    }
}

// --- saved sessions -----------------------------------------------------------------------------

#[test]
fn a_saved_session_comes_back() {
    let mut a = app();
    let mut v = a.settings();
    v.show_graticule = false;
    v.basemap = Some(3);
    v.refine_budget_mb = 99;
    a.change_settings(v);
    let mut second = layer(1, 6);
    second.filter = Some(LayerFilter { sql: "pop > 3".to_string(), matched: 1 });
    arrive(&mut a, vec![layer(0, 5), second]);
    let camera = CameraPose { x: 1.5f64.to_bits(), y: (-2.0f64).to_bits(), zoom: 6.25f64.to_bits() };
    let view = a.save_view(camera);
    let notes = a.save_layers();
    assert_eq!(notes.len(), 2);
    assert_eq!((notes[1].name.as_str(), notes[1].filter.as_deref(), notes[1].style),
        ("layer 1", Some("pop > 3"), 41));

    let mut b = app();
    arrive(&mut b, vec![layer(7, 1)]);
    let old = b.enqueue_load(source(9));
    b.push_error("kept".to_string());
    let flag = b.queue().loading[&old].flag;
    let layers: VecDeque<SavedLayer> = notes
        .into_iter()
        .map(|n| {
            let id = n.layer_id;
            n.restorable(source(id))
        })
        .collect();
    let tables = [(20, "a"), (21, "b")]
        .into_iter()
        .map(|(source, n)| SavedTable { source, name: n.to_string() })
        .collect();
    b.take_effects();
    b.restore(12, view, tables, layers);
    assert!(b.layers().is_empty() && b.is_stopped(flag));
    assert_eq!(b.save_view(camera), view);
    assert_eq!((b.cam().display, b.cam().auto_projection, b.cam().pending_fit), (12, false, false));
    assert!(b.cam().camera_moved);
    assert_eq!(b.settings().last_basemap, 3);
    let jobs: Vec<u64> = vec![old + 1, old + 2];
    assert_eq!(b.queue().pending_styles[&jobs[0]], 40);
    assert_eq!(b.queue().pending_styles[&jobs[1]], 41);
    assert_eq!(b.queue().pending_names[&jobs[0]], "layer 0");
    assert_eq!(b.queue().pending_filters.get(&jobs[0]), None);
    assert_eq!(b.queue().pending_filters[&jobs[1]], "pop > 3");
    let effects: Vec<String> = b.take_effects().iter().map(|e| format!("{e:?}")).collect();
    assert!(effects.contains(&"DropTables".to_string()));
    assert!(effects.contains(&"OpenTable { source: 21, name: Some(\"b\") }".to_string()));
    assert!(effects.contains(&format!("PlaceCamera {{ camera: {camera:?} }}")));
    let loads: Vec<&String> = effects.iter().filter(|e| e.starts_with("SpawnLoad")).collect();
    assert_eq!(loads.len(), 2);
    assert!(loads[0].contains("source: 0") && loads[1].contains("source: 1"));
}

#[test]
fn an_older_saved_session_leaves_what_it_lacks() {
    let mut a = app();
    let mut v = a.settings();
    v.box_threshold_px = 5;
    v.basemap_opacity = 7;
    a.change_settings(v);
    let v = SavedView {
        camera: CameraPose { x: 0, y: 0, zoom: 0 },
        basemap: None,
        basemap_opacity: None,
        show_graticule: true,
        show_coastline: false,
        box_threshold_px: None,
        refine_budget_mb: None,
    };
    a.restore(0, v, VecDeque::new(), VecDeque::new());
    assert_eq!((a.settings().box_threshold_px, a.settings().refine_budget_mb), (5, 512));
    assert_eq!(f32::from_bits(a.settings().basemap_opacity), 1.0);
    assert_eq!((a.settings().basemap, a.settings().last_basemap), (None, 0));
}

#[test]
fn an_opacity_is_held_between_none_and_full() {
    for v in [-1.0f32, -0.0, 0.0, 1e-40, 0.25, 1.0, 1.0000001, 7.5, f32::INFINITY, f32::NEG_INFINITY, f32::MIN] {
        assert_eq!(clamp_opacity(v.to_bits()), v.clamp(0.0, 1.0).to_bits(), "{v}");
    }
    assert!(f32::from_bits(clamp_opacity(f32::NAN.to_bits())).is_nan());
    assert!(keeps_projection_name("proj4:+proj=laea") && !keeps_projection_name("epsg:3857"));
    assert_eq!(load_failed("x"), "context load failed: x");
    assert_eq!(save_failed("x"), "context save failed: x");
}

// --- attributes -----------------------------------------------------------------------------------

#[test]
fn very_wide_tables_are_fetched_in_part() {
    assert_eq!(attr_columns(256, 3), None);
    let c = attr_columns(300, 3).unwrap();
    assert_eq!((c.len(), c[0], c[255]), (256, 0, 255));
    let c = attr_columns(300, 280).unwrap();
    assert_eq!((c.len(), c[256]), (257, 280));
    let capped = attrs_capped(&Some(c), 300, true).unwrap();
    assert_eq!(capped, Capped { shown: 257, total: 300 });
    assert_eq!(capped_note(capped), "showing 257 of 300 columns");
    assert_eq!(attrs_capped(&Some(vec![1]), 300, false), None);
    assert_eq!(attrs_capped(&None, 30, true), None);
}

#[test]
fn the_attributes_of_a_feature_are_listed() {
    let cols: Vec<(&str, ArrayRef)> = vec![
        ("name", Arc::new(StringArray::from(vec!["Bern"]))),
        ("geometry", Arc::new(StringArray::from(vec!["POINT"]))),
        ("pop", Arc::new(Int32Array::from(vec![None::<i32>]))),
        ("wkb", Arc::new(StringArray::from(vec!["x"]))),
        ("rate", Arc::new(Float64Array::from(vec![2.5]))),
    ];
    let b = Rows { batch: RecordBatch::try_from_iter_with_nullable(
        cols.into_iter().map(|(n, a)| (n, a, true))).unwrap() };
    let rows = attr_rows(&b, &Some("wkb".to_string()), "geometry", "Point · 1 vertices").unwrap();
    let shown: Vec<(&str, &str, bool)> =
        rows.iter().map(|r| (r.name.as_str(), r.text.as_str(), r.geometry)).collect();
    assert_eq!(
        shown,
        vec![
            ("name", "Bern", false),
            ("geometry", "Point · 1 vertices", true),
            ("pop", "", false),
            ("rate", "2.5", false),
        ]
    );
    let empty: Vec<(&str, ArrayRef)> =
        vec![("a", Arc::new(Int32Array::from(Vec::<i32>::new())) as ArrayRef)];
    assert!(attr_rows(&Rows { batch: RecordBatch::try_from_iter(empty).unwrap() }, &None, "g", "").is_none());
}

#[test]
fn a_value_without_a_text_form_is_marked() {
    let rows = attr_lines(
        &list(&["a", "g"]),
        &vec![None, Some("x".to_string())],
        &None,
        "g",
        "<invalid>",
    );
    assert_eq!((rows[0].text.as_str(), rows[1].text.as_str()), ("<?>", "<invalid>"));
}

#[test]
fn a_feature_is_described_in_lines() {
    assert_eq!(geom_summary(Some((GeomType::MultiPolygon, 12))), "MultiPolygon · 12 vertices");
    assert_eq!(geom_summary(Some((GeomType::Other, 0))), "Geometry · 0 vertices");
    assert_eq!(geom_summary(None), "<invalid>");
    assert_eq!(feature_title("roads", 17), "roads · row 17");
    assert_eq!(measure_text(&Measured::Length("3 km".to_string())), "length 3 km");
    assert_eq!(
        measure_text(&Measured::Area { area: "3 km²".to_string(), perimeter: "9 km".to_string() }),
        "area 3 km² · perimeter 9 km"
    );
    assert!(measure_hint(true).contains("WGS84") && measure_hint(false).starts_with("planar"));
}

// --- file information ---------------------------------------------------------------------------

fn keys(rows: &[InfoRow]) -> Vec<&str> {
    rows.iter().map(|r| r.key.as_str()).collect()
}

#[test]
fn what_is_known_of_the_geometry_is_listed() {
    let mut f = GeoFacts {
        downloaded: None,
        primary_column: "geom".to_string(),
        encoding: "WKB".to_string(),
        geometry_types: Vec::new(),
        crs_name: "WGS 84".to_string(),
        crs_proj4: "+proj=longlat".to_string(),
        bbox: None,
        covering: None,
        edges: None,
        clustering: None,
    };
    assert_eq!(keys(&geo_rows(&f)), vec!["geometry column", "encoding", "CRS"]);
    assert_eq!(geo_rows(&f)[2].value, "WGS 84 (+proj=longlat)");
    f.downloaded = Some(fetched_note("3 MB", 12_345));
    f.geometry_types = list(&["Polygon", "MultiPolygon"]);
    f.bbox = Some("b".to_string());
    f.covering = Some("c".to_string());
    f.edges = Some("planar".to_string());
    f.clustering = Some(Clustering {
        boxes: 9,
        source: "covering".to_string(),
        overlap: "1.2".to_string(),
        percent: "13".to_string(),
        poor: false,
    });
    let r = geo_rows(&f);
    assert_eq!(
        keys(&r),
        vec![
            "downloaded", "geometry column", "encoding", "geometry types", "CRS", "bbox (metadata)",
            "covering", "edges", "row-group bboxes",
        ]
    );
    assert_eq!(r[0].value, "3 MB in 12k range requests");
    assert_eq!(r[3].value, "Polygon, MultiPolygon");
    assert_eq!(r[8].value, "9 boxes — covering — avg overlap ×1.2 = 13% of possible (well clustered)");
}

#[test]
fn what_is_known_of_the_file_is_listed() {
    let mut f = FileFacts {
        remote: false,
        location: "/d/a.parquet".to_string(),
        files: 1,
        hive_keys: Vec::new(),
        size: "3 MB".to_string(),
        rows: 100,
        row_groups: 2,
        rows_min: 40,
        rows_max: 60,
        compressed: "3 MB".to_string(),
        raw: "9 MB".to_string(),
        ratio: "3.0".to_string(),
        format_version: "2".to_string(),
        created_by: None,
    };
    let r = file_rows(&f);
    assert_eq!(
        keys(&r),
        vec!["path", "file size", "rows", "row groups", "data size", "parquet format"]
    );
    assert_eq!(r[3].value, "2 (40–60 rows)");
    assert_eq!(r[4].value, "3 MB compressed / 9 MB raw (3.0×)");
    assert_eq!(r[5].value, "v2");
    f.remote = true;
    f.files = 3;
    f.created_by = Some("x".to_string());
    let r = file_rows(&f);
    assert_eq!((r[0].key.as_str(), r[1].value.as_str()), ("url", "3 (hive keys: none)"));
    assert_eq!(r[7].key, "created by");
    f.hive_keys = list(&["country", "state"]);
    assert_eq!(file_rows(&f)[1].value, "3 (hive keys: country, state)");
}

#[test]
fn traffic_adds_up_over_part_files() {
    let t = |bytes, requests| Some(Traffic { bytes, requests });
    assert_eq!(fetched(&vec![None, t(3, 1), None, t(4, 2)]), t(7, 3));
    assert_eq!(fetched(&vec![None]), None);
    assert_eq!(fetched(&Vec::new()), None);
}

#[test]
fn columns_and_checks_are_described() {
    let logical = Some("Geometry".to_string());
    assert_eq!(column_type("Binary", &logical, true), "Binary [Geometry]");
    assert_eq!(column_type("Binary", &logical, false), "Binary");
    assert_eq!(column_type("Binary", &None, true), "Binary");
    assert!(readiness(true).ends_with("viewport loading active"));
    assert!(readiness(false).ends_with("viewport loading unavailable"));
    assert_eq!(status_color(Status::Pass), [80, 200, 120]);
    assert_eq!(status_color(Status::Warn), [242, 140, 26]);
    assert_eq!(status_color(Status::Fail), [220, 60, 60]);
}

#[test]
fn an_unindexed_file_that_is_too_large_can_only_be_optimized() {
    let mut g = GateFacts {
        rows: 12_345,
        row_groups: 3,
        geom_bytes: 10,
        file_size: "5 MB".to_string(),
        geom_size: "4 MB".to_string(),
        max_rows: 20_000,
        max_bytes: 10,
        max_size: "9 MB".to_string(),
    };
    assert!(!g.too_big());
    let t = g.texts();
    assert_eq!(t.summary, "12k rows in 3 row groups — 5 MB");
    assert_eq!(t.load_all, "Load all 12k");
    assert!(t.choice.contains("(~4 MB of geometry)") && t.too_large.is_none());
    g.geom_bytes = 11;
    assert_eq!(
        g.texts().too_large.as_deref(),
        Some("Too large to load in full (12k rows / 4 MB geometry — limits 20k / 9 MB). Optimize is the only path.")
    );
    g.geom_bytes = 10;
    g.max_rows = 12_344;
    assert!(g.too_big());
}

#[test]
fn the_status_bar_says_what_goes_on() {
    let some = |s: &str| Some(s.to_string());
    assert_eq!(network_line(&some("1 MB"), &some("2 MB"), "9 MB"), "· ↓ data 1 MB/s tiles 2 MB/s");
    assert_eq!(network_line(&some("1 MB"), &None, "9 MB"), "· ↓ data 1 MB/s");
    assert_eq!(network_line(&None, &some("2 MB"), "9 MB"), "· ↓ tiles 2 MB/s");
    assert_eq!(network_line(&None, &None, "9 MB"), "· ↓ 9 MB total");
    assert_eq!(
        network_hover("1 MB", 7, "2 MB", 12_345),
        "downloaded this session\ndata: 1 MB in 7 range requests\nbasemap: 2 MB in 12k tiles"
    );
    assert_eq!(tiles_note(0), None);
    assert_eq!(tiles_note(3), some("· 3 tiles"));
    let mut a = app();
    assert_eq!(a.features_note(), None);
    arrive(&mut a, vec![layer(0, 12_000), layer(1, 345)]);
    assert_eq!(a.features_note(), some("· 12k features"));
    assert_eq!(load_label("s3://b/x.parquet", &Stage::Queued, "42"), "x.parquet — queued 42%");
    assert_eq!(load_label("x", &Stage::Reported("sorting".to_string()), "0"), "x — sorting 0%");
    assert_eq!(copyright_line(2026), "© 2026 Geomermaids");
}

#[test]
fn times_past_the_end_of_time_are_shown_with_their_offset() {
    let last = 8_210_266_876_799i64;
    let cell = |value: i64, zone: &str| {
        let c: ArrayRef = Arc::new(TimestampSecondArray::from(vec![value]).with_timezone(zone));
        let b = Rows { batch: RecordBatch::try_from_iter(vec![("t", c)]).unwrap() };
        attr_rows(&b, &None, "geometry", "").unwrap()[0].text.clone()
    };
    assert_eq!(cell(0, "+00:00"), "1970-01-01T00:00:00Z");
    assert_eq!(cell(0, "+01:00"), "1970-01-01T01:00:00+01:00");
    assert_eq!(cell(last, "+00:00"), "+262142-12-31T23:59:59Z");
    assert_eq!(cell(last, "+01:00"), "+262143-01-01T00:59:59+01:00");
    assert_eq!(cell(-8_334_601_228_800, "-01:00"), "-262144-12-31T23:00:00-01:00");
}

#[test]
fn tables_are_written_down_under_their_names() {
    let mut t = Tables::new();
    t.add_table("a".to_string(), Vec::new(), 5, 9, Err("full".to_string()), &Vec::new());
    t.add_table("b".to_string(), Vec::new(), 5, 9, Err("full".to_string()), &Vec::new());
    let notes = save_tables(&t);
    assert_eq!(notes.iter().map(|n| (n.table_id, n.name.as_str())).collect::<Vec<_>>(), vec![(0, "a"), (1, "b")]);
}
