use geopq::export::{
    as_is_note, report_rows, row_group_sizes, written_title, ReportFacts, ADAPTIVE_LEAST,
    ADAPTIVE_MOST, H3_FINEST,
    collection_sibling, gives_admin, merge_hint, merges_with, partition_candidates,
    publish_target, refuse_replacing, shared_columns, text_columns, ExportSource, Field,
    FieldCount, FieldKind, GpVersion, OpenAfter, OptMsg, OptimizeState, PartMode, Partitioning,
    PublishStart, S3Dest,
};
use geopq::layers::GeomKind;
use geopq::session::ViewerApp;
use std::collections::VecDeque;

fn state() -> OptimizeState {
    OptimizeState::open(
        ExportSource {
            layer_id: 4,
            layer_name: "roads".to_string(),
            src_name: "roads.parquet".to_string(),
            src_path: Some("/data/roads.parquet".to_string()),
            recommended: GpVersion::V1_1GeoArrow,
        },
        true,
        true,
    )
}

fn app() -> ViewerApp {
    ViewerApp::new(Vec::new(), VecDeque::new())
}

fn field(name: &str, kind: FieldKind, type_code: u32) -> Field {
    Field { name: name.to_string(), kind, type_code }
}

fn dest(uri: &str) -> S3Dest {
    S3Dest { uri: uri.to_string(), profile: None, endpoint: None }
}

#[test]
fn destinations_get_the_name_they_lack() {
    let t = |e: &str, parts, as_is| publish_target(e, "roads", parts, as_is);
    assert_eq!(t("s3://b", false, false), Some("s3://b/roads_optimized.parquet".to_string()));
    assert_eq!(t("s3://b/", false, true), Some("s3://b/roads.parquet".to_string()));
    assert_eq!(t("s3://b/p/", false, false), Some("s3://b/p/roads_optimized.parquet".to_string()));
    assert_eq!(t("s3://b/p", false, false), Some("s3://b/p.parquet".to_string()));
    assert_eq!(t("s3://b/p.parquet", false, false), Some("s3://b/p.parquet".to_string()));
    assert_eq!(t("s3://b", true, false), Some("s3://b/roads_partitioned/".to_string()));
    assert_eq!(t("s3://b/p", true, false), Some("s3://b/p/".to_string()));
    assert_eq!(t("s3://", false, false), None);
    assert_eq!(t("https://b/p", false, false), None);
    assert_eq!(t("", true, true), None);
}

#[test]
fn a_publish_starts_with_a_settled_destination() {
    let mut o = state();
    o.s3_uri = "  s3://b/ ".to_string();
    match o.start_publish(12) {
        PublishStart::Stage(n) => assert_eq!(n, "geopq_publish_roads_12.parquet"),
        other => panic!("{other:?}"),
    }
    assert_eq!(o.s3_uri, "s3://b/roads_optimized.parquet");
    let mut o = state();
    o.s3_uri = "s3://b".to_string();
    o.upload_as_is = true;
    match o.start_publish(12) {
        PublishStart::AsIs(p) => assert_eq!(p, "/data/roads.parquet"),
        other => panic!("{other:?}"),
    }
    assert_eq!(o.s3_uri, "s3://b/roads.parquet");
    let mut o = state();
    o.s3_uri = "s3://b".to_string();
    o.part_mode = PartMode::AdaptiveH3;
    match o.start_publish(12) {
        PublishStart::Stage(n) => assert_eq!(n, "geopq_publish_roads_12_parts"),
        other => panic!("{other:?}"),
    }
    let mut o = state();
    o.s3_uri = "bucket".to_string();
    assert!(matches!(o.start_publish(12), PublishStart::Refused));
    assert_eq!(o.error.as_deref(), Some("destination must start with s3://bucket"));
}

#[test]
fn an_upload_goes_through_the_endpoint_given() {
    let mut o = state();
    o.s3_uri = " s3://b/k ".to_string();
    o.s3_endpoint = " https://minio ".to_string();
    o.s3_profile = Some("dev".to_string());
    let d = o.begin_as_is();
    assert_eq!((d.uri.as_str(), d.endpoint.as_deref(), d.profile.as_deref()),
        ("s3://b/k", Some("https://minio"), Some("dev")));
    assert!(o.running && !o.may_close());
    assert_eq!(o.progress_text, "starting upload");
    o.s3_endpoint = "  ".to_string();
    assert_eq!(o.destination().endpoint, None);
}

#[test]
fn a_published_dataset_is_not_overwritten_unasked() {
    let s = collection_sibling("s3://b/p//");
    assert_eq!(s, "s3://b/p/collection.json");
    assert!(refuse_replacing(&s, true, false).unwrap().starts_with("s3://b/p/collection.json already"));
    assert_eq!(refuse_replacing(&s, true, true), None);
    assert_eq!(refuse_replacing(&s, false, false), None);
}

#[test]
fn a_rewrite_is_needed_for_what_changes_the_file() {
    let mut o = state();
    o.upload_as_is = true;
    let (on, hint) = o.as_is_offer(None, "/data/roads.parquet");
    assert!(on && o.upload_as_is);
    assert_eq!(hint, "Upload /data/roads.parquet byte-for-byte, skipping the rewrite");
    assert!(o.as_is_offer(Some(true), "").1.contains("already passes"));
    assert!(o.as_is_offer(Some(false), "").1.contains("would benefit"));
    o.toggle_h3(true);
    o.toggle_merge(9, true);
    o.viewport_only = true;
    o.select_admin(Some(2));
    o.part_mode = PartMode::Fields;
    let (on, hint) = o.as_is_offer(Some(true), "");
    assert!(!on && !o.upload_as_is);
    assert_eq!(
        hint,
        "needs a rewrite: merge, viewport only, H3 column, admin column, partitioning"
    );
}

#[test]
fn an_export_starts_only_when_its_options_are_complete() {
    let mut o = state();
    o.viewport_only = true;
    assert!(o.start_optimize(&app(), false).is_none());
    assert_eq!(o.error.as_deref(), Some("cannot map the viewport into the layer's CRS"));
    assert!(!o.running);
    o.viewport_only = false;
    o.part_mode = PartMode::Fields;
    assert!(o.start_optimize(&app(), true).is_none());
    assert_eq!(o.error.as_deref(), Some("select at least one partition field"));
    o.toggle_field("kind".to_string(), true);
    o.select_admin(Some(2));
    assert!(o.start_optimize(&app(), true).is_none());
    assert_eq!(o.error.as_deref(), Some("pick the boundary layer's value column"));
    o.admin_column = "name".to_string();
    let plan = o.start_optimize(&app(), true).unwrap();
    assert_eq!((plan.version, plan.covering, plan.h3_resolution), (o.version, o.covering, o.h3_resolution));
    assert!(o.running && o.error.is_none());
    assert!(matches!(plan.partitioning, Partitioning::Fields(_)));
    // The boundary layer is gone, so nothing is joined.
    assert!(plan.admin.is_none() && plan.dest.is_none() && !plan.stac && plan.merge.is_empty());
}

#[test]
fn an_adaptive_export_has_its_target() {
    let mut o = state();
    o.part_mode = PartMode::AdaptiveH3;
    o.dest_s3 = true;
    o.s3_uri = "s3://b/p/".to_string();
    let plan = o.start_optimize(&app(), true).unwrap();
    match plan.partitioning {
        Partitioning::AdaptiveH3 { target_rows, max_res } => {
            assert_eq!((target_rows, max_res), (1_000_000, 10))
        }
        other => panic!("{other:?}"),
    }
    assert!(plan.stac && plan.dest.is_some());
}

#[test]
fn the_worker_reports_to_the_dialog() {
    let mut o = state();
    o.running = true;
    assert!(matches!(o.on_message(OptMsg::Progress(7, "sorting".to_string())), OpenAfter::Nothing));
    assert_eq!((o.progress, o.progress_text.as_str()), (7, "sorting"));
    let done = OptMsg::Done { report: 3, path: "/tmp/x".to_string(), dest: None };
    match o.on_message(done) {
        OpenAfter::Local(p) => assert_eq!(p, "/tmp/x"),
        other => panic!("{other:?}"),
    }
    assert!(!o.running && o.report == Some(3) && o.may_close());
    assert!(o.loadable(1) && !o.loadable(2));
    let done = OptMsg::Done { report: 4, path: "/tmp/x".to_string(), dest: Some(dest("s3://b/x")) };
    assert!(matches!(o.on_message(done), OpenAfter::Remote(_)));
    assert!(o.loadable(2));
    o.open_result = false;
    let done = OptMsg::Done { report: 5, path: "/tmp/x".to_string(), dest: None };
    assert!(matches!(o.on_message(done), OpenAfter::Nothing));
    o.on_message(OptMsg::PublishedAsIs(dest("s3://b/y"), 99));
    assert_eq!(o.report_as_is.as_ref().map(|r| r.1), Some(99));
    o.running = true;
    o.on_message(OptMsg::Failed("disk full".to_string()));
    assert!(!o.running && o.error.as_deref() == Some("disk full"));
}

#[test]
fn columns_to_partition_by_are_counted_once() {
    let mut o = state();
    assert!(!o.wants_counts());
    o.part_mode = PartMode::Fields;
    assert!(o.wants_counts());
    assert!(!o.wants_counts());
    assert_eq!(o.field_label("kind"), ("kind  (counting…)".to_string(), false));
    let counts = vec![
        FieldCount { name: "kind".to_string(), distinct: 12 },
        FieldCount { name: "id".to_string(), distinct: 501 },
    ];
    o.on_message(OptMsg::Cardinalities(5, Vec::new()));
    assert!(o.card_pending);
    o.on_message(OptMsg::Cardinalities(4, counts));
    assert_eq!(o.field_label("kind"), ("kind  (12 distinct)".to_string(), false));
    assert_eq!(o.field_label("id"), ("id  (501 distinct)".to_string(), true));
    assert_eq!(o.field_label("x"), ("x  ()".to_string(), false));
    o.toggle_h3(true);
    o.admin_layer = Some(1);
    o.admin_out = " ".to_string();
    assert_eq!(o.derived(), vec!["h3_r8", "admin"]);
    assert_eq!(o.field_label("h3_r8").0, "h3_r8  (derived)");
}

#[test]
fn directories_nest_in_the_order_of_ticking() {
    let mut o = state();
    for f in ["b", "a", "c"] {
        o.toggle_field(f.to_string(), true);
    }
    o.toggle_field("a".to_string(), false);
    assert_eq!(o.dirs_note(), "dirs: b=…/c=…");
    assert_eq!(o.proposed_name(), "roads_optimized.parquet");
    assert_eq!(o.dataset_folder(), "roads_partitioned");
}

#[test]
fn formats_come_with_their_extras() {
    let mut o = state();
    o.geoarrow_aux = true;
    o.select_version(GpVersion::V2_0);
    assert!(!o.covering && !o.geoarrow_aux && o.geoarrow_fits());
    o.select_version(GpVersion::V1_1);
    assert!(o.covering);
    o.toggle_h3(true);
    assert_eq!(o.h3_resolution, Some(8));
    o.toggle_h3(false);
    assert_eq!(o.h3_resolution, None);
}

#[test]
fn layers_to_merge_are_ticked_once() {
    let mut o = state();
    o.toggle_merge(9, true);
    o.toggle_merge(9, true);
    o.toggle_merge(8, true);
    o.toggle_merge(9, false);
    assert_eq!(o.merge_with, vec![8]);
}

#[test]
fn columns_are_offered_by_what_they_hold() {
    let fields = vec![
        field("geometry", FieldKind::Other, 1),
        field("name", FieldKind::LargeUtf8, 2),
        field("bbox", FieldKind::Utf8, 3),
        field("pop", FieldKind::Int32, 4),
        field("rate", FieldKind::Other, 5),
        field("day", FieldKind::Date32, 6),
        field("wkt", FieldKind::Utf8View, 7),
    ];
    assert_eq!(partition_candidates(&fields, 6), vec!["name", "pop", "day"]);
    assert_eq!(text_columns(&fields), vec!["name", "bbox", "wkt"]);
}

#[test]
fn layers_are_offered_by_their_family() {
    assert!(gives_admin(1, GeomKind::Polygon, 2));
    assert!(!gives_admin(2, GeomKind::Polygon, 2));
    assert!(!gives_admin(1, GeomKind::Line, 2));
    assert!(merges_with(1, GeomKind::Line, 2, Some(GeomKind::Line)));
    assert!(!merges_with(1, GeomKind::Line, 2, Some(GeomKind::Point)));
    assert!(!merges_with(1, GeomKind::Line, 2, None));
}

#[test]
fn merged_columns_are_shared_or_dropped() {
    let ours = vec![
        field("a", FieldKind::Utf8, 1),
        field("b", FieldKind::Int8, 2),
        field("c", FieldKind::Other, 3),
    ];
    let theirs = vec![field("b", FieldKind::Int16, 4), field("a", FieldKind::Utf8, 1)];
    assert_eq!(shared_columns(&ours, &theirs), (1, 1));
    assert_eq!(merge_hint(1, 1), "1 shared columns; 1 dropped (type conflicts)");
    assert_eq!(merge_hint(3, 0), "3 shared columns");
}

#[test]
fn a_finished_export_is_reported() {
    let mut f = ReportFacts {
        version_label: "GeoParquet 1.1".to_string(),
        rows: 12_345,
        files: 1,
        size_before: "9 MB".to_string(),
        size_after: "5 MB".to_string(),
        rg_before: 3,
        rg_after: 7,
        overlap_before: "2.5".to_string(),
        overlap_after: "1.1".to_string(),
        percent_before: "50".to_string(),
        percent_after: "2".to_string(),
        bloom_columns: Vec::new(),
        elapsed_ms: 42,
    };
    let rows = |f: &ReportFacts| -> Vec<String> {
        report_rows(f).iter().map(|r| format!("{}: {}", r.key, r.value)).collect()
    };
    assert_eq!(
        rows(&f),
        vec![
            "format: GeoParquet 1.1",
            "rows: 12k",
            "size: 9 MB ➡ 5 MB",
            "row groups: 3 ➡ 7",
            "rg bbox overlap: ×2.5 ➡ ×1.1 (50% ➡ 2% of possible)",
            "bloom filters: none",
            "elapsed: 42 ms",
        ]
    );
    f.files = 4;
    f.bloom_columns = vec!["a".to_string(), "b".to_string()];
    assert_eq!(rows(&f)[2], "files: 4 (partitioned)");
    assert_eq!(rows(&f)[6], "bloom filters: a, b");
    assert_eq!(written_title(&None, "/tmp/x"), "Written: /tmp/x");
    assert_eq!(written_title(&Some(dest("s3://b/x")), "/tmp/x"), "Published: s3://b/x");
    assert_eq!(as_is_note("3 MB"), "3 MB uploaded as-is (no rewrite)");
}

#[test]
fn the_dialog_says_what_it_offers() {
    let mut o = state();
    assert_eq!(o.version_text(GpVersion::V2_0, "2.0"), "2.0");
    assert_eq!(o.version_text(GpVersion::V1_1GeoArrow, "1.1 GeoArrow"), "1.1 GeoArrow — recommended");
    assert_eq!(o.button(), "Export…");
    assert!(o.destination_hint().contains("file name appended"));
    o.dest_s3 = true;
    o.part_mode = PartMode::Fields;
    assert_eq!(o.button(), "Optimize & upload…");
    assert!(o.destination_hint().contains("dataset prefix appended"));
    assert!(o.wants_counts());
    o.no_counts();
    assert!(o.wants_counts());
    assert_eq!(row_group_sizes(), [16_384, 32_768, 65_536, 131_072]);
    assert_eq!((H3_FINEST, ADAPTIVE_LEAST, ADAPTIVE_MOST), (12, 10_000, 10_000_000));
}
