use geopq::cli::{
    layer_line, list_layers, options, pick, run, summary, Cli, Codec, CompressionArg, FormatArg, ListStep, OptimizeReport,
    Progress, RunStep,
};
use geopq::export::{GpVersion, Partitioning};
use geopq::imports::ImportFormat;

fn cli() -> Cli {
    Cli {
        input: "in.parquet".to_string(),
        extension: Some("PARQUET".to_string()),
        layer: None,
        output: Some("out.parquet".to_string()),
        format: FormatArg::Wkb,
        row_group_size: 50_000,
        row_group_mib: 64,
        compression: CompressionArg::Zstd,
        no_hilbert: false,
        no_covering: false,
        h3: None,
        partition_by: Vec::new(),
        partition_h3: false,
        partition_h3_target_rows: 1000,
        partition_h3_max_res: None,
        cogp: false,
        list_layers: false,
    }
}

fn refused(c: &Cli, format: Option<ImportFormat>) -> String {
    match run(c, format, &Ok(1), 7) {
        RunStep::Refuse(e) => e,
        other => panic!("{other:?}"),
    }
}

fn list(v: &[&str]) -> Vec<String> {
    v.iter().map(|s| s.to_string()).collect()
}

#[test]
fn flags_become_options() {
    let mut c = cli();
    c.format = FormatArg::Native2;
    c.compression = CompressionArg::Snappy;
    c.h3 = Some(6);
    c.partition_by = list(&["a", "b"]);
    let o = options(&c, None, &Err("none".to_string())).unwrap();
    assert_eq!(o.version, GpVersion::V2_0);
    assert_eq!(o.row_group_size, 50_000);
    assert_eq!(o.row_group_bytes, 64 * 1024 * 1024);
    assert_eq!(o.codec, Codec::Snappy);
    assert!(o.hilbert_sort && o.covering);
    assert_eq!(o.h3_resolution, Some(6));
    assert_eq!(o.cogp, None);
    match o.partition {
        Partitioning::Fields(f) => assert_eq!(f, list(&["a", "b"])),
        other => panic!("{other:?}"),
    }
}

#[test]
fn an_adaptive_split_goes_as_fine_as_its_cells() {
    let mut c = cli();
    c.partition_h3 = true;
    let res = |c: &Cli| match options(c, None, &Ok(1)).unwrap().partition {
        Partitioning::AdaptiveH3 { max_res, target_rows } => (max_res, target_rows),
        other => panic!("{other:?}"),
    };
    assert_eq!(res(&c), (10, 1000));
    c.h3 = Some(7);
    assert_eq!(res(&c), (7, 1000));
    c.partition_h3_max_res = Some(8);
    assert_eq!(res(&c), (8, 1000));
}

#[test]
fn flags_that_do_not_add_up_are_refused() {
    let mut c = cli();
    c.partition_by = list(&["a"]);
    c.partition_h3 = true;
    assert_eq!(refused(&c, None), "--partition-by and --partition-h3 are mutually exclusive");
    let mut c = cli();
    c.layer = Some("roads".to_string());
    c.input = "x.shp".to_string();
    assert_eq!(
        refused(&c, Some(ImportFormat::Shapefile)),
        "--layer applies to multi-layer sources; x.shp holds a single layer"
    );
    let mut c = cli();
    c.partition_h3 = true;
    c.partition_h3_target_rows = 0;
    assert_eq!(refused(&c, None), "--partition-h3-target-rows must be positive");
    let mut c = cli();
    c.row_group_size = 0;
    assert_eq!(refused(&c, None), "--row-group-size must be positive");
    let mut c = cli();
    c.row_group_mib = 0;
    assert_eq!(refused(&c, None), "--row-group-mib must be positive");
    let mut c = cli();
    c.output = None;
    assert_eq!(refused(&c, None), "--output is required (or pass --list-layers)");
    let mut c = cli();
    c.input = "x.kml".to_string();
    c.extension = Some("kml".to_string());
    assert_eq!(refused(&c, None), "unsupported input: x.kml");
}

#[test]
fn levels_need_the_sort_and_the_covering() {
    let mut c = cli();
    c.cogp = true;
    assert_eq!(options(&c, None, &Ok(5)).unwrap().cogp, Some(5));
    assert_eq!(
        options(&c, None, &Err("zoom range".to_string())).unwrap_err(),
        "--cogp: zoom range"
    );
    c.partition_by = list(&["a"]);
    assert!(refused(&c, None).starts_with("--cogp cannot be combined with partitioning"));
    c.partition_by = Vec::new();
    c.no_hilbert = true;
    assert_eq!(refused(&c, None), "--cogp implies the Hilbert sort; drop --no-hilbert");
    c.no_hilbert = false;
    c.no_covering = true;
    assert!(refused(&c, None).starts_with("--cogp on the wkb flavor"));
    c.format = FormatArg::Geoarrow;
    assert!(options(&c, None, &Ok(5)).is_ok());
}

#[test]
fn a_run_lists_optimizes_or_converts() {
    let mut c = cli();
    match run(&c, None, &Ok(1), 7) {
        RunStep::Optimize { output, .. } => assert_eq!(output, "out.parquet"),
        other => panic!("{other:?}"),
    }
    c.extension = Some("gpkg".to_string());
    match run(&c, Some(ImportFormat::Gpkg), &Ok(1), 7) {
        RunStep::Import { temp, format, .. } => {
            assert_eq!(temp, "geopq-cli-import-7.parquet");
            assert_eq!(format, ImportFormat::Gpkg);
        }
        other => panic!("{other:?}"),
    }
    c.list_layers = true;
    c.output = None;
    assert!(matches!(run(&c, None, &Ok(1), 7), RunStep::ListLayers));
}

#[test]
fn a_layer_is_picked_by_name_or_for_being_alone() {
    let names = list(&["Roads", "towns"]);
    assert_eq!(pick(&names, Some("roads")), Ok(0));
    assert_eq!(pick(&names, Some("TOWNS")), Ok(1));
    assert_eq!(
        pick(&names, Some("x")),
        Err("layer 'x' not found; available: Roads, towns".to_string())
    );
    assert_eq!(
        pick(&names, None),
        Err("multiple layers, pick one with --layer: Roads, towns".to_string())
    );
    assert_eq!(pick(&list(&["a"]), None), Ok(0));
    assert_eq!(pick(&Vec::new(), None), Err("source has no layers".to_string()));
}

#[test]
fn a_finished_run_is_summed_up() {
    let mut r = OptimizeReport {
        rows: 12, rg_before: 3, rg_after: 1, size_before: "5 MB".to_string(),
        size_after: "4 MB".to_string(), files: 1, cogp_levels: 0,
    };
    assert_eq!(summary(&r), "12 rows | row groups 3 -> 1 | 5 MB -> 4 MB | 1 file");
    r.files = 2;
    r.cogp_levels = 4;
    assert_eq!(
        summary(&r),
        "12 rows | row groups 3 -> 1 | 5 MB -> 4 MB | 2 files | 4 COGP levels"
    );
    assert_eq!(layer_line("roads", 12, "EPSG:4326"), "roads\t12 rows\tEPSG:4326");
}

#[test]
fn progress_is_repainted_only_when_it_changes() {
    let mut p = Progress::new();
    assert!(!p.finish());
    assert_eq!(p.report(0, "reading"), Some("\rreading:   0.0%   ".to_string()));
    assert_eq!(p.report(0, "reading"), None);
    assert_eq!(p.report(125, "reading"), Some("\rreading:  12.5%   ".to_string()));
    assert_eq!(p.report(1000, "writing"), Some("\rwriting: 100.0%   ".to_string()));
    assert!(p.finish());
}

#[test]
fn layers_are_listed_where_there_can_be_several() {
    assert!(matches!(list_layers("a.gpkg", Some(ImportFormat::Gpkg)), ListStep::Tables));
    match list_layers("a.shp", Some(ImportFormat::Shapefile)) {
        ListStep::Note(t) => assert_eq!(t, "(single layer — no --layer needed)"),
        other => panic!("{other:?}"),
    }
    match list_layers("a.kml", None) {
        ListStep::Refuse(e) => assert_eq!(e, "unsupported input: a.kml"),
        other => panic!("{other:?}"),
    }
}
