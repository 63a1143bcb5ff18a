use geopq::grids::{
    CellKind, GridMsg, GridOutput, GridStat, GridState, PostKind, ValueColumn, DEFAULT_CELL_SIZE,
};

fn cols(v: &[(&str, bool)]) -> Vec<ValueColumn> {
    v.iter().map(|(n, numeric)| ValueColumn { name: n.to_string(), numeric: *numeric }).collect()
}

fn grid() -> GridState {
    GridState::open(3, &"roads".to_string(), &cols(&[("kind", false), ("len", true)])).unwrap()
}

#[test]
fn a_grid_starts_with_a_numeric_column() {
    let g = grid();
    assert_eq!(g.column, "len");
    assert_eq!(f64::from_bits(DEFAULT_CELL_SIZE), 1000.0);
    assert_eq!((f64::from_bits(g.azimuth), f64::from_bits(g.altitude)), (315.0, 45.0));
    let t = GridState::open(3, &"roads".to_string(), &cols(&[("kind", false)])).unwrap();
    assert_eq!(t.column, "kind");
    assert!(t.is_text());
    assert_eq!(
        GridState::open(3, &"roads".to_string(), &Vec::new()).unwrap_err(),
        "roads: no columns to aggregate"
    );
}

#[test]
fn a_text_column_takes_a_statistic_of_its_own() {
    let mut g = grid();
    g.column = "kind".to_string();
    g.passes = 3;
    g.contours = true;
    g.coerce();
    assert_eq!((g.stat, g.passes, g.contours), (GridStat::Majority, 0, false));
    g.stat = GridStat::Minority;
    g.coerce();
    assert_eq!(g.stat, GridStat::Minority);
    g.column = "len".to_string();
    g.coerce();
    assert_eq!(g.stat, GridStat::Mean);
}

#[test]
fn hillshade_needs_square_cells() {
    let mut g = grid();
    g.post = PostKind::Hillshade;
    g.coerce();
    assert_eq!(g.post, PostKind::Hillshade);
    g.system = CellKind::H3;
    g.coerce();
    assert_eq!(g.post, PostKind::Plain);
}

#[test]
fn a_grid_is_named_after_what_it_shows() {
    let mut g = grid();
    g.contours = true;
    g.post = PostKind::FocalStd;
    let p = g.start(Some(4), "mean", "500", 12, 9).unwrap();
    assert_eq!(p.name, "roads · mean(len) 500u contours std");
    assert_eq!(p.file, "geopq_grid_12_3_9.parquet");
    assert_eq!(p.value_col, 4);
    assert_eq!(p.output, GridOutput::Contours { levels: 10, quantile: true });
    assert!(g.running && g.error.is_none());
    g.system = CellKind::A5;
    g.a5_res = -1;
    g.post = PostKind::Hillshade;
    let p = g.start(Some(4), "mean", "500", 12, 9).unwrap();
    assert_eq!(p.name, "roads · mean(len) a5r-1");
    assert_eq!(p.output, GridOutput::Cells);
    g.system = CellKind::H3;
    assert_eq!(g.start(Some(4), "sum", "500", 12, 9).unwrap().name, "roads · sum(len) h3r7");
}

#[test]
fn a_grid_whose_column_is_gone_does_not_start() {
    let mut g = grid();
    assert!(g.start(None, "mean", "500", 12, 9).is_none());
    assert_eq!(g.error.as_deref(), Some("column len not found"));
    assert!(!g.running);
}

#[test]
fn a_worker_that_dies_counts_as_failed() {
    let mut g = grid();
    g.start(Some(4), "mean", "500", 12, 9);
    assert!(g.poll(vec![GridMsg::Progress(7)].into_iter().collect(), false).is_none());
    assert!(g.running && g.progress == 7 && g.stays(false));
    assert!(g.poll(Vec::new().into_iter().collect(), true).is_none());
    assert!(!g.running && !g.stays(false) && g.stays(true));
    assert_eq!(g.error.as_deref(), Some("grid computation stopped unexpectedly"));
}

#[test]
fn a_worker_reports_its_grid_or_its_failure() {
    let mut g = grid();
    g.start(Some(4), "mean", "500", 12, 9);
    let done = GridMsg::Done("/tmp/g".to_string(), "n".to_string());
    let d = g.poll(vec![GridMsg::Progress(7), done].into_iter().collect(), true).unwrap();
    assert_eq!((d.path.as_str(), d.name.as_str()), ("/tmp/g", "n"));
    assert!(g.error.is_none());
    g.poll(vec![GridMsg::Failed("no rows".to_string())].into_iter().collect(), false);
    assert!(!g.running && g.error.as_deref() == Some("no rows"));
}
