use geopq::layers::{
    all_full, all_unseen, complement_ranges, kind_rank, landing_position, resize_loads, CoverRect,
    GeomKind, GroupLoad, GroupSel, Hit, Layer,
};

fn layer(id: u64, kind: GeomKind, rows: &[u64]) -> Layer {
    let mut starts = vec![0];
    for n in rows {
        starts.push(starts[starts.len() - 1] + n);
    }
    Layer {
        id,
        name: format!("layer {id}"),
        kind,
        direct: false,
        visible: true,
        box_layer: false,
        show_boxes: false,
        collection: false,
        generation: 0,
        draw_gen: 0,
        sections: 1,
        loaded: all_unseen(rows.len()),
        starts,
        boxes: Some(rows.len()),
        feature_count: 0,
        filter: None,
        build_ms: 0,
        bad_geoms: 0,
        files: 1,
        style: 0,
        credit: None,
    }
}

fn show<T: std::fmt::Debug>(t: &T) -> String {
    format!("{t:?}")
}

#[test]
fn points_draw_over_lines_over_polygons() {
    assert!(kind_rank(GeomKind::Polygon) < kind_rank(GeomKind::Line));
    assert!(kind_rank(GeomKind::Line) < kind_rank(GeomKind::Point));
}

#[test]
fn a_layer_lands_on_top_of_its_category() {
    let layers = vec![
        layer(0, GeomKind::Polygon, &[]),
        layer(1, GeomKind::Polygon, &[]),
        layer(2, GeomKind::Point, &[]),
    ];
    assert_eq!(landing_position(&layers, kind_rank(GeomKind::Polygon)), 2);
    assert_eq!(landing_position(&layers, kind_rank(GeomKind::Line)), 2);
    assert_eq!(landing_position(&layers, kind_rank(GeomKind::Point)), 3);
    assert_eq!(landing_position(&Vec::new(), kind_rank(GeomKind::Point)), 0);
}

#[test]
fn the_complement_of_ranges_is_the_rest() {
    assert_eq!(complement_ranges(&vec![(2, 4), (6, 9)], 10), vec![(0, 2), (4, 6), (9, 10)]);
    assert_eq!(complement_ranges(&vec![(0, 10)], 10), vec![]);
    assert_eq!(complement_ranges(&Vec::new(), 3), vec![(0, 3)]);
    assert_eq!(complement_ranges(&vec![(0, 5), (3, 7)], 8), vec![(7, 8)]);
    assert_eq!(complement_ranges(&Vec::new(), 0), vec![]);
}

#[test]
fn a_layer_is_partial_until_every_group_is_whole() {
    let mut l = layer(0, GeomKind::Polygon, &[10, 20]);
    assert!(l.is_partial());
    l.loaded = all_full(2);
    assert!(!l.is_partial());
}

#[test]
fn groups_are_counted_by_how_they_are_loaded() {
    let mut l = layer(0, GeomKind::Polygon, &[10, 20, 30, 40, 50]);
    l.loaded = vec![
        GroupLoad::Full,
        GroupLoad::Preview { stride: 4 },
        GroupLoad::Boxes,
        GroupLoad::Rows { ranges: vec![(0, 3)], rect: CoverRect::Everywhere },
        GroupLoad::Unseen,
    ];
    let c = l.group_counts();
    assert_eq!((c.full, c.preview, c.boxes, c.rows, c.total), (1, 1, 1, 1, 5));
}

#[test]
fn refinement_asks_for_what_the_view_lacks() {
    let mut l = layer(0, GeomKind::Polygon, &[10, 20, 30]);
    l.loaded = vec![
        GroupLoad::Full,
        GroupLoad::Unseen,
        GroupLoad::Rows { ranges: vec![(0, 3)], rect: CoverRect::Kept(5) },
    ];
    let hits = vec![
        Hit { group: 0, covered: false },
        Hit { group: 1, covered: false },
        Hit { group: 2, covered: true },
    ];
    assert!(l.view_pending(&hits));
    let jobs = l.refine_jobs(&hits, 9);
    assert_eq!(jobs.len(), 1);
    assert!(!l.view_pending(&vec![Hit { group: 0, covered: false }]));
}

#[test]
fn what_is_missing_of_a_layer_is_the_rows_not_loaded() {
    let mut l = layer(0, GeomKind::Polygon, &[10, 20, 30]);
    l.loaded = vec![
        GroupLoad::Full,
        GroupLoad::Rows { ranges: vec![(5, 20)], rect: CoverRect::Everywhere },
        GroupLoad::Unseen,
    ];
    let jobs = l.missing_jobs();
    assert_eq!(jobs.len(), 2);
    match &jobs[0] {
        GroupSel::Ranges(g, r) => {
            assert_eq!(*g, 1);
            assert_eq!(*r, vec![(0, 5)]);
        }
        other => panic!("{other:?}"),
    }
    assert_eq!(show(&jobs[1]), "All(2)");
}

#[test]
fn a_load_table_grows_unseen_and_shrinks_at_its_end() {
    let mut v = all_full(1);
    resize_loads(&mut v, 3);
    assert_eq!(show(&v), "[Full, Unseen, Unseen]");
    resize_loads(&mut v, 1);
    assert_eq!(show(&v), "[Full]");
}

#[test]
fn a_filter_loads_the_matching_rows_of_each_group() {
    let l = layer(0, GeomKind::Polygon, &[4, 4, 4]);
    let loads = l.filtered(vec![vec![(0, 4)], vec![], vec![(1, 2)]]);
    assert_eq!(loads.len(), 3);
    assert_eq!(show(&loads[0]), "Full");
    match &loads[2] {
        GroupLoad::Rows { ranges, .. } => assert_eq!(*ranges, vec![(1, 2)]),
        other => panic!("{other:?}"),
    }
}
