use geopq::filters::{FilterDialog, FilterMsg, FilterRows, TestNote};
use geopq::layers::{all_full, all_unseen, GeomKind, GroupLoad, Hit, Layer};
use geopq::loader::LoadMsg;
use geopq::refine::{CoastStep, FitTarget, LayerView};
use geopq::session::{
    Capped, Effect, EndReason, Picked, QualityGate, SourceInfo, Stage, ViewerApp, DEFAULT_DISPLAY,
};
use geopq::viewer::StartFile;
use std::collections::VecDeque;

fn source(handle: u64, label: &str) -> SourceInfo {
    SourceInfo { handle, label: label.to_string(), theme: None }
}

fn layer(id: u64, kind: GeomKind, rows: &[u64]) -> Layer {
    let mut starts = vec![0];
    for n in rows {
        starts.push(starts[starts.len() - 1] + n);
    }
    Layer {
        id,
        name: format!("layer {id}"),
        kind,
        direct: false,
        visible: true,
        box_layer: false,
        show_boxes: false,
        collection: false,
        generation: 0,
        draw_gen: 0,
        sections: 1,
        loaded: all_unseen(rows.len()),
        starts,
        boxes: Some(rows.len()),
        feature_count: 3,
        filter: None,
        build_ms: 0,
        bad_geoms: 0,
        files: 1,
        style: 0,
        credit: None,
    }
}

fn app() -> ViewerApp {
    let mut a = ViewerApp::new(Vec::new(), VecDeque::new());
    a.take_effects();
    a
}

fn poll(a: &mut ViewerApp, ms: Vec<LoadMsg>) {
    a.poll_loader(ms.into_iter().collect());
}

fn loaded(job: u64, l: Layer, adopt: Option<(u64, bool)>) -> LoadMsg {
    LoadMsg::Loaded { job, layer: l, geometry: 100 + job, adopt }
}

fn effects(a: &mut ViewerApp) -> Vec<String> {
    a.take_effects().iter().map(|e| format!("{e:?}")).collect()
}

fn with(layers: Vec<Layer>) -> ViewerApp {
    let mut a = app();
    for l in layers {
        let job = a.enqueue_load(source(l.id, "f"));
        poll(&mut a, vec![loaded(job, l, None)]);
    }
    a.take_effects();
    a
}

fn lines(n: u64) -> Vec<Layer> {
    (0..n).map(|i| layer(i, GeomKind::Line, &[4, 4])).collect()
}

fn with_layers(kinds: &[GeomKind]) -> ViewerApp {
    with(kinds.iter().enumerate().map(|(i, k)| layer(i as u64, *k, &[4, 4])).collect())
}

fn names(a: &ViewerApp) -> Vec<u64> {
    a.layers().iter().map(|l| l.id).collect()
}

#[test]
fn a_session_opens_what_the_command_line_names() {
    let files = vec![
        StartFile { source: source(4, "a.parquet"), tabular: false },
        StartFile { source: source(5, "b.csv"), tabular: true },
        StartFile { source: source(6, "c.parquet"), tabular: false },
    ];
    let mut a = ViewerApp::new(vec!["k|1".to_string()], files.into_iter().collect());
    let e = effects(&mut a);
    assert_eq!(e[0], "BuildOverlays");
    assert_eq!(
        e[1],
        "SpawnLoad { job: 0, layer_id: 0, source: 4, tint: Palette(0), auto_project: true, flag: 0 }"
    );
    assert_eq!(e[2], "OpenTable { source: 5, name: None }");
    // The second file waits until the first has decided the projection.
    assert_eq!(e.len(), 3);
    assert_eq!(a.queue().deferred.len(), 1);
    assert!(matches!(a.queue().loading[&1].stage, Stage::WaitingForProjection));
    assert!(a.is_direct(&"k|1".to_string()));
}

#[test]
fn waiting_loads_start_when_the_first_has_decided() {
    let mut a = app();
    let first = a.enqueue_load(source(0, "a"));
    let second = a.enqueue_load(source(1, "b"));
    a.take_effects();
    poll(&mut a, vec![loaded(first, layer(0, GeomKind::Polygon, &[4]), Some((9, true)))]);
    assert_eq!(a.cam().display, 9);
    assert_eq!(a.queue().projection_decider, None);
    let e = effects(&mut a);
    assert!(e.contains(
        &"SpawnLoad { job: 1, layer_id: 1, source: 1, tint: Palette(1), auto_project: false, flag: 1 }"
            .to_string()
    ));
    assert_eq!(a.queue().loading[&second].display_gen, a.cam().display_gen);
}

#[test]
fn waiting_loads_start_when_the_first_has_failed() {
    let mut a = app();
    let first = a.enqueue_load(source(0, "a"));
    a.enqueue_load(source(1, "b"));
    a.take_effects();
    let failed =
        LoadMsg::Failed { job: first, source: "a".to_string(), error: Some("no such file".to_string()) };
    poll(&mut a, vec![failed]);
    assert_eq!(*a.errors(), vec!["a: no such file".to_string()]);
    assert!(a.errors_shown());
    assert!(a.queue().deferred.is_empty());
    assert_eq!(effects(&mut a).len(), 1);
}

#[test]
fn an_error_that_names_its_source_is_not_prefixed_again() {
    let mut a = app();
    let job = a.enqueue_load(source(0, "a"));
    poll(&mut a, vec![LoadMsg::Failed {
        job,
        source: "a.parquet".to_string(),
        error: Some("a.parquet: not parquet".to_string()),
    }]);
    assert_eq!(*a.errors(), vec!["a.parquet: not parquet".to_string()]);
}

#[test]
fn a_stopped_load_is_no_error() {
    let mut a = app();
    let job = a.enqueue_load(source(0, "a"));
    a.stop_load(job);
    assert!(a.is_stopped(a.queue().loading[&job].flag));
    assert!(matches!(a.queue().loading[&job].stage, Stage::Cancelling));
    poll(&mut a, vec![LoadMsg::Failed { job, source: "a".to_string(), error: None }]);
    assert!(a.errors().is_empty() && a.queue().loading.is_empty());
}

#[test]
fn a_thematic_colour_leaves_the_palette_alone() {
    let mut a = app();
    a.enqueue_load(SourceInfo { handle: 0, label: "water".to_string(), theme: Some(0x11) });
    assert_eq!(a.queue().palette_idx, 0);
    a.enqueue_load(source(1, "b"));
    assert_eq!(a.queue().palette_idx, 1);
}

#[test]
fn layers_arrive_on_top_of_their_category() {
    let a = with_layers(&[GeomKind::Point, GeomKind::Polygon, GeomKind::Line, GeomKind::Polygon]);
    assert_eq!(names(&a), vec![1, 3, 2, 0]);
}

#[test]
fn a_load_nobody_waits_for_delivers_nothing() {
    let mut a = app();
    let job = a.enqueue_load(source(0, "a"));
    a.cancel_in_flight();
    poll(&mut a, vec![loaded(job, layer(0, GeomKind::Line, &[4]), Some((7, true)))]);
    assert!(a.layers().is_empty());
    assert_eq!(a.cam().display, DEFAULT_DISPLAY);
    assert!(a.is_stopped(0));
}

#[test]
fn only_the_first_layer_frames_the_view() {
    let mut a = app();
    assert_eq!(a.take_fits(false), vec![FitTarget::World]);
    assert!(!a.cam().pending_fit);
    let job = a.enqueue_load(source(0, "a"));
    poll(&mut a, vec![loaded(job, layer(0, GeomKind::Line, &[4]), None)]);
    assert_eq!(a.take_fits(true), vec![FitTarget::Layers]);
    let job = a.enqueue_load(source(1, "b"));
    poll(&mut a, vec![loaded(job, layer(1, GeomKind::Line, &[4]), None)]);
    assert!(!a.cam().pending_fit);
}

#[test]
fn a_framed_camera_is_transferred_and_not_refitted() {
    let mut a = app();
    a.fit_all();
    a.take_fits(false);
    assert!(a.cam().camera_moved && !a.cam().pending_fit);
    let job = a.enqueue_load(source(0, "a"));
    a.enqueue_load(source(1, "b"));
    a.take_effects();
    poll(&mut a, vec![loaded(job, layer(0, GeomKind::Line, &[4]), Some((9, true)))]);
    assert!(effects(&mut a).contains(&"TransferCamera { from: 0 }".to_string()));
}

#[test]
fn geometry_in_another_projection_is_rebuilt() {
    let mut a = app();
    let job = a.enqueue_load(source(0, "a"));
    a.set_display(5);
    a.take_effects();
    poll(&mut a, vec![loaded(job, layer(0, GeomKind::Line, &[4]), Some((9, true)))]);
    assert_eq!(a.cam().display, 5);
    assert!(a.work().rebuilding.contains(&0));
    assert_eq!(a.layers()[0].generation, 1);
    assert!(a.cam().fit_after_rebuilds);
}

#[test]
fn switching_the_projection_rebuilds_every_layer() {
    let mut a = with_layers(&[GeomKind::Line, GeomKind::Line]);
    a.set_display(7);
    assert_eq!(a.cam().display, 7);
    assert!(a.work().rebuilding.contains(&0) && a.work().rebuilding.contains(&1));
    let e = effects(&mut a);
    assert_eq!(e.iter().filter(|s| s.starts_with("SpawnRebuild")).count(), 2);
    // The camera is fitted when the last of them is done.
    let g = a.layers()[0].generation;
    poll(&mut a, vec![LoadMsg::Rebuilt {
        layer_id: 0, generation: g, geometry: 1, build_ms: 2, bad_geoms: 0,
    }]);
    assert!(a.cam().fit_after_rebuilds);
    a.take_fits(true);
    poll(&mut a, vec![LoadMsg::Rebuilt {
        layer_id: 1, generation: g, geometry: 1, build_ms: 2, bad_geoms: 0,
    }]);
    assert!(a.cam().pending_fit && !a.cam().fit_after_rebuilds);
}

#[test]
fn geometry_of_an_older_build_is_dropped() {
    let mut a = with_layers(&[GeomKind::Line]);
    a.set_display(7);
    let old = a.layers()[0].generation;
    a.set_display(8);
    assert!(a.is_stopped(1));
    a.take_effects();
    poll(&mut a, vec![LoadMsg::Rebuilt {
        layer_id: 0, generation: old, geometry: 1, build_ms: 2, bad_geoms: 0,
    }]);
    assert!(a.work().rebuilding.contains(&0));
    assert!(effects(&mut a).is_empty());
}

#[test]
fn geometries_that_cannot_be_used_are_reported() {
    let mut a = app();
    let job = a.enqueue_load(source(0, "a"));
    let mut l = layer(0, GeomKind::Line, &[4]);
    l.bad_geoms = 3;
    poll(&mut a, vec![loaded(job, l, None)]);
    assert_eq!(
        *a.errors(),
        vec!["layer 0: 3 geometries could not be decoded/projected".to_string()]
    );
}

#[test]
fn an_appended_batch_adds_a_section_and_keeps_the_rest() {
    let mut a = with_layers(&[GeomKind::Line]);
    a.refine_layer(0, &vec![Hit { group: 0, covered: false }], 3);
    assert!(a.work().appending.contains(&0));
    a.take_effects();
    poll(&mut a, vec![LoadMsg::Appended {
        layer_id: 0, generation: 0, geometry: 55, rows: 4,
        updates: vec![(0, GroupLoad::Full)].into_iter().collect(), done: true,
    }]);
    assert_eq!(a.layers()[0].sections, 2);
    assert_eq!(a.layers()[0].feature_count, 7);
    assert!(matches!(a.layers()[0].loaded[0], GroupLoad::Full));
    assert!(!a.work().appending.contains(&0));
    assert_eq!(effects(&mut a), vec!["PushSection { layer_id: 0, geometry: 55 }".to_string()]);
}

#[test]
fn geometry_that_replaces_boxes_merges_the_sections() {
    let mut l = layer(0, GeomKind::Polygon, &[4, 4]);
    l.loaded[0] = GroupLoad::Boxes;
    let mut a = with(vec![l]);
    poll(&mut a, vec![LoadMsg::Appended {
        layer_id: 0, generation: 0, geometry: 55, rows: 4,
        updates: vec![(0, GroupLoad::Full)].into_iter().collect(), done: true,
    }]);
    assert!(a.work().rebuilding.contains(&0) && a.work().consolidating.contains(&0));
    assert!(a.is_on_map(0));
}

#[test]
fn a_refused_refinement_rests_until_the_camera_moves() {
    let mut a = with_layers(&[GeomKind::Line]);
    let jobs = a.refine_layer(0, &vec![Hit { group: 1, covered: false }], 3);
    assert_eq!(jobs.len(), 1);
    poll(&mut a, vec![LoadMsg::RefineDeferred { layer_id: 0, at_least_rows: 900, geom_bytes: Some(8) }]);
    assert!(!a.refinable(0));
    assert_eq!(a.work().refine_deferred.get(&0), Some(&(900, Some(8))));
    a.camera_pose_changed();
    assert!(a.refinable(0));
    assert!(a.work().refine_deferred.is_empty());
}

#[test]
fn a_moved_camera_stops_reads_for_the_view_left_behind() {
    let mut a = with_layers(&[GeomKind::Line]);
    a.refine_layer(0, &vec![Hit { group: 1, covered: false }], 3);
    let flag = a.work().append_cancel[&0];
    a.camera_pose_changed();
    assert!(a.is_stopped(flag));
    poll(&mut a, vec![LoadMsg::AppendEnded { layer_id: 0, reason: EndReason::Cancelled }]);
    assert!(a.refinable(0));
    assert!(a.errors().is_empty());
}

#[test]
fn an_append_that_failed_is_reported() {
    let mut a = with_layers(&[GeomKind::Line]);
    a.refine_layer(0, &vec![Hit { group: 1, covered: false }], 3);
    poll(&mut a, vec![LoadMsg::AppendEnded {
        layer_id: 0,
        reason: EndReason::Error("timeout".to_string()),
    }]);
    assert_eq!(*a.errors(), vec!["timeout".to_string()]);
    assert!(a.work().refine_hold.contains(&0));
}

#[test]
fn part_files_found_extend_the_layer() {
    let mut a = with_layers(&[GeomKind::Line]);
    poll(&mut a, vec![LoadMsg::PartsOpened {
        layer_id: 0, generation: 0, store: 12, starts: vec![0, 4, 8, 20], added_boxes: 1,
        added_groups: 1, names: 1,
    }]);
    let l = &a.layers()[0];
    assert_eq!((l.loaded.len(), l.boxes, l.files), (3, Some(3), 2));
    assert_eq!(
        effects(&mut a),
        vec!["AdoptStore { layer_id: 0, store: 12, extend_boxes: true, drop_boxes: false }".to_string()]
    );
}

#[test]
fn loading_all_rows_reads_what_is_missing_without_a_budget() {
    let mut l = layer(0, GeomKind::Line, &[4, 4]);
    l.loaded[0] = GroupLoad::Full;
    let mut a = with(vec![l]);
    let jobs = a.load_all_rows(0);
    assert_eq!(format!("{jobs:?}"), "[All(1)]");
    assert!(effects(&mut a)[0].contains("limit_mb: None"));
    assert!(a.load_all_rows(0).is_empty());
    a.stop_append(0);
    assert!(a.is_stopped(a.work().append_cancel[&0]));
}

#[test]
fn reloading_to_the_viewport_forgets_filters_but_not_whole_layers() {
    let mut ls = lines(2);
    ls[1].direct = true;
    ls[1].loaded = all_full(2);
    let mut a = with(ls);
    a.reload_layers_to_viewport();
    assert!(a.work().rebuilding.contains(&0) && !a.work().rebuilding.contains(&1));
    assert_eq!(a.layers()[0].sections, 0);
    assert!(matches!(a.layers()[1].loaded[0], GroupLoad::Full));
    let e = effects(&mut a);
    assert_eq!(e[e.len() - 1], "ReleaseMemory");
    let moved = a.cam().camera_moved;
    poll(&mut a, vec![LoadMsg::Reloaded {
        layer_id: 0, generation: 1, geometry: 6, loaded: all_full(2), rows: 8, bad_geoms: 0,
        build_ms: 1,
    }]);
    assert_eq!(a.layers()[0].feature_count, 8);
    assert_eq!(a.cam().camera_moved, moved);
    assert!(!a.work().rebuilding.contains(&0));
}

#[test]
fn camera_fits_are_taken_once() {
    let mut a = app();
    let job = a.enqueue_load(source(0, "a"));
    poll(&mut a, vec![LoadMsg::Framed { job, display: None, world: 5 }]);
    a.fit_to(4);
    assert_eq!(a.take_fits(true), vec![FitTarget::Bounds(4), FitTarget::Frame(5)]);
    assert!(a.cam().camera_moved && !a.cam().pending_fit);
    assert_eq!(a.take_fits(true), vec![]);
    a.fit_all();
    assert_eq!(a.take_fits(true), vec![FitTarget::Layers]);
    a.fit_all();
    assert_eq!(a.take_fits(false), vec![FitTarget::World]);
}

#[test]
fn the_coastline_follows_the_zoom() {
    let mut a = app();
    let z = |v: f64| v.to_bits() as i64;
    assert_eq!(a.update_coastline_detail(z(5.5), true), CoastStep::Keep);
    assert_eq!(a.update_coastline_detail(z(f64::NAN), true), CoastStep::Keep);
    assert_eq!(a.update_coastline_detail(z(6.0), false), CoastStep::Fetch);
    assert_eq!(a.update_coastline_detail(z(6.0), true), CoastStep::Rebuild);
    assert_eq!(a.update_coastline_detail(z(5.5), true), CoastStep::Keep);
    assert_eq!(a.update_coastline_detail(z(-f64::NAN), true), CoastStep::Keep);
    assert_eq!(a.update_coastline_detail(z(5.0), true), CoastStep::Rebuild);
    assert_eq!(a.update_coastline_detail(z(f64::INFINITY), true), CoastStep::Rebuild);
    assert_eq!(a.update_coastline_detail(z(f64::NEG_INFINITY), true), CoastStep::Rebuild);
    assert_eq!(a.update_coastline_detail(z(-1.0), true), CoastStep::Keep);
}

#[test]
fn an_unindexed_file_waits_for_an_answer() {
    let mut a = app();
    let job = a.enqueue_load(source(0, "big.parquet"));
    let gate = QualityGate {
        job, layer_id: 0, opened: 77, label: "big.parquet".to_string(), file_size: 1234,
        tint: geopq::session::Tint::Palette(0), auto_project: true,
    };
    assert_eq!(gate.key(), "big.parquet|1234");
    a.take_effects();
    poll(&mut a, vec![LoadMsg::Gated { gate }]);
    assert_eq!(a.queue().gates.len(), 1);
    assert!(matches!(a.queue().loading[&job].stage, Stage::WaitingForAnswer));
    a.gate_load_all();
    assert!(a.is_direct(&"big.parquet|1234".to_string()));
    assert_eq!(
        effects(&mut a),
        vec![
            "SaveDirectFiles".to_string(),
            "SpawnGated { job: 0, layer_id: 0, opened: 77, tint: Palette(0), auto_project: true, flag: 0 }"
                .to_string()
        ]
    );
    // The answer stands: the file goes on at once the next time.
    let again = QualityGate {
        job, layer_id: 0, opened: 78, label: "big.parquet".to_string(), file_size: 1234,
        tint: geopq::session::Tint::Palette(0), auto_project: true,
    };
    poll(&mut a, vec![LoadMsg::Gated { gate: again }]);
    assert!(a.queue().gates.is_empty());
}

#[test]
fn an_abandoned_file_lets_the_others_load() {
    let mut a = app();
    let job = a.enqueue_load(source(0, "big"));
    a.enqueue_load(source(1, "b"));
    poll(&mut a, vec![LoadMsg::Gated { gate: QualityGate {
        job, layer_id: 0, opened: 77, label: "big".to_string(), file_size: 1,
        tint: geopq::session::Tint::Palette(0), auto_project: true,
    }}]);
    assert_eq!(a.queue().deferred.len(), 1);
    a.gate_cancel();
    assert!(a.queue().deferred.is_empty() && a.queue().gates.is_empty());
    assert!(a.errors().is_empty());
}

#[test]
fn picks_are_answered_in_order() {
    let mut a = with_layers(&[GeomKind::Line]);
    let first = a.start_pick();
    let second = a.start_pick();
    a.poll_pick_answer(first, Some(Picked { layer_id: 0, feature: 1 }), None);
    assert!(a.pick().pick_pending && a.pick().selection.is_none());
    a.poll_pick_answer(
        second,
        Some(Picked { layer_id: 0, feature: 2 }),
        Some(Capped { shown: 256, total: 900 }),
    );
    assert_eq!(a.pick().selection, Some(Picked { layer_id: 0, feature: 2 }));
    assert!(!a.pick().pick_pending && a.pick().highlight);
    a.apply_sql_selection(true);
    a.clear_selection();
    assert!(a.pick().selection.is_none() && !a.pick().highlight && a.pick().sql_highlight);
}

#[test]
fn removing_a_layer_stops_its_workers_and_its_selection() {
    let mut a = with_layers(&[GeomKind::Line, GeomKind::Line]);
    a.refine_layer(0, &vec![Hit { group: 1, covered: false }], 3);
    let flag = a.work().append_cancel[&0];
    let job = a.start_pick();
    a.poll_pick_answer(job, Some(Picked { layer_id: 0, feature: 2 }), None);
    a.remove_layer(0);
    assert_eq!(names(&a), vec![1]);
    assert!(a.is_stopped(flag));
    assert!(a.pick().selection.is_none());
    assert!(a.position(0).is_none());
    assert_eq!(a.position(1), Some(0));
}

#[test]
fn moving_a_layer_up_and_down_again_changes_nothing() {
    let mut a = with_layers(&[GeomKind::Line, GeomKind::Line, GeomKind::Line]);
    a.move_layer(0, true);
    assert_eq!(names(&a), vec![1, 0, 2]);
    a.move_layer(0, false);
    assert_eq!(names(&a), vec![0, 1, 2]);
    a.move_layer(0, false);
    a.move_layer(2, true);
    a.move_layer(9, true);
    assert_eq!(names(&a), vec![0, 1, 2]);
}

#[test]
fn a_layer_keeps_its_name_when_the_new_one_is_blank() {
    let mut a = with_layers(&[GeomKind::Line]);
    a.rename_layer(0, "  roads ");
    assert_eq!(a.layers()[0].name, "roads");
    a.rename_layer(0, "   ");
    assert_eq!(a.layers()[0].name, "roads");
}

#[test]
fn starting_over_leaves_a_blank_session() {
    let mut a = with_layers(&[GeomKind::Line]);
    assert!(a.can_reset());
    a.set_display(7);
    let mut v = a.settings();
    v.show_graticule = false;
    a.change_settings(v);
    a.fit_all();
    assert!(a.cam().camera_moved);
    a.enqueue_load(source(5, "x"));
    a.push_error("e".to_string());
    a.take_effects();
    a.reset_layout();
    assert!(a.layers().is_empty() && a.queue().loading.is_empty() && a.errors().is_empty());
    assert!(a.work().rebuilding.is_empty());
    assert_eq!(a.cam().display, DEFAULT_DISPLAY);
    assert!(a.cam().auto_projection && a.cam().pending_fit && a.settings().show_graticule);
    assert!(!a.cam().camera_moved);
    assert!(!a.can_reset());
    let e = effects(&mut a);
    assert_eq!(e[0], "DropSession");
    assert_eq!(e[e.len() - 1], "ReleaseMemory");
}

#[test]
fn a_filter_shows_the_rows_that_match_everywhere() {
    let mut a = with_layers(&[GeomKind::Line]);
    a.start_layer_filter(0, "pop > 3".to_string());
    assert!(a.work().filter_pending.contains(&0));
    assert!(effects(&mut a)[0].contains("use_boxes: true"));
    a.on_filter(FilterMsg {
        layer_id: 0,
        predicate: "pop > 3".to_string(),
        result: Ok(FilterRows { per_group: vec![vec![(0, 4)], vec![(1, 3)]], matched: 6 }),
    });
    assert!(!a.work().filter_pending.contains(&0));
    assert_eq!(a.layers()[0].feature_count, 6);
    assert_eq!(a.layers()[0].filter.as_ref().map(|f| f.sql.clone()), Some("pop > 3".to_string()));
    assert!(matches!(a.layers()[0].loaded[0], GroupLoad::Full));
    a.clear_layer_filter(0);
    assert!(a.layers()[0].filter.is_none());
    assert_eq!(a.layers()[0].feature_count, 8);
}

#[test]
fn a_filter_that_fails_is_reported_with_its_layer() {
    let mut a = with_layers(&[GeomKind::Line]);
    a.on_filter(FilterMsg {
        layer_id: 0,
        predicate: "x".to_string(),
        result: Err("no column x".to_string()),
    });
    assert_eq!(*a.errors(), vec!["filter on layer 0: no column x".to_string()]);
}

#[test]
fn a_tested_filter_is_applied_without_a_second_run() {
    let a = with_layers(&[GeomKind::Line]);
    let mut d = FilterDialog::open(&a, 0);
    assert!(!d.can_run(false));
    d.text = " pop > 3 ".to_string();
    assert!(d.can_run(false) && !d.can_run(true));
    let p = d.begin_test();
    assert_eq!(p, "pop > 3");
    assert!(d.testing && !d.can_run(false));
    d.on_test(FilterMsg {
        layer_id: 0,
        predicate: p,
        result: Ok(FilterRows { per_group: vec![vec![(0, 4)], vec![]], matched: 4 }),
    });
    assert!(matches!(d.note(), TestNote::Matches(_)));
    let (pred, rows) = d.apply();
    assert_eq!(pred, "pop > 3");
    assert_eq!(rows.map(|r| r.matched), Some(4));
}

#[test]
fn restyling_rebuilds_the_layer() {
    let mut a = with_layers(&[GeomKind::Line]);
    a.restyle_layer(0);
    assert!(a.work().rebuilding.contains(&0));
    assert_eq!(a.layers()[0].generation, 1);
}

#[test]
fn new_classes_rebuild_a_graduated_layer() {
    let mut a = with_layers(&[GeomKind::Line]);
    a.on_reclassified(0, false, None);
    a.on_reclassified(9, true, None);
    assert!(a.work().rebuilding.is_empty());
    a.on_reclassified(0, true, None);
    assert!(a.work().rebuilding.contains(&0));
    a.on_reclassified(0, true, Some("no values".to_string()));
    assert_eq!(*a.errors(), vec!["viewport reclassify: no values".to_string()]);
}

#[test]
fn a_pass_grows_a_layer_or_refines_it() {
    let mut ls = lines(3);
    ls[0].collection = true;
    ls[2].box_layer = true;
    let mut a = with(ls);
    let view = |group, box_scale| {
        Some(LayerView { hits: vec![Hit { group, covered: false }], rect: 8, box_scale })
    };
    let reads = a.refine_partial_layers(true, &vec![view(0, false), view(1, false), view(0, true)]);
    assert_eq!(reads.len(), 1);
    assert_eq!(reads[0].layer_id, a.layers()[1].id);
    assert_eq!(format!("{:?}", reads[0].selections), "[Rect(1, 8)]");
    assert!(a.work().part_appending.contains(&a.layers()[0].id));
    let e = effects(&mut a);
    assert!(e[0].starts_with("SpawnPartAppend") && e[1].starts_with("SpawnAppend"));
    assert_eq!(e.len(), 2);
    // Without a place on the globe, or a view, nothing is read.
    let mut ls = lines(1);
    ls[0].collection = true;
    let mut b = with(ls);
    assert!(b.refine_partial_layers(false, &vec![None]).is_empty());
    assert!(effects(&mut b).is_empty());
}

#[test]
fn panning_adds_no_rows_to_a_filtered_layer() {
    let mut a = with_layers(&[GeomKind::Line]);
    a.apply_filter_rows(
        0,
        "x".to_string(),
        FilterRows { per_group: vec![vec![(0, 4)], vec![(1, 3)]], matched: 6 },
    );
    let g = a.layers()[0].generation;
    poll(&mut a, vec![LoadMsg::Rebuilt {
        layer_id: 0, generation: g, geometry: 1, build_ms: 2, bad_geoms: 0,
    }]);
    assert!(a.refinable(0));
    let hits = vec![Hit { group: 0, covered: true }, Hit { group: 1, covered: true }];
    assert!(a.refine_layer(0, &hits, 3).is_empty());
    assert!(!a.work().appending.contains(&0));
}

#[test]
fn the_first_file_after_starting_over_is_framed() {
    let mut a = with_layers(&[GeomKind::Line]);
    a.fit_all();
    a.take_fits(true);
    a.reset_layout();
    assert_eq!(a.take_fits(false), vec![FitTarget::World]);
    let job = a.enqueue_load(source(7, "a"));
    poll(&mut a, vec![LoadMsg::Framed { job, display: Some(9), world: 5 }]);
    assert_eq!(a.cam().display, 9);
    assert_eq!(a.take_fits(false), vec![FitTarget::Frame(5)]);
}

#[test]
fn a_load_can_be_given_a_name() {
    let mut a = app();
    let job = a.enqueue_named(source(3, "f"), "grid 1".to_string());
    assert_eq!(a.queue().pending_names[&job], "grid 1");
    poll(&mut a, vec![loaded(job, layer(0, GeomKind::Polygon, &[4]), None)]);
    assert_eq!(a.layers()[0].name, "grid 1");
    assert!(a.queue().pending_names.is_empty());
}

#[test]
fn a_layer_is_hidden_and_shown() {
    let mut a = with_layers(&[GeomKind::Line]);
    a.show_layer(0, false);
    assert!(!a.layers()[0].visible && !a.is_on_map(0));
    a.show_layer(9, true);
    a.show_layer(0, true);
    assert!(a.is_on_map(0));
}

#[test]
fn a_layer_being_rebuilt_is_not_fitted_to() {
    let mut a = with(lines(3));
    assert_eq!(a.settled_layers(), vec![0, 1, 2]);
    a.restyle_layer(1);
    assert_eq!(a.settled_layers(), vec![0, 2]);
    a.set_display(7);
    assert!(a.settled_layers().is_empty());
}

#[test]
fn stopping_one_stops_no_other() {
    let mut a = with(lines(3));
    let (first, second) = (a.enqueue_load(source(7, "a")), a.enqueue_load(source(8, "b")));
    a.restyle_layer(0);
    a.restyle_layer(1);
    assert!(!a.load_all_rows(2).is_empty());
    let all = [
        a.queue().loading[&first].flag,
        a.queue().loading[&second].flag,
        a.work().rebuild_cancel[&0],
        a.work().rebuild_cancel[&1],
        a.work().append_cancel[&2],
    ];
    let up = |a: &ViewerApp| all.map(|f| a.is_stopped(f));
    assert_eq!(up(&a), [false, false, false, false, false]);
    a.stop_load(second);
    assert_eq!(up(&a), [false, true, false, false, false]);
    a.remove_layer(0);
    assert_eq!(up(&a), [false, true, true, false, false]);
    a.stop_append(2);
    assert_eq!(up(&a), [false, true, true, false, true]);
    a.restyle_layer(2);
    a.camera_pose_changed();
    assert_eq!(up(&a), [false, true, true, false, true]);
    a.restyle_layer(1);
    assert_eq!(up(&a), [false, true, true, true, true]);
}
