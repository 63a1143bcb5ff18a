use geopq::layers::{all_full, GeomKind, GroupCounts, GroupLoad, Layer};
use geopq::map::{
    basemap_note, basemap_plan, box_label, boxes_numbered, boxes_style, coastline_style, credit_colors,
    graticule_style, highlight_style, map_background, section_key, sql_highlight_style, BasemapPlan,
    DrawItem, Ink, Rgba8, WarpPlan, COASTLINE_KEY, GRATICULE_KEY, HIGHLIGHT_KEY, RG_OVERLAY_BASE,
    SQL_HIGHLIGHT_KEY,
};
use geopq::panel::{
    classes_stale, deferred_note, direct_note, export_hint, filter_summary, layer_summary,
    outlines_need_rebuild, partial_note,
};
use geopq::loader::LoadMsg;
use geopq::session::{Picked, SourceInfo, ViewerApp};
use geopq::svg::{
    bin_step, boxed_features, build_svg, collect_features, geometry_rows, row_group, svg_bins,
    svg_file_name, svg_overlays, visible_features, BinStep, Found, SvgFeature, SvgLayer,
};
use std::collections::{HashSet, VecDeque};

fn layer(id: u64) -> Layer {
    Layer {
        id,
        name: format!("layer {id}"),
        kind: GeomKind::Polygon,
        direct: false,
        visible: true,
        box_layer: false,
        show_boxes: false,
        collection: false,
        generation: 3,
        draw_gen: 2,
        sections: 2,
        loaded: all_full(1),
        starts: vec![0, 10],
        boxes: Some(1),
        feature_count: 10,
        filter: None,
        build_ms: 0,
        bad_geoms: 0,
        files: 1,
        style: 0,
        credit: None,
    }
}

fn app(layers: Vec<Layer>) -> ViewerApp {
    let mut a = ViewerApp::new(Vec::new(), VecDeque::new());
    for layer in layers {
        let source = SourceInfo { handle: layer.id, label: "f".to_string(), theme: None };
        let job = a.enqueue_load(source);
        let m = LoadMsg::Loaded { job, layer, geometry: job, adopt: None };
        a.poll_loader(vec![m].into_iter().collect());
    }
    a
}

#[test]
fn credits_stay_legible_over_any_basemap() {
    /// Composite a translucent colour over an opaque grey level.
    fn over(c: Rgba8, under: f32) -> f32 {
        let a = c.a as f32 / 255.0;
        c.r as f32 + under * (1.0 - a)
    }
    /// WCAG relative luminance of a grey level, then contrast ratio.
    fn lum(v: f32) -> f32 {
        let s = v / 255.0;
        if s <= 0.04045 { s / 12.92 } else { ((s + 0.055) / 1.055).powf(2.4) }
    }
    fn ratio(a: f32, b: f32) -> f32 {
        let (hi, lo) = (lum(a).max(lum(b)), lum(a).min(lum(b)));
        (hi + 0.05) / (lo + 0.05)
    }

    for dark in [false, true] {
        let (fg, bg) = credit_colors(dark);
        for map in [0.0f32, 255.0] {
            let plate = over(bg, map);
            let text = over(fg, plate);
            let r = ratio(text, plate);
            assert!(
                r >= 4.5,
                "dark={dark} over map={map}: contrast {r:.2} \
                 (text {text:.0} on plate {plate:.0}), want >= 4.5",
            );
        }
    }
}

#[test]
fn overlays_have_their_styles() {
    let clear = Ink { r: 0, g: 0, b: 0, a: 0 };
    let g = graticule_style(true);
    assert_eq!((g.line, g.line_half_width, g.fill), (Ink { r: 42, g: 42, b: 42, a: 45 }, 40, clear));
    assert_eq!(graticule_style(false).line, Ink { r: 55, g: 55, b: 55, a: 45 });
    assert_eq!(coastline_style(true).line, Ink { r: 62, g: 66, b: 70, a: 85 });
    assert_eq!(coastline_style(false).line_half_width, 50);
    assert_eq!(boxes_style().line, Ink { r: 95, g: 55, b: 10, a: 90 });
    assert_eq!(sql_highlight_style().fill, Ink { r: 5, g: 75, b: 95, a: 35 });
    assert_eq!(highlight_style().point_radius, 600);
    assert_ne!(map_background(true), map_background(false));
}

#[test]
fn section_keys_tell_layers_and_sections_apart() {
    let mut seen = HashSet::new();
    for layer in [0u64, 1, 2, 1 << 39] {
        for section in [0usize, 1, 2, 1000] {
            assert!(seen.insert(section_key(layer, section)));
        }
    }
    for key in [HIGHLIGHT_KEY, SQL_HIGHLIGHT_KEY, GRATICULE_KEY, COASTLINE_KEY] {
        assert!(!seen.contains(&key));
    }
}

#[test]
fn the_map_is_drawn_from_the_bottom_up() {
    let mut boxed = layer(4);
    boxed.show_boxes = true;
    let mut hidden = layer(5);
    hidden.visible = false;
    let mut a = app(vec![boxed, hidden, layer(6)]);
    let job = a.start_pick();
    a.poll_pick_answer(job, Some(Picked { layer_id: 4, feature: 0 }), None);
    a.apply_sql_selection(true);
    let items: Vec<DrawItem> = a.draw_list(true, true).iter().map(|d| d.item).collect();
    assert_eq!(
        items,
        vec![
            DrawItem::Graticule,
            DrawItem::Coastline,
            DrawItem::Section { layer_id: 4, section: 0 },
            DrawItem::Section { layer_id: 4, section: 1 },
            DrawItem::Section { layer_id: 6, section: 0 },
            DrawItem::Section { layer_id: 6, section: 1 },
            DrawItem::RowGroupBoxes { layer_id: 4 },
            DrawItem::SqlHighlight,
            DrawItem::Highlight,
        ]
    );
    a.restyle_layer(6);
    assert!(!a.is_on_map(2));
    assert_eq!(a.draw_list(false, false).len(), 5);
    assert!(a.keeps_overlay(4) && !a.keeps_overlay(6));
}

#[test]
fn what_is_drawn_of_a_layer_is_kept() {
    let a = app(vec![layer(4)]);
    let alive = a.alive_keys();
    for d in a.draw_list(false, false) {
        assert!(alive.contains(&(d.key, d.generation)));
    }
    assert!(alive.contains(&(RG_OVERLAY_BASE | 4, 3)));
}

#[test]
fn each_credit_is_given_once() {
    let mut x = layer(0);
    x.credit = Some("© A".to_string());
    let mut y = layer(1);
    y.credit = Some("© A".to_string());
    let mut z = layer(2);
    z.credit = Some("© B".to_string());
    let mut off = layer(3);
    off.visible = false;
    off.credit = Some("© C".to_string());
    let a = app(vec![x, y, z, off]);
    assert_eq!(a.credits(Some("© tiles")), vec!["© tiles", "© A", "© B"]);
    assert_eq!(a.credits(None), vec!["© A", "© B"]);
}

#[test]
fn row_group_boxes_are_numbered_up_to_sixty_four() {
    assert!(boxes_numbered(64) && !boxes_numbered(65));
    assert_eq!(box_label(7), "rg 7");
}

#[test]
fn the_basemap_falls_back_to_its_label_free_twin() {
    let warp = |labels_survive| Ok(WarpPlan { handle: 9, labels_survive });
    assert_eq!(basemap_plan(None, true, warp(true), true, None).drawn_source(), None);
    assert_eq!(basemap_plan(Some(2), true, warp(false), true, None).drawn_source(), Some(2));
    assert_eq!(basemap_plan(Some(2), false, warp(true), true, Some(3)).drawn_source(), Some(2));
    assert_eq!(basemap_plan(Some(2), false, warp(false), false, Some(3)).drawn_source(), Some(2));
    let twin = basemap_plan(Some(2), false, warp(false), true, Some(3));
    assert_eq!(twin.drawn_source(), Some(3));
    assert_eq!(basemap_note(&twin, Some(2), "no labels"), Some("drawn as no labels".to_string()));
    let off = basemap_plan(Some(2), false, warp(false), true, None);
    assert_eq!(off.drawn_source(), None);
    assert!(basemap_note(&off, Some(2), "").unwrap().contains("would shear"));
    let none = basemap_plan(Some(2), false, Err("too far".to_string()), true, None);
    assert_eq!(basemap_note(&none, Some(2), ""), Some("too far".to_string()));
    assert_eq!(basemap_note(&BasemapPlan::Mercator(2), Some(2), ""), None);
}

#[test]
fn a_basemap_switched_off_comes_back_on() {
    let mut a = app(Vec::new());
    let mut v = a.settings();
    v.select_basemap(Some(4));
    v.toggle_basemap(false);
    assert_eq!(v.basemap, None);
    v.toggle_basemap(true);
    assert_eq!(v.basemap, Some(4));
    v.select_basemap(None);
    a.change_settings(v);
    assert_eq!((a.settings().basemap, a.settings().last_basemap), (None, 4));
}

#[test]
fn drawings_are_named_after_their_layer() {
    assert_eq!(svg_file_name("roads.parquet"), "roads.svg");
    assert_eq!(svg_file_name("s3://bucket/my roads.parquet"), "my_roads.svg");
    assert_eq!(svg_file_name("c:\\data\\été.parquet"), "été.svg");
    assert_eq!(svg_file_name("???"), "geopq-map.svg");
    assert_eq!(svg_file_name(""), "geopq-map.svg");
}

#[test]
fn a_feature_found_twice_is_drawn_once_in_row_order() {
    let f = |row, bbox| Found { row, bbox };
    let seen = visible_features(&vec![f(7, 1), f(2, 2), f(7, 3)]);
    assert_eq!(seen.iter().map(|x| x.row).collect::<Vec<u32>>(), vec![2, 7]);
}

#[test]
fn rows_belong_to_their_group() {
    let starts = vec![0, 4, 4, 9];
    assert_eq!(row_group(&starts, 0), 0);
    assert_eq!(row_group(&starts, 3), 0);
    assert_eq!(row_group(&starts, 4), 2);
    assert_eq!(row_group(&starts, 8), 2);
}

#[test]
fn boxed_groups_are_exported_as_boxes() {
    let items = vec![Found { row: 1, bbox: 11 }, Found { row: 5, bbox: 15 }, Found { row: 6, bbox: 16 }];
    let boxed = boxed_features(&items, &vec![0, 4, 9], &vec![GroupLoad::Boxes, GroupLoad::Full]);
    assert_eq!(boxed, vec![true, false, false]);
    assert_eq!(geometry_rows(&items, &boxed), vec![5, 6]);
    let read: HashSet<u32> = [6u32].into_iter().collect();
    assert_eq!(
        collect_features(&items, &boxed, &read, &Some(vec![3, 4, 5])),
        vec![
            SvgFeature::Box { bbox: 11, bin: 3 },
            SvgFeature::Geometry { row: 6, bbox: 16, bin: 5 }
        ]
    );
}

#[test]
fn classes_are_read_where_the_layer_is_styled() {
    assert_eq!(bin_step(false, true, 3), BinStep::Plain);
    assert_eq!(bin_step(true, false, 3), BinStep::Plain);
    assert_eq!(bin_step(true, true, 0), BinStep::Empty);
    assert_eq!(bin_step(true, true, 3), BinStep::Read);
    assert_eq!(svg_bins(vec![1, 2], 2, false), Ok(vec![1, 2]));
    assert_eq!(svg_bins(vec![1, 2], 2, true), Ok(vec![1, 2]));
    for per_area in [false, true] {
        assert_eq!(
            svg_bins(vec![1, 2], 3, per_area),
            Err("style column returned 2 values for 3 rows".to_string())
        );
    }
    assert_eq!(svg_bins(vec![1, 2], 1, true), Err("row/batch count mismatch".to_string()));
    assert_eq!(
        svg_bins(vec![1, 2], 1, false),
        Err("style column returned 2 values for 1 rows".to_string())
    );
}

#[test]
fn a_layer_that_failed_is_reported_and_left_out() {
    let l = |name: &str, failed: Option<&str>, decimated| SvgLayer {
        name: name.to_string(),
        credit: Some("© A".to_string()),
        decimated,
        failed: failed.map(|s| s.to_string()),
    };
    let t = build_svg(&vec![l("roads", None, true), l("towns", Some("timeout"), false)]);
    assert_eq!(t.drawn, vec![0]);
    assert_eq!(t.name, "roads.svg");
    assert_eq!(t.credits, vec!["© A"]);
    assert_eq!(t.warnings, vec!["SVG export, layer towns: timeout"]);
    assert_eq!(t.notes.len(), 3);
    assert!(t.notes[0].contains("raster basemap is not part of this file"));
    assert!(t.notes[1].contains("decimated preview"));
    assert_eq!(t.notes[2], "Layer \"towns\" is missing from this file: timeout");
    assert_eq!(build_svg(&Vec::new()).name, "geopq-map.svg");
}

#[test]
fn overlays_are_drawn_below_the_layers() {
    let o = svg_overlays(true, true, false);
    assert_eq!(o.iter().map(|x| x.0).collect::<Vec<&str>>(), vec!["graticule", "coastline"]);
    assert_eq!(o[0].1, graticule_style(false));
    assert_eq!(svg_overlays(false, true, true)[0].0, "coastline");
    assert!(svg_overlays(false, false, true).is_empty());
}

#[test]
fn an_export_needs_an_area_and_takes_what_is_on_the_map() {
    let mut hidden = layer(1);
    hidden.visible = false;
    let mut thin = layer(2);
    thin.loaded = vec![GroupLoad::Preview { stride: 8 }];
    let a = app(vec![layer(0), hidden, thin]);
    assert_eq!(a.begin_svg_export(true), Ok(vec![0, 2]));
    assert_eq!(
        a.begin_svg_export(false),
        Err("the map panel has no area to export".to_string())
    );
    assert!(a.is_decimated(2) && !a.is_decimated(0));
}

#[test]
fn layers_say_what_they_hold() {
    assert_eq!(layer_summary(12_345, "polygons", "WGS 84"), "12k polygons · WGS 84");
    assert_eq!(filter_summary(12, 40_000), "filter: 12 of 40k rows");
    assert_eq!(
        direct_note(7),
        "loaded fully (7 rows) — unoptimized file, viewport loading unavailable"
    );
    assert_eq!(deferred_note(9, None), "viewport too dense to refine (≥9 rows)\nzoom in");
    assert_eq!(
        deferred_note(9, Some("3 MB")),
        "real geometry here is 3 MB (9 features)\nzoom in further"
    );
}

#[test]
fn a_partly_loaded_layer_says_so() {
    let c = |full, preview, boxes, rows| GroupCounts { full, preview, boxes, rows, total: 9 };
    assert_eq!(partial_note(c(2, 0, 0, 0), 5, true, false).text, "partial: 2/9 row groups loaded");
    assert_eq!(
        partial_note(c(2, 0, 0, 3), 5, true, false).text,
        "partial: 2/9 row groups full, 3 viewport-filtered"
    );
    assert!(partial_note(c(0, 4, 0, 0), 5, true, false).attention);
    assert!(!partial_note(c(0, 4, 0, 0), 5, false, false).attention);
    assert!(partial_note(c(0, 0, 4, 0), 5, true, true).text.starts_with("all 5 features drawn"));
    assert!(partial_note(c(0, 0, 4, 0), 5, true, false).text.contains("(4 of 9 row groups)"));
    assert!(partial_note(c(0, 0, 4, 0), 5, false, false).text.starts_with("viewport loaded"));
}

#[test]
fn classes_go_stale_when_a_quarter_changed() {
    assert!(!classes_stale(100, 125));
    assert!(classes_stale(100, 126));
    assert!(classes_stale(100, 74));
    assert!(classes_stale(0, 1));
    assert!(!classes_stale(0, 0));
    assert!(classes_stale(1, u64::MAX));
}

#[test]
fn outlines_switched_on_need_meshes_under_a_colour_map() {
    assert!(outlines_need_rebuild(false, true, true));
    assert!(!outlines_need_rebuild(false, true, false));
    assert!(!outlines_need_rebuild(true, true, true));
    assert!(!outlines_need_rebuild(true, false, true));
}

#[test]
fn the_export_offer_depends_on_the_layer() {
    assert!(export_hint(false, true).contains("multi-file"));
    assert!(export_hint(true, true).starts_with("Materialize"));
    assert!(export_hint(true, false).starts_with("Rewrite"));
}

#[test]
fn copies_are_freed_once_they_are_uploaded() {
    let mut a = app(vec![layer(4)]);
    assert_eq!(a.strip_uploaded(0, &vec![true, false], &Vec::new()), vec![0]);
    assert_eq!(a.strip_uploaded(0, &vec![true, true], &vec![(section_key(4, 0), 2)]), vec![1]);
    // Another generation of the section is another copy.
    assert_eq!(a.strip_uploaded(0, &vec![true, true], &vec![(section_key(4, 0), 1)]), vec![0, 1]);
    a.restyle_layer(4);
    assert!(a.strip_uploaded(0, &vec![true, true], &Vec::new()).is_empty());
}
