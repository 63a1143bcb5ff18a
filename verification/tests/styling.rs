use geopq::styling::{
    categorical_labels, choose_labels, no_classes_text, ActiveStyle, CategoryScans, Graduation,
    StyleDefaults, THICK, THIN, graduated_labels, is_hidden, legend_title, needs_rebuild,
    reclassify_step, sample_rows, tidy_number, toggle_bin, ClassMethod, ColumnFacts, ReclassFacts,
    ReclassStep, StyleDialog, StyleStep,
};

fn list(v: &[&str]) -> Vec<String> {
    v.iter().map(|s| s.to_string()).collect()
}

use geopq::grids::ValueColumn;

fn dialog() -> StyleDialog {
    StyleDialog {
        layer_id: 3,
        column: "pop".to_string(),
        numeric: true,
        ramp: 1,
        method: ClassMethod { code: 2, needs_values: true },
        classes: 5,
        per_area: false,
        min: 0,
        max: 0,
        breaks: None,
        categories: None,
        color_map: None,
        use_color_map: true,
        width_by: false,
        width_min: 0,
        width_max: 0,
    }
}

#[test]
fn a_selected_column_is_classified_from_a_sample() {
    let mut d = dialog();
    let f = ColumnFacts { numeric: Some(true), indexed: true, map: Some(9) };
    assert_eq!(d.select_column(f, Some((7, 8))), StyleStep::Classify { rows: 50_000 });
    assert_eq!((d.min, d.max, d.color_map), (7, 8, None));
    d.per_area = true;
    assert_eq!(d.select_column(f, None), StyleStep::Classify { rows: 20_000 });
    d.per_area = false;
    d.method.needs_values = false;
    assert_eq!(d.select_column(f, None), StyleStep::Bounds);
    let text = ColumnFacts { numeric: Some(false), indexed: true, map: Some(9) };
    assert_eq!(d.select_column(text, Some((1, 2))), StyleStep::Nothing);
    assert_eq!((d.min, d.color_map, d.numeric), (7, Some(9), false));
    let gone = ColumnFacts { numeric: None, indexed: false, map: None };
    assert_eq!(d.select_column(gone, None), StyleStep::Nothing);
    assert_eq!(d.color_map, Some(9));
    assert_eq!((sample_rows(false), sample_rows(true)), (50_000, 20_000));
}

#[test]
fn classes_for_another_column_are_dropped() {
    let mut d = dialog();
    d.on_classes(3, "area", Ok(vec![1]));
    d.on_classes(4, "pop", Ok(vec![1]));
    assert!(d.breaks.is_none() && !d.ready());
    d.on_classes(3, "pop", Err("no values".to_string()));
    assert!(!d.ready());
    d.on_classes(3, "pop", Ok(vec![1, 2]));
    assert!(d.ready());
    assert_eq!(d.preview_classes(), 3);
    d.breaks = Some(Ok(Vec::new()));
    assert_eq!(d.preview_classes(), 2);
    d.breaks = None;
    assert_eq!(d.preview_classes(), 5);
}

#[test]
fn categories_bring_their_colour_map() {
    let mut d = dialog();
    d.numeric = false;
    assert!(d.wants_categories());
    d.on_categories(3, "pop", Ok(list(&["a", "b"])), Some(4));
    assert!(d.ready() && !d.wants_categories());
    assert_eq!(d.color_map, Some(4));
    let c = d.apply(10);
    assert!(!c.graduated);
    assert_eq!(c.map, Some(4));
    d.use_color_map = false;
    let c = d.apply(10);
    assert_eq!(c.hidden_bins, 0);
    assert_eq!((c.values, c.map), (list(&["a", "b"]), None));
    d.on_categories(3, "pop", Err("x".to_string()), Some(4));
    assert_eq!(d.color_map, None);
    d.adopt_map(6);
    assert!(d.use_color_map && d.ready());
}

#[test]
fn swapping_a_ramp_needs_no_new_meshes() {
    assert!(!needs_rebuild(Some("pop"), "pop", true));
    assert!(needs_rebuild(Some("pop"), "pop", false));
    assert!(needs_rebuild(Some("area"), "pop", true));
    assert!(needs_rebuild(None, "pop", true));
}

#[test]
fn a_viewport_without_data_cannot_be_classified() {
    let all = ReclassFacts { graduated: true, per_area: false, mapped: true, boxed: true, touched: true };
    assert!(matches!(reclassify_step("l", all), ReclassStep::Sample { rows: 50_000 }));
    let error = |f| match reclassify_step("l", f) {
        ReclassStep::Error(e) => e,
        other => panic!("{other:?}"),
    };
    assert_eq!(
        error(ReclassFacts { mapped: false, ..all }),
        "l: viewport does not map into the layer's CRS"
    );
    assert!(error(ReclassFacts { boxed: false, ..all }).starts_with("l: no row-group spatial extents"));
    assert_eq!(
        error(ReclassFacts { touched: false, ..all }),
        "l: no data under the current viewport"
    );
    assert!(matches!(
        reclassify_step("l", ReclassFacts { graduated: false, ..all }),
        ReclassStep::Nothing
    ));
}

#[test]
fn hiding_a_class_twice_shows_it_again() {
    let m = toggle_bin(0, 3);
    assert_eq!(m, 8);
    assert!(is_hidden(m, 3) && !is_hidden(m, 2));
    assert_eq!(toggle_bin(m, 3), 0);
    assert_eq!(toggle_bin(1, 63), (1u64 << 63) | 1);
}

#[test]
fn classes_are_labelled_by_their_breaks() {
    assert_eq!(graduated_labels(&list(&["1", "5", "9"])), list(&["< 1", "1 – 5", "5 – 9", "≥ 9"]));
    assert!(graduated_labels(&Vec::new()).is_empty());
    assert_eq!(
        categorical_labels(&list(&["111", "112", "113"]), &Some(list(&["Urban", "Fabric"]))),
        list(&["Urban", "Fabric", "113", "(other)"])
    );
    assert_eq!(categorical_labels(&list(&["a"]), &None), list(&["a", "(other)"]));
    assert_eq!(legend_title("pop", true, "km²"), "legend — pop / km²");
    assert_eq!(legend_title("pop", false, "km²"), "legend — pop");
}

#[test]
fn numbers_lose_the_zeros_at_their_end() {
    assert_eq!(tidy_number("42.20", "k"), "42.2k");
    assert_eq!(tidy_number("718.00", "k"), "718k");
    assert_eq!(tidy_number("100", ""), "100");
    assert_eq!(tidy_number("0.00123", ""), "0.00123");
}

#[test]
fn close_breaks_get_the_precision_that_tells_them_apart() {
    let lists = vec![
        list(&["42.2k", "42.2k", "99k"]),
        list(&["42.21k", "42.26k", "99k"]),
        list(&["42.210k", "42.260k", "99k"]),
    ];
    assert_eq!(choose_labels(&lists, &vec![false, false]), 1);
    assert_eq!(choose_labels(&lists, &vec![true, false]), 0);
    let same = vec![list(&["1", "1"]), list(&["1", "1"])];
    assert_eq!(choose_labels(&same, &vec![false]), 1);
}

#[test]
fn the_dialog_opens_on_the_style_in_use() {
    let cols = |v: &[(&str, bool)]| -> Vec<ValueColumn> {
        v.iter().map(|(n, numeric)| ValueColumn { name: n.to_string(), numeric: *numeric }).collect()
    };
    let equal = ClassMethod { code: 0, needs_values: false };
    let defaults = StyleDefaults { ramp: 9, method: equal };
    let open = |c: &Vec<ValueColumn>, a: &Option<ActiveStyle>| StyleDialog::open(3, "roads", c, a, defaults);
    assert_eq!(open(&Vec::new(), &None).unwrap_err(), "roads: no styleable columns");
    let mixed = cols(&[("name", false), ("pop", true)]);
    let d = open(&mixed, &None).unwrap();
    assert_eq!((d.column.as_str(), d.ramp, d.classes, d.per_area), ("pop", 9, 8, false));
    assert_eq!((f64::from_bits(d.min), f64::from_bits(d.max)), (0.0, 1.0));
    assert_eq!((f32::from_bits(d.width_min), f32::from_bits(d.width_max)), (0.6, 4.0));
    assert_eq!(open(&cols(&[("name", false)]), &None).unwrap().column, "name");
    let quantile = ClassMethod { code: 1, needs_values: true };
    let active = Some(ActiveStyle {
        column: "name".to_string(),
        ramp: 4,
        per_area: true,
        graduated: Some(Graduation { method: quantile, breaks: 4 }),
        width: Some((THIN, THICK)),
    });
    let d = open(&mixed, &active).unwrap();
    assert_eq!((d.column.as_str(), d.ramp, d.classes, d.method), ("name", 4, 5, quantile));
    assert!(d.per_area && d.width_by);
    assert_eq!(no_classes_text("/x.txt"), "/x.txt: no colour classes found");
}

#[test]
fn the_values_of_a_column_are_read_once() {
    let mut s = CategoryScans::new();
    assert!(s.begin(1, "kind"));
    assert!(!s.begin(1, "kind"));
    assert!(s.begin(2, "kind") && s.begin(1, "name"));
    assert!(!s.begin(2, "kind"));
}
