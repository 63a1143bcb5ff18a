use geopq::catalogs::{
    count_label, dcat_hover, download_name, download_step, format_badges, no_place_text, is_web_address, nothing_openable, row_order, sort_catalogs,
    Catalog, CatalogBrowser, DcatCatalog, DcatDataset, DcatFormat, Distribution, DownloadStep, ExtentText, PortalOpen,
    Selected,
};
use geopq::repos::{
    countries, country_note, country_theme_size, country_themes, dataset_label, dataset_title,
    parts_note, too_large_note, CountryPanel, RepoPane, SelectedDataset, loadable_themes, plan_country, plan_dataset, theme_size,
    CountryTheme, Dataset, Manifest, ReadManifest, RepoBrowser, RepoKind, RepoMsg, Repository, Snapshot,
    ThemeCount,
};

fn catalog(name: &str, url: &str) -> Catalog {
    Catalog { name: name.to_string(), url: url.to_string(), added_on: None }
}

fn names(v: &[Catalog]) -> Vec<&str> {
    v.iter().map(|c| c.name.as_str()).collect()
}

fn list(v: &[&str]) -> Vec<String> {
    v.iter().map(|s| s.to_string()).collect()
}

fn dataset(title: &str, formats: &[DcatFormat]) -> DcatDataset {
    DcatDataset {
        title: title.to_string(),
        description: String::new(),
        keywords: Vec::new(),
        publisher: None,
        license: None,
        extent: None,
        modified: None,
        distributions: formats
            .iter()
            .map(|f| Distribution {
                format: *f,
                label: format!("{f:?}"),
                url: format!("https://x/{title}"),
            })
            .collect(),
    }
}

#[test]
fn catalogs_are_filed_alphabetically_whatever_their_case() {
    let v = sort_catalogs(vec![
        catalog("boston", "1"),
        catalog("Austin", "2"),
        catalog("Élan", "3"),
        catalog("BOSTON", "4"),
    ]);
    assert_eq!(names(&v), vec!["Austin", "boston", "BOSTON", "Élan"]);
}

#[test]
fn a_catalog_kept_for_good_stays_selected() {
    let mut b = CatalogBrowser::open(
        vec![catalog("austin", "a"), catalog("denver", "d")],
        vec![catalog("x", "x"), catalog("Boston", "b"), catalog("y", "y")],
    );
    b.select(Selected { saved: false, index: 1 });
    b.save_for_good_at(1, Some(77));
    assert_eq!(names(&b.saved), vec!["austin", "Boston", "denver"]);
    assert_eq!(b.saved[1].added_on, Some(77));
    assert_eq!(b.selected_catalog().map(|c| c.url.as_str()), Some("b"));
    b.select(Selected { saved: false, index: 1 });
    b.save_for_good(0);
    assert_eq!(b.selected_catalog().map(|c| c.url.as_str()), Some("y"));
    let stamp = b.saved[3].added_on.unwrap();
    assert!(stamp > 1_700_000_000, "{stamp}");
}

#[test]
fn forgetting_a_catalog_moves_the_selection() {
    let mut b = CatalogBrowser::open(vec![catalog("a", "a"), catalog("b", "b"), catalog("c", "c")], vec![]);
    b.select(Selected { saved: true, index: 2 });
    b.forget(true, 0);
    assert_eq!(b.selected_catalog().map(|c| c.url.as_str()), Some("c"));
    b.forget(true, 1);
    assert!(b.selected_catalog().is_none() && b.sel.is_none());
}

#[test]
fn a_portal_is_opened_once() {
    let mut b = CatalogBrowser::open(vec![catalog("s", "https://saved.org")], Vec::new());
    b.open_portal(" https://data.city.gov/data.json/ ");
    assert_eq!(b.session.len(), 1);
    assert_eq!((b.session[0].name.as_str(), b.session[0].url.as_str()),
        ("data.city.gov", "https://data.city.gov"));
    b.open_portal("https://data.city.gov");
    assert_eq!(b.session.len(), 1);
    assert_eq!(b.sel, Some(Selected { saved: false, index: 0 }));
    b.open_portal("https://saved.org/");
    assert_eq!(b.sel, Some(Selected { saved: true, index: 0 }));
}

#[test]
fn a_late_catalog_is_dropped() {
    let mut b = CatalogBrowser::open(Vec::new(), vec![catalog("x", "https://x")]);
    assert!(b.begin_fetch().is_none());
    b.select(Selected { saved: false, index: 0 });
    let (g, url) = b.begin_fetch().unwrap();
    assert_eq!(url, "https://x");
    let cat = |t: &str| DcatCatalog {
        title: Some(t.to_string()),
        datasets: vec![dataset("Parks", &[DcatFormat::GeoJson])],
        hidden: 0,
        truncated: false,
    };
    b.on_catalog(g - 1, Ok(cat("old")));
    assert!(b.dcat.is_none());
    b.on_catalog(g, Ok(cat("City")));
    assert_eq!(b.session[0].name, "City");
    assert_eq!(b.shown(), vec![0]);
}

#[test]
fn datasets_are_searched_and_ticked() {
    let mut b = CatalogBrowser::open(Vec::new(), vec![catalog("x", "https://x")]);
    b.select(Selected { saved: false, index: 0 });
    let (g, _) = b.begin_fetch().unwrap();
    let mut tagged = dataset("Trees", &[DcatFormat::Csv]);
    tagged.keywords = list(&["FOREST"]);
    b.on_catalog(g, Ok(DcatCatalog {
        title: None,
        datasets: vec![
            dataset("Parks", &[DcatFormat::GeoJson]),
            tagged,
            dataset("Rivers", &[DcatFormat::GeoParquet, DcatFormat::Csv]),
        ],
        hidden: 0,
        truncated: false,
    }));
    assert_eq!(b.shown(), vec![0, 1, 2]);
    b.filter = "forest".to_string();
    assert_eq!(b.shown(), vec![1]);
    b.filter = "".to_string();
    b.geo_only = true;
    assert_eq!(b.shown(), vec![0, 2]);
    b.toggle(2, true);
    b.toggle(0, true);
    b.toggle(2, true);
    assert_eq!(b.take_checked(), vec![0, 2]);
    assert!(b.take_checked().is_empty());
    assert!(matches!(b.open_dataset(0), PortalOpen::Download { .. }));
    assert!(matches!(b.open_dataset(1), PortalOpen::Table { .. }));
    assert!(matches!(b.open_dataset(2), PortalOpen::Layer { .. }));
    assert!(matches!(b.open_dataset(3), PortalOpen::Nothing));
}

#[test]
fn a_dataset_tells_about_itself() {
    let mut d = dataset("Parks", &[DcatFormat::GeoPackage, DcatFormat::Csv]);
    assert_eq!(dcat_hover(&d), "");
    d.description = "x".repeat(401);
    d.publisher = Some("City".to_string());
    d.license = Some("CC BY".to_string());
    d.extent = Some(ExtentText {
        west: "1".to_string(), south: "2".to_string(), east: "3".to_string(), north: "4".to_string(),
    });
    d.keywords = list(&["a", "b"]);
    assert_eq!(
        dcat_hover(&d),
        format!(
            "{}…\n\nPublisher: City\nLicense: CC BY\nExtent: 1, 2 → 3, 4\nKeywords: a, b",
            "x".repeat(400)
        )
    );
    assert_eq!(format_badges(&d), "GeoPackage · Csv");
    assert_eq!(count_label(1, "Open ", "dataset"), "Open 1 dataset");
    assert_eq!(count_label(3, "", "dataset"), "3 datasets");
    assert!(nothing_openable(7).starts_with("none of this catalog's 7 datasets"));
    assert!(is_web_address("http://x") && !is_web_address("s3://x"));
    assert_eq!(row_order(&vec![true, false, true, false]), vec![1, 3, 0, 2]);
    assert!(DcatFormat::GeoJson.needs_download() && !DcatFormat::Csv.needs_download());
}

#[test]
fn a_dataset_downloaded_before_is_not_fetched_again() {
    assert_eq!(download_step(false, true), DownloadStep::NoPlace);
    assert_eq!(download_step(true, true), DownloadStep::Import);
    assert_eq!(download_step(true, false), DownloadStep::Fetch);
    assert_eq!(download_name("city-parks", "gpkg"), "city-parks.gpkg");
    assert!(no_place_text().starts_with("no config directory"));
}

// --- repositories -------------------------------------------------------------------------

fn snapshot(path: &str) -> Snapshot {
    Snapshot { label: path.to_string(), path: path.to_string() }
}

fn browser() -> RepoBrowser {
    RepoBrowser::open(
        vec![Repository {
            name: "R".to_string(),
            url: "https://r.org/".to_string(),
            kind: RepoKind::Parquetry,
        }],
        snapshot("latest"),
    )
}

fn state(name: &str, code: &str, path: &str) -> Dataset {
    Dataset { name: name.to_string(), code: code.to_string(), path: path.to_string() }
}

fn count(theme: &str, count: u64) -> ThemeCount {
    ThemeCount { theme: theme.to_string(), count }
}

#[test]
fn answers_to_an_earlier_request_change_nothing() {
    let mut b = browser();
    let first = b.refetch();
    assert_eq!((first.base.as_str(), first.snapshot.as_str()), ("https://r.org", "latest"));
    let second = b.refetch();
    b.on_message(RepoMsg::Datasets(first.generation, Ok(vec![state("Utah", "UT", "p")]), Some(1)));
    assert!(b.datasets.is_none());
    b.on_message(RepoMsg::Datasets(second.generation, Ok(vec![state("Utah", "UT", "p")]), Some(1)));
    assert!(b.datasets.is_some());
    assert_eq!(b.cache_age, Some(1));
}

#[test]
fn a_refreshed_snapshot_list_keeps_the_selection() {
    let mut b = browser();
    let r = b.refetch();
    b.on_message(RepoMsg::Snapshots(r.generation, Ok(vec![snapshot("2024"), snapshot("latest")])));
    assert_eq!(b.sel_snapshot, 1);
    b.on_message(RepoMsg::Snapshots(r.generation, Err("404".to_string())));
    assert_eq!(b.snapshots.len(), 2);
    b.on_message(RepoMsg::Snapshots(r.generation, Ok(vec![snapshot("2025")])));
    assert_eq!(b.sel_snapshot, 0);
}

#[test]
fn a_manifest_goes_to_the_dataset_selected() {
    let mut b = browser();
    assert!(b.fetch_manifest(0).is_none());
    let g = b.refetch().generation;
    let ds = vec![state("Utah", "UT", "country=US/state=UT"), state("Ohio", "OH", "country=US/state=OH")];
    b.on_message(RepoMsg::Datasets(g, Ok(ds), None));
    let (_, path) = b.fetch_manifest(1).unwrap();
    assert_eq!(path, "country=US/state=OH");
    let m = || Manifest { state_name: None, total_features: None, themes: vec![count("roads", 3)] };
    b.on_message(RepoMsg::Manifest(g, 0, Ok(m())));
    assert!(b.selected.as_ref().unwrap().manifest.is_none());
    b.on_message(RepoMsg::Manifest(g, 1, Ok(m())));
    assert!(b.selected.as_ref().unwrap().manifest.is_some());
}

#[test]
fn a_country_is_all_of_its_datasets() {
    let mut b = browser();
    let g = b.refetch().generation;
    let ds = vec![
        state("Utah", "UT", "country=US/state=UT"),
        state("Bern", "BE", "country=CH/canton=BE"),
        state("Ohio", "OH", "country=US/state=OH"),
    ];
    assert_eq!(countries(&ds), vec!["CH", "US"]);
    b.on_message(RepoMsg::Datasets(g, Ok(ds), None));
    let (_, paths) = b.fetch_country("US".to_string()).unwrap();
    assert_eq!(paths, vec!["country=US/state=UT", "country=US/state=OH"]);
    let themes = vec![CountryTheme { theme: "roads".to_string(), features: 1, paths: vec![] }];
    b.on_message(RepoMsg::CountryThemes(g, "CH".to_string(), Ok(Vec::new())));
    assert!(b.country_panel.as_ref().unwrap().themes.is_none());
    b.on_message(RepoMsg::CountryThemes(g, "US".to_string(), Ok(themes)));
    assert!(b.country_panel.as_ref().unwrap().themes.is_some());
}

#[test]
fn the_themes_of_a_country_are_summed_up() {
    let ms = vec![
        ReadManifest { path: "p1".to_string(), themes: vec![count("roads", 3), count("parks", 1)] },
        ReadManifest { path: "p2".to_string(), themes: vec![count("roads", 4)] },
    ];
    let ts = country_themes("US", &ms).unwrap();
    assert_eq!(ts.iter().map(|t| t.theme.as_str()).collect::<Vec<&str>>(), vec!["parks", "roads"]);
    assert_eq!((ts[1].features, ts[1].paths.clone()), (7, list(&["p1", "p2"])));
    assert_eq!(
        country_themes("US", &Vec::new()).unwrap_err(),
        "no manifests could be read for country=US"
    );
    assert_eq!(loadable_themes(&ts, 6), vec!["parks"]);
    let plan = plan_country("US", &ts, &list(&["roads", "parks"]), 7);
    assert_eq!(plan.iter().map(|l| l.name.as_str()).collect::<Vec<&str>>(),
        vec!["US parks (all)", "US roads (all)"]);
    assert_eq!(plan_country("US", &ts, &list(&["roads", "parks"]), 6).len(), 1);
}

#[test]
fn a_dataset_is_loaded_theme_by_theme() {
    let d = state("Utah", "UT", "p");
    let themes = vec![count("roads", 3), count("parks", 1)];
    let plan = plan_dataset(RepoKind::Parquetry, &d, &themes, &list(&["roads"]));
    assert_eq!((plan[0].name.as_str(), plan[0].paths.clone()), ("UT roads", list(&["p"])));
    assert_eq!(plan_dataset(RepoKind::Stac, &d, &themes, &list(&["parks"]))[0].name, "parks");
    assert_eq!(dataset_label(&d), "Utah (UT)");
    assert_eq!(dataset_label(&state("x", "x", "p")), "x");
    assert_eq!(theme_size(RepoKind::Stac, 1), "1 part");
    assert_eq!(theme_size(RepoKind::Stac, 2), "2 parts");
    assert_eq!(theme_size(RepoKind::Parquetry, 12_345), "12k");
    assert!(geopq::repos::is_listed(&state("Utah", "UT", "country=US/x"), "US", "uTA"));
    assert!(!geopq::repos::is_listed(&state("Utah", "UT", "country=US/x"), "CH", ""));
    assert!(!geopq::repos::is_listed(&state("Utah", "UT", "country=US/x"), "", "ohio"));
}

#[test]
fn a_country_picked_again_changes_nothing() {
    let mut b = browser();
    b.toggle("roads".to_string(), true);
    assert!(b.set_country("US".to_string()));
    assert!(b.checked.is_empty());
    b.toggle("roads".to_string(), true);
    b.toggle("roads".to_string(), true);
    assert!(!b.set_country("US".to_string()));
    assert_eq!(b.checked, list(&["roads"]));
    b.toggle("roads".to_string(), false);
    assert!(b.checked.is_empty());
    assert!(!b.set_country(String::new()));
    b.clear_checked();
    assert!(b.country_panel.is_none());
}

#[test]
fn repositories_are_added_and_removed() {
    let mut b = browser();
    assert!(!b.remove_repo(snapshot("latest")));
    assert!(!b.can_add());
    b.add_url = " https://s.org/a/catalog.json/ ".to_string();
    assert!(!b.can_add());
    b.add_name = " S ".to_string();
    assert!(b.can_add());
    b.add_repo(snapshot("latest"));
    assert_eq!((b.repos[1].name.as_str(), b.repos[1].url.as_str(), b.repos[1].kind),
        ("S", "https://s.org/a", RepoKind::Stac));
    assert_eq!(b.sel_repo, 1);
    assert!(b.add_url.is_empty() && b.add_name.is_empty());
    b.select_repo(0, snapshot("latest"));
    assert_eq!(b.sel_repo, 0);
    assert!(b.remove_repo(snapshot("latest")));
    assert_eq!(b.repos[0].name, "S");
}

#[test]
fn the_pane_shows_what_is_selected() {
    let mut b = browser();
    assert_eq!(b.pane(), RepoPane::Hint);
    b.country = "US".to_string();
    b.country_panel = Some(CountryPanel { country: "CH".to_string(), themes: None });
    assert_eq!(b.pane(), RepoPane::Hint);
    b.country_panel = Some(CountryPanel { country: "US".to_string(), themes: None });
    assert_eq!(b.pane(), RepoPane::Country);
    b.repos[0].kind = RepoKind::Stac;
    assert_eq!(b.pane(), RepoPane::Hint);
    b.selected = Some(SelectedDataset { index: 0, manifest: None });
    assert_eq!(b.pane(), RepoPane::Hint);
    b.datasets = Some(Ok(vec![state("Utah", "UT", "p")]));
    assert_eq!(b.pane(), RepoPane::Dataset);
    b.snapshots.push(snapshot("2024"));
    assert!(!b.select_snapshot(0));
    assert!(b.select_snapshot(1));
    assert_eq!(b.sel_snapshot, 1);
}

#[test]
fn the_pane_says_what_it_shows() {
    let m = |n: Option<&str>| {
        Some(Ok(Manifest {
            state_name: n.map(|s| s.to_string()),
            total_features: None,
            themes: Vec::new(),
        }))
    };
    assert_eq!(dataset_title("UT", &m(Some("Utah"))), "Utah");
    assert_eq!(dataset_title("UT", &m(None)), "UT");
    assert_eq!(dataset_title("UT", &None), "UT");
    assert_eq!(country_theme_size(12_345, 4), "12k features · 4 states");
    assert!(too_large_note(12_345).starts_with("12k features — too large"));
    assert!(country_note(2_000_000).ends_with("themes over 2.00M features are state-level only"));
    assert!(parts_note(24).starts_with("opens the 24 parts covering most"));
}
