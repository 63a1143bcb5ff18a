//! Repositories of GeoParquet files: the datasets a snapshot holds, the
//! themes of each, and what is loaded of them.
use vstd::prelude::*;
use crate::counts::{count_text, fmt_count};
use crate::tally::{lists, lists_one_more};
use crate::text::{
    a_tail_is_a_tail, parts_make_the_whole, put_together,
    add_ordered, add_text, cat2, cat3, cat4, contains, copy_texts, dec, decimal, inserted_contains,
    list_has, lowercase, occurs, order_is_total, order_is_transitive, ordered, push_text,
    remove_text, same, segments, split, starts_with, strictly_ordered, strip_prefix, strip_suffix,
    texts, texts_with, texts_without, to_lower, trim, trim_trailing, trimmed, without_trailing,
    in_order,
};

verus! {

/// How a repository is laid out.
#[derive(Clone, Copy, PartialEq, Eq, Structural, Debug)]
pub enum RepoKind {
    Parquetry,
    Stac,
}

#[derive(Debug)]
pub struct Repository {
    pub name: String,
    pub url: String,
    pub kind: RepoKind,
}

#[derive(Debug)]
pub struct Snapshot {
    pub label: String,
    pub path: String,
}

#[derive(Debug)]
pub struct Dataset {
    pub name: String,
    pub code: String,
    pub path: String,
}

/// Features of a theme, or parts where the repository counts those.
#[derive(Debug)]
pub struct ThemeCount {
    pub theme: String,
    pub count: u64,
}

/// What a dataset says of itself.
#[derive(Debug)]
pub struct Manifest {
    pub state_name: Option<String>,
    pub total_features: Option<u64>,
    pub themes: Vec<ThemeCount>,
}

/// A theme over a whole country: its features, and the datasets that have it.
#[derive(Debug)]
pub struct CountryTheme {
    pub theme: String,
    pub features: u64,
    pub paths: Vec<String>,
}

/// The dataset selected; its manifest once it was read.
#[derive(Debug)]
pub struct SelectedDataset {
    pub index: usize,
    pub manifest: Option<Result<Manifest, String>>,
}

/// The themes of a country; none while its manifests are being read.
#[derive(Debug)]
pub struct CountryPanel {
    pub country: String,
    pub themes: Option<Result<Vec<CountryTheme>, String>>,
}

/// The repository dialog.
#[derive(Debug)]
pub struct RepoBrowser {
    pub repos: Vec<Repository>,
    pub sel_repo: usize,
    pub snapshots: Vec<Snapshot>,
    pub sel_snapshot: usize,
    /// None while datasets are being discovered.
    pub datasets: Option<Result<Vec<Dataset>, String>>,
    pub filter: String,
    /// The country shown; empty for all.
    pub country: String,
    pub selected: Option<SelectedDataset>,
    /// Themes ticked, each once.
    pub checked: Vec<String>,
    pub country_panel: Option<CountryPanel>,
    /// When the dataset list was cached; none where it was fetched.
    pub cache_age: Option<u64>,
    pub add_name: String,
    pub add_url: String,
    /// Tells fetches apart.
    pub generation: u64,
}

/// What a fetch has to ask.
#[derive(Debug)]
pub struct RepoRequest {
    pub generation: u64,
    pub base: String,
    pub kind: RepoKind,
    pub snapshot: String,
}

/// A message from a fetching worker.
#[derive(Debug)]
pub enum RepoMsg {
    Snapshots(u64, Result<Vec<Snapshot>, String>),
    Datasets(u64, Result<Vec<Dataset>, String>, Option<u64>),
    Manifest(u64, usize, Result<Manifest, String>),
    CountryThemes(u64, String, Result<Vec<CountryTheme>, String>),
}

impl RepoBrowser {
    /// A repository and a snapshot are selected.
    pub open spec fn wf(self) -> bool {
        self.sel_repo < self.repos@.len() && self.sel_snapshot < self.snapshots@.len()
    }

    /// The request asks about what is selected.
    pub open spec fn asks(self, r: RepoRequest) -> bool {
        &&& r.generation == self.generation
        &&& r.base@ == without_trailing(self.repos@[self.sel_repo as int].url@, '/')
        &&& r.kind == self.repos@[self.sel_repo as int].kind
        &&& r.snapshot == self.snapshots@[self.sel_snapshot as int].path
    }
}

/// The first snapshot at this path from `i` on, or the end.
pub open spec fn snapshot_at(s: Seq<Snapshot>, path: Seq<char>, i: int) -> int
    decreases s.len() - i,
{
    if i >= s.len() {
        s.len() as int
    } else if s[i].path@ == path {
        i
    } else {
        snapshot_at(s, path, i + 1)
    }
}

/// The selected snapshot after the list was refreshed: the one at the same
/// path, the first one where that is gone.
pub open spec fn reselected(s: Seq<Snapshot>, path: Seq<char>) -> int {
    if snapshot_at(s, path, 0) < s.len() {
        snapshot_at(s, path, 0)
    } else {
        0
    }
}

/// The browser after a message; one of an earlier request changes nothing.
pub open spec fn after_message(b: RepoBrowser, m: RepoMsg) -> RepoBrowser {
    match m {
        RepoMsg::Snapshots(g, Ok(snaps)) => if g == b.generation {
            RepoBrowser {
                sel_snapshot: reselected(
                    snaps@,
                    b.snapshots@[b.sel_snapshot as int].path@,
                ) as usize,
                snapshots: snaps,
                ..b
            }
        } else {
            b
        },
        RepoMsg::Snapshots(_, Err(_)) => b,
        RepoMsg::Datasets(g, res, at) => if g == b.generation {
            RepoBrowser { datasets: Some(res), cache_age: at, ..b }
        } else {
            b
        },
        RepoMsg::Manifest(g, at, res) => match b.selected {
            Some(s) => if g == b.generation && s.index == at {
                RepoBrowser {
                    selected: Some(SelectedDataset { index: at, manifest: Some(res) }),
                    ..b
                }
            } else {
                b
            },
            None => b,
        },
        RepoMsg::CountryThemes(g, country, res) => match b.country_panel {
            Some(c) => if g == b.generation && c.country@ == country@ {
                RepoBrowser {
                    country_panel: Some(CountryPanel { country: c.country, themes: Some(res) }),
                    ..b
                }
            } else {
                b
            },
            None => b,
        },
    }
}

impl RepoBrowser {
    /// The dialog as it opens, on the newest snapshot.
    pub fn open(repos: Vec<Repository>, latest: Snapshot) -> (r: RepoBrowser)
        ensures
            r.repos == repos,
            r.sel_repo == 0,
            r.snapshots@ == seq![latest],
            r.sel_snapshot == 0,
            r.datasets is None && r.selected is None && r.country_panel is None && r.cache_age is None,
            r.filter@ == Seq::<char>::empty(),
            r.country@ == Seq::<char>::empty(),
            r.add_name@ == Seq::<char>::empty(),
            r.add_url@ == Seq::<char>::empty(),
            r.checked@.len() == 0,
            r.generation == 0,
            repos@.len() > 0 ==> r.wf(),
    {
        let mut snapshots: Vec<Snapshot> = Vec::new();
        snapshots.push(latest);
        assert(snapshots@ =~= seq![latest]);
        RepoBrowser {
            repos,
            sel_repo: 0,
            snapshots,
            sel_snapshot: 0,
            datasets: None,
            filter: String::new(),
            country: String::new(),
            selected: None,
            checked: Vec::new(),
            country_panel: None,
            cache_age: None,
            add_name: String::new(),
            add_url: String::new(),
            generation: 0,
        }
    }

    fn request(&self) -> (r: RepoRequest)
        requires
            self.wf(),
        ensures
            self.asks(r),
    {
        RepoRequest {
            generation: self.generation,
            base: trim_trailing(self.repos[self.sel_repo].url.as_str(), '/'),
            kind: self.repos[self.sel_repo].kind,
            snapshot: self.snapshots[self.sel_snapshot].path.clone(),
        }
    }

    /// Ask for snapshots and datasets anew; answers to earlier requests will
    /// be dropped.
    pub fn refetch(&mut self) -> (r: RepoRequest)
        requires
            old(self).wf(),
        ensures
            final(self).wf(),
            final(self).asks(r),
            final(self).checked@.len() == 0,
            *final(self) == (RepoBrowser {
                generation: old(self).generation.wrapping_add(1),
                datasets: None,
                selected: None,
                checked: final(self).checked,
                cache_age: None,
                ..*old(self)
            }),
    {
        self.generation = self.generation.wrapping_add(1);
        self.datasets = None;
        self.selected = None;
        self.checked = Vec::new();
        self.cache_age = None;
        self.request()
    }

    /// Select a dataset and ask for its manifest; the request and the
    /// dataset's path are returned once datasets are known.
    pub fn fetch_manifest(&mut self, at: usize) -> (r: Option<(RepoRequest, String)>)
        requires
            old(self).wf(),
            old(self).datasets matches Some(Ok(ds)) ==> at < ds@.len(),
        ensures
            final(self).checked@.len() == 0,
            *final(self) == (RepoBrowser {
                selected: Some(SelectedDataset { index: at, manifest: None }),
                checked: final(self).checked,
                ..*old(self)
            }),
            match r {
                Some((q, path)) => final(self).asks(q) && (old(self).datasets matches Some(Ok(ds)) && path == ds@[at as int].path),
                None => !(old(self).datasets matches Some(Ok(_))),
            },
    {
        self.selected = Some(SelectedDataset { index: at, manifest: None });
        self.checked = Vec::new();
        match &self.datasets {
            Some(Ok(ds)) => {
                let path = ds[at].path.clone();
                Some((self.request(), path))
            },
            _ => None,
        }
    }
}

/// The path has this country as one of its levels.
pub open spec fn in_country(path: Seq<char>, country: Seq<char>) -> bool {
    segments(path, '/').contains("country="@ + country)
}

/// The paths of the first `n` datasets in a country.
pub open spec fn country_paths(ds: Seq<Dataset>, country: Seq<char>, n: nat) -> Seq<Seq<char>>
    decreases n,
{
    if n == 0 {
        Seq::empty()
    } else {
        let before = country_paths(ds, country, (n - 1) as nat);
        if in_country(ds[n - 1].path@, country) {
            before.push(ds[n - 1].path@)
        } else {
            before
        }
    }
}

impl RepoBrowser {
    /// Ask for the manifests of every dataset of a country; the request and
    /// the paths to read are returned once datasets are known.
    pub fn fetch_country(&mut self, country: String) -> (r: Option<(RepoRequest, Vec<String>)>)
        requires
            old(self).wf(),
        ensures
            final(self).checked@.len() == 0,
            *final(self) == (RepoBrowser {
                country_panel: Some(CountryPanel { country, themes: None }),
                checked: final(self).checked,
                ..*old(self)
            }),
            match r {
                Some((q, paths)) => final(self).asks(q) && (old(self).datasets matches Some(Ok(ds)) && texts(paths@) == country_paths(ds@, country@, ds@.len())),
                None => !(old(self).datasets matches Some(Ok(_))),
            },
    {
        let seg = cat2("country=", country.as_str());
        self.country_panel = Some(CountryPanel { country, themes: None });
        self.checked = Vec::new();
        match &self.datasets {
            Some(Ok(ds)) => {
                let n: usize = ds.len();
                let mut paths: Vec<String> = Vec::new();
                let mut i: usize = 0;
                assert(texts(paths@) =~= Seq::empty());
                while i < n
                    invariant
                        i <= n,
                        n == ds@.len(),
                        seg@ == "country="@ + country@,
                        texts(paths@) == country_paths(ds@, country@, i as nat),
                    decreases n - i,
                {
                    let levels = split(ds[i].path.as_str(), '/');
                    if list_has(&levels, seg.as_str()) {
                        push_text(&mut paths, ds[i].path.clone());
                    }
                    i += 1;
                }
                Some((self.request(), paths))
            },
            _ => None,
        }
    }

    /// Take in a message.
    pub fn on_message(&mut self, m: RepoMsg)
        requires
            old(self).wf(),
        ensures
            *final(self) == after_message(*old(self), m),
            (m matches RepoMsg::Snapshots(_, Ok(s)) ==> s@.len() > 0) ==> final(self).wf(),
    {
        match m {
            RepoMsg::Snapshots(g, res) => {
                if let Ok(snaps) = res {
                    if g == self.generation {
                        let path = self.snapshots[self.sel_snapshot].path.clone();
                        let at = find_snapshot(&snaps, path.as_str());
                        self.sel_snapshot = match at {
                            Some(i) => i,
                            None => 0,
                        };
                        self.snapshots = snaps;
                    }
                }
            },
            RepoMsg::Datasets(g, res, at) => {
                if g == self.generation {
                    self.datasets = Some(res);
                    self.cache_age = at;
                }
            },
            RepoMsg::Manifest(g, at, res) => {
                let waits = match &self.selected {
                    Some(s) => g == self.generation && s.index == at,
                    None => false,
                };
                if waits {
                    self.selected = Some(SelectedDataset { index: at, manifest: Some(res) });
                }
            },
            RepoMsg::CountryThemes(g, country, res) => {
                if g == self.generation {
                    let mine = match &self.country_panel {
                        Some(c) => if same(c.country.as_str(), country.as_str()) {
                            Some(c.country.clone())
                        } else {
                            None
                        },
                        None => None,
                    };
                    if let Some(name) = mine {
                        self.country_panel = Some(
                            CountryPanel { country: name, themes: Some(res) },
                        );
                    }
                }
            },
        }
    }
}

fn find_snapshot(s: &Vec<Snapshot>, path: &str) -> (r: Option<usize>)
    ensures
        match r {
            Some(i) => i < s@.len() && i == snapshot_at(s@, path@, 0),
            None => snapshot_at(s@, path@, 0) == s@.len(),
        },
{
    let mut i: usize = 0;
    while i < s.len()
        invariant
            i <= s@.len(),
            snapshot_at(s@, path@, 0) == snapshot_at(s@, path@, i as int),
        decreases s@.len() - i,
    {
        if same(s[i].path.as_str(), path) {
            return Some(i);
        }
        i += 1;
    }
    None
}

/// Answers to a request made before the repository or the snapshot was
/// switched are dropped.
pub proof fn a_stale_answer_changes_nothing(b: RepoBrowser, m: RepoMsg)
    requires
        match m {
            RepoMsg::Snapshots(g, _) => g != b.generation,
            RepoMsg::Datasets(g, _, _) => g != b.generation,
            RepoMsg::Manifest(g, _, _) => g != b.generation,
            RepoMsg::CountryThemes(g, _, _) => g != b.generation,
        },
    ensures
        after_message(b, m) == b,
{
}

// --- themes over a country -----------------------------------------------------------

/// A manifest that was read, and the dataset it belongs to.
#[derive(Debug)]
pub struct ReadManifest {
    pub path: String,
    pub themes: Vec<ThemeCount>,
}

/// One theme of one dataset.
#[verifier::ext_equal]
pub struct Entry {
    pub path: Seq<char>,
    pub theme: Seq<char>,
    pub count: u64,
}

/// The first `n` themes of a manifest.
pub open spec fn entries_of(m: ReadManifest, n: nat) -> Seq<Entry> {
    Seq::new(
        n,
        |k: int|
            Entry { path: m.path@, theme: m.themes@[k].theme@, count: m.themes@[k].count },
    )
}

/// The themes of the manifests, one after the other.
pub open spec fn entries(ms: Seq<ReadManifest>) -> Seq<Entry>
    decreases ms.len(),
{
    if ms.len() == 0 {
        Seq::empty()
    } else {
        entries(ms.drop_last()) + entries_of(ms.last(), ms.last().themes@.len())
    }
}

/// The features of a theme in all entries.
pub open spec fn features_of(es: Seq<Entry>, theme: Seq<char>) -> u64
    decreases es.len(),
{
    if es.len() == 0 {
        0
    } else if es.last().theme == theme {
        features_of(es.drop_last(), theme).wrapping_add(es.last().count)
    } else {
        features_of(es.drop_last(), theme)
    }
}

/// The datasets that have a theme, in order.
pub open spec fn paths_of(es: Seq<Entry>, theme: Seq<char>) -> Seq<Seq<char>>
    decreases es.len(),
{
    if es.len() == 0 {
        Seq::empty()
    } else if es.last().theme == theme {
        paths_of(es.drop_last(), theme).push(es.last().path)
    } else {
        paths_of(es.drop_last(), theme)
    }
}

/// The theme occurs in some entry.
pub open spec fn mentioned(es: Seq<Entry>, theme: Seq<char>) -> bool {
    exists|k: int| 0 <= k < es.len() && (#[trigger] es[k]).theme == theme
}

/// The names of a list of country themes.
pub open spec fn theme_names(ts: Seq<CountryTheme>) -> Seq<Seq<char>> {
    ts.map_values(|t: CountryTheme| t.theme@)
}

/// The union of the entries: every theme once, in order, with all its
/// features and datasets.
pub open spec fn union_of(ts: Seq<CountryTheme>, es: Seq<Entry>) -> bool {
    &&& strictly_ordered(theme_names(ts))
    &&& forall|t: Seq<char>| #[trigger] theme_names(ts).contains(t) <==> mentioned(es, t)
    &&& forall|k: int|
        0 <= k < ts.len() ==> {
            &&& (#[trigger] ts[k]).features == features_of(es, ts[k].theme@)
            &&& texts(ts[k].paths@) == paths_of(es, ts[k].theme@)
        }
}

proof fn an_entry_more(es: Seq<Entry>, e: Entry, t: Seq<char>)
    ensures
        mentioned(es.push(e), t) <==> mentioned(es, t) || e.theme == t,
        features_of(es.push(e), t) == if e.theme == t {
            features_of(es, t).wrapping_add(e.count)
        } else {
            features_of(es, t)
        },
        paths_of(es.push(e), t) == if e.theme == t {
            paths_of(es, t).push(e.path)
        } else {
            paths_of(es, t)
        },
{
    let w = es.push(e);
    assert(w.drop_last() =~= es);
    if mentioned(es, t) {
        let k = choose|k: int| 0 <= k < es.len() && (#[trigger] es[k]).theme == t;
        assert(w[k].theme == t);
    }
    if mentioned(w, t) && e.theme != t {
        let k = choose|k: int| 0 <= k < w.len() && (#[trigger] w[k]).theme == t;
        assert(es[k].theme == t);
    }
    assert(w[es.len() as int] == e);
}

proof fn unmentioned_is_nothing(es: Seq<Entry>, t: Seq<char>)
    requires
        !mentioned(es, t),
    ensures
        features_of(es, t) == 0,
        paths_of(es, t) == Seq::<Seq<char>>::empty(),
    decreases es.len(),
{
    if es.len() > 0 {
        assert(es[es.len() - 1].theme != t);
        assert(!mentioned(es.drop_last(), t)) by {
            if mentioned(es.drop_last(), t) {
                let k = choose|k: int|
                    0 <= k < es.drop_last().len() && (#[trigger] es.drop_last()[k]).theme == t;
                assert(es[k].theme == t);
            }
        }
        unmentioned_is_nothing(es.drop_last(), t);
    }
}

/// Where a theme stands in an ordered list, or would stand.
fn theme_place(ts: &Vec<CountryTheme>, theme: &str) -> (r: (usize, bool))
    requires
        strictly_ordered(theme_names(ts@)),
    ensures
        r.0 <= ts@.len(),
        r.1 ==> r.0 < ts@.len() && ts@[r.0 as int].theme@ == theme@,
        r.1 == theme_names(ts@).contains(theme@),
        forall|k: int| 0 <= k < r.0 ==> ordered(#[trigger] theme_names(ts@)[k], theme@) && theme_names(ts@)[k] != theme@,
        !r.1 ==> forall|k: int| r.0 <= k < ts@.len() ==> ordered(theme@, #[trigger] theme_names(ts@)[k]) && theme_names(ts@)[k] != theme@,
{
    let ghost names = theme_names(ts@);
    let mut i: usize = 0;
    while i < ts.len()
        invariant
            i <= ts@.len(),
            names == theme_names(ts@),
            strictly_ordered(names),
            forall|k: int| 0 <= k < i ==> ordered(#[trigger] names[k], theme@) && names[k] != theme@,
        decreases ts@.len() - i,
    {
        assert(names[i as int] == ts@[i as int].theme@);
        if same(ts[i].theme.as_str(), theme) {
            return (i, true);
        }
        if !in_order(ts[i].theme.as_str(), theme) {
            proof {
                order_is_total(names[i as int], theme@);
                assert forall|k: int| i <= k < names.len() implies ordered(theme@, #[trigger] names[k])
                    && names[k] != theme@ by {
                    if k > i {
                        assert(ordered(names[i as int], names[k]));
                        order_is_transitive(theme@, names[i as int], names[k]);
                    }
                }
            }
            return (i, false);
        }
        i += 1;
    }
    (i, false)
}

fn add_entry(ts: &mut Vec<CountryTheme>, path: &String, theme: &String, count: u64, es: Ghost<Seq<Entry>>)
    requires
        union_of(old(ts)@, es@),
    ensures
        union_of(
            final(ts)@,
            es@.push(Entry { path: path@, theme: theme@, count }),
        ),
{
    let ghost e = Entry { path: path@, theme: theme@, count };
    let ghost before = ts@;
    let ghost names = theme_names(before);
    let (p, there) = theme_place(ts, theme.as_str());
    proof {
        assert forall|t: Seq<char>| true implies mentioned(es@.push(e), t) == (#[trigger] mentioned(
            es@,
            t,
        ) || e.theme == t) by {
            an_entry_more(es@, e, t);
        }
    }
    if there {
        let features: u64 = ts[p].features.wrapping_add(count);
        ts[p].features = features;
        let ghost old_paths = ts@[p as int].paths@;
        push_text(&mut ts[p].paths, path.clone());
        assert(theme_names(ts@) =~= names);
        proof {
            assert forall|k: int| 0 <= k < ts@.len() implies {
                &&& (#[trigger] ts@[k]).features == features_of(es@.push(e), ts@[k].theme@)
                &&& texts(ts@[k].paths@) == paths_of(es@.push(e), ts@[k].theme@)
            } by {
                an_entry_more(es@, e, ts@[k].theme@);
                if k != p {
                    assert(ts@[k] == before[k]);
                    assert(names[k] != names[p as int]) by {
                        if k < p {
                            assert(ordered(names[k], names[p as int]));
                        } else {
                            assert(ordered(names[p as int], names[k]));
                        }
                    }
                } else {
                    assert(before[k].features == features_of(es@, before[k].theme@));
                }
            }
            assert forall|t: Seq<char>| #[trigger] theme_names(ts@).contains(t) <==> mentioned(
                es@.push(e),
                t,
            ) by {
                an_entry_more(es@, e, t);
                assert(names.contains(theme@));
            }
        }
    } else {
        let mut paths: Vec<String> = Vec::new();
        push_text(&mut paths, path.clone());
        let fresh = CountryTheme { theme: theme.clone(), features: count, paths };
        ts.insert(p, fresh);
        let ghost now = theme_names(ts@);
        assert(now =~= names.insert(p as int, theme@));
        proof {
            inserted_contains(names, p as int, theme@);
            assert forall|i: int, j: int| 0 <= i < j < now.len() implies ordered(
                #[trigger] now[i],
                #[trigger] now[j],
            ) && now[i] != now[j] by {
                let a = if i < p { i } else { i - 1 };
                let b = if j < p { j } else { j - 1 };
                if i != p {
                    assert(now[i] == names[a]);
                }
                if j != p {
                    assert(now[j] == names[b]);
                }
            }
            assert(!mentioned(es@, theme@));
            unmentioned_is_nothing(es@, theme@);
            assert forall|k: int| 0 <= k < ts@.len() implies {
                &&& (#[trigger] ts@[k]).features == features_of(es@.push(e), ts@[k].theme@)
                &&& texts(ts@[k].paths@) == paths_of(es@.push(e), ts@[k].theme@)
            } by {
                an_entry_more(es@, e, ts@[k].theme@);
                let a = if k < p { k } else { k - 1 };
                if k != p {
                    assert(ts@[k] == before[a]);
                    assert(names[a] != theme@);
                } else {
                    assert(texts(paths@) =~= Seq::<Seq<char>>::empty().push(path@));
                }
            }
            assert forall|t: Seq<char>| #[trigger] theme_names(ts@).contains(t) <==> mentioned(
                es@.push(e),
                t,
            ) by {
                an_entry_more(es@, e, t);
            }
        }
    }
}

/// The themes of a country: the union over the manifests that could be read,
/// an error where none could.
pub fn country_themes(country: &str, manifests: &Vec<ReadManifest>) -> (r: Result<Vec<CountryTheme>, String>)
    ensures
        match r {
            Ok(ts) => manifests@.len() > 0 && union_of(ts@, entries(manifests@)),
            Err(e) => manifests@.len() == 0 && e@ == "no manifests could be read for country="@
                + country@,
        },
{
    if manifests.len() == 0 {
        return Err(cat2("no manifests could be read for country=", country));
    }
    let mut ts: Vec<CountryTheme> = Vec::new();
    let ghost mut es: Seq<Entry> = Seq::empty();
    let mut i: usize = 0;
    assert(theme_names(ts@) =~= Seq::empty());
    assert(entries(manifests@.subrange(0, 0)) =~= es);
    while i < manifests.len()
        invariant
            i <= manifests@.len(),
            es == entries(manifests@.subrange(0, i as int)),
            union_of(ts@, es),
        decreases manifests@.len() - i,
    {
        let m = &manifests[i];
        let ghost base = es;
        let n: usize = m.themes.len();
        let mut k: usize = 0;
        assert(base + entries_of(*m, 0) =~= base);
        while k < n
            invariant
                k <= n,
                n == m.themes@.len(),
                es =~= base + entries_of(*m, k as nat),
                union_of(ts@, es),
            decreases n - k,
        {
            add_entry(&mut ts, &m.path, &m.themes[k].theme, m.themes[k].count, Ghost(es));
            proof {
                es = es.push(
                    Entry {
                        path: m.path@,
                        theme: m.themes@[k as int].theme@,
                        count: m.themes@[k as int].count,
                    },
                );
                assert(es =~= base + entries_of(*m, (k + 1) as nat));
            }
            k += 1;
        }
        assert(manifests@.subrange(0, i + 1).drop_last() =~= manifests@.subrange(0, i as int));
        i += 1;
    }
    assert(manifests@.subrange(0, i as int) =~= manifests@);
    Ok(ts)
}

// --- what the panes list ---------------------------------------------------------------

/// The country a path names on its first such level.
pub open spec fn country_from(levels: Seq<Seq<char>>, i: int) -> Option<Seq<char>>
    decreases levels.len() - i,
{
    if i >= levels.len() {
        None
    } else if "country="@.is_prefix_of(levels[i]) {
        Some(levels[i].subrange("country="@.len() as int, levels[i].len() as int))
    } else {
        country_from(levels, i + 1)
    }
}

/// The country of a dataset's path.
pub open spec fn country_of(path: Seq<char>) -> Option<Seq<char>> {
    country_from(segments(path, '/'), 0)
}

fn path_country(path: &str) -> (r: Option<String>)
    ensures
        match r {
            Some(c) => country_of(path@) == Some(c@),
            None => country_of(path@) is None,
        },
{
    let levels = split(path, '/');
    let ghost all = texts(levels@);
    let mut i: usize = 0;
    while i < levels.len()
        invariant
            i <= levels@.len(),
            all == texts(levels@),
            all == segments(path@, '/'),
            country_from(all, 0) == country_from(all, i as int),
        decreases levels@.len() - i,
    {
        assert(all[i as int] == levels@[i as int]@);
        if let Some(c) = strip_prefix(levels[i].as_str(), "country=") {
            return Some(c);
        }
        i += 1;
    }
    None
}

/// Countries of the datasets, each once, in order.
pub fn countries(ds: &Vec<Dataset>) -> (r: Vec<String>)
    ensures
        strictly_ordered(texts(r@)),
        forall|c: Seq<char>| #[trigger]
            texts(r@).contains(c) <==> exists|k: int|
                0 <= k < ds@.len() && country_of((#[trigger] ds@[k]).path@) == Some(c),
{
    let mut out: Vec<String> = Vec::new();
    let mut i: usize = 0;
    assert(texts(out@) =~= Seq::empty());
    while i < ds.len()
        invariant
            i <= ds@.len(),
            strictly_ordered(texts(out@)),
            forall|c: Seq<char>| #[trigger]
                texts(out@).contains(c) <==> exists|k: int|
                    0 <= k < i && country_of((#[trigger] ds@[k]).path@) == Some(c),
        decreases ds@.len() - i,
    {
        let ghost before = texts(out@);
        let here = path_country(ds[i].path.as_str());
        if let Some(c) = here {
            add_ordered(&mut out, c);
        }
        proof {
            assert forall|c: Seq<char>| #[trigger] texts(out@).contains(c) <==> exists|k: int|
                0 <= k < i + 1 && country_of((#[trigger] ds@[k]).path@) == Some(c) by {
                if before.contains(c) {
                    let k = choose|k: int| 0 <= k < i && country_of((#[trigger] ds@[k]).path@) == Some(c);
                    assert(country_of(ds@[k].path@) == Some(c));
                }
                if country_of(ds@[i as int].path@) == Some(c) {
                    assert(texts(out@).contains(c));
                }
                if exists|k: int| 0 <= k < i + 1 && country_of((#[trigger] ds@[k]).path@) == Some(c) {
                    let k = choose|k: int| 0 <= k < i + 1 && country_of((#[trigger] ds@[k]).path@) == Some(c);
                    if k < i {
                        assert(before.contains(c));
                    }
                }
            }
        }
        i += 1;
    }
    out
}

/// The dataset is listed under the country and the filter.
pub open spec fn listed(d: Dataset, country: Seq<char>, filter: Seq<char>) -> bool {
    &&& country.len() > 0 ==> occurs("country="@ + country, d.path@)
    &&& lowercase(filter).len() > 0 ==> occurs(lowercase(filter), lowercase(d.name@)) || occurs(
        lowercase(filter),
        lowercase(d.code@),
    )
}

/// See [`listed`].
pub fn is_listed(d: &Dataset, country: &str, filter: &str) -> (r: bool)
    ensures
        r == listed(*d, country@, filter@),
{
    if !country.is_empty() {
        let level = cat2("country=", country);
        if !contains(d.path.as_str(), level.as_str()) {
            return false;
        }
    }
    let needle = to_lower(filter);
    if needle.as_str().is_empty() {
        return true;
    }
    let name = to_lower(d.name.as_str());
    let code = to_lower(d.code.as_str());
    contains(name.as_str(), needle.as_str()) || contains(code.as_str(), needle.as_str())
}

/// "Utah (UT)", or the name alone where the code says the same.
pub fn dataset_label(d: &Dataset) -> (r: String)
    ensures
        r@ == if d.code@ == d.name@ {
            d.name@
        } else {
            d.name@ + " ("@ + d.code@ + ")"@
        },
{
    if same(d.code.as_str(), d.name.as_str()) {
        d.name.clone()
    } else {
        cat4(d.name.as_str(), " (", d.code.as_str(), ")")
    }
}

/// The size shown beside a theme.
pub fn theme_size(kind: RepoKind, n: usize) -> (r: String)
    ensures
        r@ == if kind is Stac {
            decimal(n as nat) + " part"@ + (if n == 1 {
                Seq::<char>::empty()
            } else {
                "s"@
            })
        } else {
            count_text(n as nat)
        },
{
    match kind {
        RepoKind::Stac => {
            let d = dec(n as u64);
            let mut t = cat2(d.as_str(), " part");
            if n != 1 {
                t.append("s");
            }
            assert(n == 1 ==> t@ =~= t@ + Seq::<char>::empty());
            t
        },
        RepoKind::Parquetry => fmt_count(n),
    }
}

impl RepoBrowser {
    /// Pick a country; its themes have to be fetched where one is named.
    /// Picking the same one again changes nothing.
    pub fn set_country(&mut self, country: String) -> (fetch: bool)
        ensures
            if country@ == old(self).country@ {
                !fetch && *final(self) == *old(self)
            } else {
                &&& fetch == (country@.len() > 0)
                &&& final(self).checked@.len() == 0
                &&& *final(self) == (RepoBrowser {
                    country,
                    selected: None,
                    checked: final(self).checked,
                    country_panel: if country@.len() == 0 {
                        None
                    } else {
                        old(self).country_panel
                    },
                    ..*old(self)
                })
            },
    {
        if self.country == country {
            return false;
        }
        let none = country.as_str().is_empty();
        self.country = country;
        self.selected = None;
        self.checked = Vec::new();
        if none {
            self.country_panel = None;
        }
        !none
    }

    /// Tick or untick a theme.
    pub fn toggle(&mut self, theme: String, on: bool)
        ensures
            texts(final(self).checked@) == if on {
                texts_with(texts(old(self).checked@), theme@)
            } else {
                texts_without(texts(old(self).checked@), theme@)
            },
            *final(self) == (RepoBrowser { checked: final(self).checked, ..*old(self) }),
    {
        if on {
            add_text(&mut self.checked, theme);
        } else {
            remove_text(&mut self.checked, theme.as_str());
        }
    }

    pub fn clear_checked(&mut self)
        ensures
            final(self).checked@.len() == 0,
            *final(self) == (RepoBrowser { checked: final(self).checked, ..*old(self) }),
    {
        self.checked = Vec::new();
    }
}

// --- what is loaded --------------------------------------------------------------------

/// A layer to load: its theme, the datasets it comes from and its name.
#[derive(Debug)]
pub struct ThemeLoad {
    pub theme: String,
    pub paths: Vec<String>,
    pub name: String,
}

/// What [`ThemeLoad`] stands for.
#[verifier::ext_equal]
pub struct ThemeLoadState {
    pub theme: Seq<char>,
    pub paths: Seq<Seq<char>>,
    pub name: Seq<char>,
}

impl View for ThemeLoad {
    type V = ThemeLoadState;

    open spec fn view(&self) -> ThemeLoadState {
        ThemeLoadState { theme: self.theme@, paths: texts(self.paths@), name: self.name@ }
    }
}

/// The meanings of a list of loads.
pub open spec fn loads(v: Seq<ThemeLoad>) -> Seq<ThemeLoadState> {
    v.map_values(|l: ThemeLoad| l@)
}

/// The name of a layer that shows one dataset's theme.
pub open spec fn theme_layer_name(kind: RepoKind, code: Seq<char>, theme: Seq<char>) -> Seq<char> {
    if kind is Stac || code.len() == 0 {
        theme
    } else {
        code + " "@ + theme
    }
}

/// The ticked ones of a dataset's first `n` themes.
pub open spec fn dataset_loads(
    kind: RepoKind,
    d: Dataset,
    themes: Seq<ThemeCount>,
    checked: Seq<Seq<char>>,
    n: nat,
) -> Seq<ThemeLoadState>
    decreases n,
{
    if n == 0 {
        Seq::empty()
    } else {
        let before = dataset_loads(kind, d, themes, checked, (n - 1) as nat);
        let t = themes[n - 1].theme@;
        if checked.contains(t) {
            before.push(
                ThemeLoadState {
                    theme: t,
                    paths: seq![d.path@],
                    name: theme_layer_name(kind, d.code@, t),
                },
            )
        } else {
            before
        }
    }
}

/// The ticked ones of a country's first `n` themes that are not too large to
/// show over a whole country.
pub open spec fn country_loads(
    country: Seq<char>,
    themes: Seq<CountryTheme>,
    checked: Seq<Seq<char>>,
    max: u64,
    n: nat,
) -> Seq<ThemeLoadState>
    decreases n,
{
    if n == 0 {
        Seq::empty()
    } else {
        let before = country_loads(country, themes, checked, max, (n - 1) as nat);
        let t = themes[n - 1];
        if checked.contains(t.theme@) && t.features <= max {
            before.push(
                ThemeLoadState {
                    theme: t.theme@,
                    paths: texts(t.paths@),
                    name: country + " "@ + t.theme@ + " (all)"@,
                },
            )
        } else {
            before
        }
    }
}

fn push_load(v: &mut Vec<ThemeLoad>, l: ThemeLoad)
    ensures
        loads(final(v)@) == loads(old(v)@).push(l@),
{
    v.push(l);
    assert(loads(v@) =~= loads(old(v)@).push(l@));
}

/// The layers the ticked themes of a dataset become.
pub fn plan_dataset(kind: RepoKind, d: &Dataset, themes: &Vec<ThemeCount>, checked: &Vec<String>) -> (r:
    Vec<ThemeLoad>)
    ensures
        loads(r@) == dataset_loads(kind, *d, themes@, texts(checked@), themes@.len()),
{
    let mut out: Vec<ThemeLoad> = Vec::new();
    let n: usize = themes.len();
    let mut i: usize = 0;
    assert(loads(out@) =~= Seq::empty());
    while i < n
        invariant
            i <= n,
            n == themes@.len(),
            loads(out@) == dataset_loads(kind, *d, themes@, texts(checked@), i as nat),
        decreases n - i,
    {
        if list_has(checked, themes[i].theme.as_str()) {
            let theme = themes[i].theme.clone();
            let plain = match kind {
                RepoKind::Stac => true,
                RepoKind::Parquetry => d.code.as_str().is_empty(),
            };
            let name = if plain {
                theme.clone()
            } else {
                cat3(d.code.as_str(), " ", theme.as_str())
            };
            let mut paths: Vec<String> = Vec::new();
            push_text(&mut paths, d.path.clone());
            assert(texts(paths@) =~= seq![d.path@]);
            push_load(&mut out, ThemeLoad { theme, paths, name });
        }
        i += 1;
    }
    out
}

/// The layers the ticked themes of a country become: one each, over all its
/// datasets.
pub fn plan_country(country: &str, themes: &Vec<CountryTheme>, checked: &Vec<String>, max: u64) -> (r: Vec<
    ThemeLoad,
>)
    ensures
        loads(r@) == country_loads(country@, themes@, texts(checked@), max, themes@.len()),
{
    let mut out: Vec<ThemeLoad> = Vec::new();
    let n: usize = themes.len();
    let mut i: usize = 0;
    assert(loads(out@) =~= Seq::empty());
    while i < n
        invariant
            i <= n,
            n == themes@.len(),
            loads(out@) == country_loads(country@, themes@, texts(checked@), max, i as nat),
        decreases n - i,
    {
        let t = &themes[i];
        if list_has(checked, t.theme.as_str()) && t.features <= max {
            let name = cat4(country, " ", t.theme.as_str(), " (all)");
            let paths = copy_texts(&t.paths);
            push_load(&mut out, ThemeLoad { theme: t.theme.clone(), paths, name });
        }
        i += 1;
    }
    out
}

/// The themes "all" ticks among the first `n`: those not too large for a whole
/// country, in order, each once.
pub open spec fn loadable_first(themes: Seq<CountryTheme>, max: u64, n: nat) -> Seq<Seq<char>>
    decreases n,
{
    if n == 0 {
        Seq::empty()
    } else {
        let before = loadable_first(themes, max, (n - 1) as nat);
        if themes[n - 1].features <= max {
            texts_with(before, themes[n - 1].theme@)
        } else {
            before
        }
    }
}

/// See [`loadable_first`], of all themes.
pub fn loadable_themes(themes: &Vec<CountryTheme>, max: u64) -> (r: Vec<String>)
    ensures
        texts(r@) == loadable_first(themes@, max, themes@.len()),
        texts(r@).no_duplicates(),
        forall|t: Seq<char>| #[trigger]
            texts(r@).contains(t) <==> exists|k: int|
                0 <= k < themes@.len() && (#[trigger] themes@[k]).theme@ == t && themes@[k].features <= max,
{
    let mut out: Vec<String> = Vec::new();
    let mut i: usize = 0;
    assert(texts(out@) =~= Seq::empty());
    while i < themes.len()
        invariant
            i <= themes@.len(),
            texts(out@) == loadable_first(themes@, max, i as nat),
            texts(out@).no_duplicates(),
            forall|t: Seq<char>| #[trigger]
                texts(out@).contains(t) <==> exists|k: int|
                    0 <= k < i && (#[trigger] themes@[k]).theme@ == t && themes@[k].features <= max,
        decreases themes@.len() - i,
    {
        let ghost before = texts(out@);
        if themes[i].features <= max {
            add_text(&mut out, themes[i].theme.clone());
        }
        proof {
            let now = texts(out@);
            let here = themes@[i as int];
            if here.features <= max {
                inserted_contains(before, before.len() as int, here.theme@);
                assert(before.insert(before.len() as int, here.theme@) =~= before.push(here.theme@));
            }
            assert forall|t: Seq<char>| #[trigger] now.contains(t) <==> exists|k: int|
                0 <= k < i + 1 && (#[trigger] themes@[k]).theme@ == t && themes@[k].features <= max by {
                if before.contains(t) {
                    let k = choose|k: int| 0 <= k < i && (#[trigger] themes@[k]).theme@ == t && themes@[k].features <= max;
                    assert(themes@[k].theme@ == t);
                }
                if exists|k: int| 0 <= k < i + 1 && (#[trigger] themes@[k]).theme@ == t && themes@[k].features <= max {
                    let k = choose|k: int| 0 <= k < i + 1 && (#[trigger] themes@[k]).theme@ == t && themes@[k].features <= max;
                    if k < i {
                        assert(before.contains(t));
                    }
                }
                if here.theme@ == t && here.features <= max {
                    assert(themes@[i as int].theme@ == t);
                }
            }
        }
        i += 1;
    }
    out
}

// --- the list of repositories --------------------------------------------------------------

/// The base address and layout of a pasted address: one that ends in
/// `catalog.json` marks a STAC repository, whose base is its directory.
pub open spec fn repo_base(url: Seq<char>) -> (Seq<char>, RepoKind) {
    if "/catalog.json"@.is_suffix_of(url) {
        (url.subrange(0, url.len() - "/catalog.json"@.len()), RepoKind::Stac)
    } else {
        (url, RepoKind::Parquetry)
    }
}

/// The address entered, without blanks around it or slashes at its end.
pub open spec fn entered_url(b: RepoBrowser) -> Seq<char> {
    without_trailing(trimmed(b.add_url@), '/')
}

impl RepoBrowser {
    /// Whether the entered repository can be added: a web address and a name.
    pub fn can_add(&self) -> (r: bool)
        ensures
            r == (("https://"@.is_prefix_of(entered_url(*self)) || "http://"@.is_prefix_of(
                entered_url(*self),
            )) && trimmed(self.add_name@).len() > 0),
    {
        let t = trim(self.add_url.as_str());
        let url = trim_trailing(t.as_str(), '/');
        let name = trim(self.add_name.as_str());
        (starts_with(url.as_str(), "https://") || starts_with(url.as_str(), "http://"))
            && !name.as_str().is_empty()
    }

    /// Add the entered repository and select it; its datasets have to be
    /// fetched and the list written out then.
    pub fn add_repo(&mut self, latest: Snapshot)
        requires
            old(self).repos@.len() < usize::MAX,
        ensures
            final(self).wf(),
            final(self).repos@.len() == old(self).repos@.len() + 1,
            final(self).repos@.drop_last() == old(self).repos@,
            final(self).repos@.last().name@ == trimmed(old(self).add_name@),
            (final(self).repos@.last().url@, final(self).repos@.last().kind) == repo_base(
                entered_url(*old(self)),
            ),
            final(self).sel_repo == old(self).repos@.len(),
            final(self).snapshots@ == seq![latest],
            final(self).sel_snapshot == 0,
            final(self).add_name@ == Seq::<char>::empty(),
            final(self).add_url@ == Seq::<char>::empty(),
            *final(self) == (RepoBrowser {
                repos: final(self).repos,
                sel_repo: final(self).sel_repo,
                snapshots: final(self).snapshots,
                sel_snapshot: 0,
                add_name: final(self).add_name,
                add_url: final(self).add_url,
                ..*old(self)
            }),
    {
        let t = trim(self.add_url.as_str());
        let url = trim_trailing(t.as_str(), '/');
        let (url, kind) = match strip_suffix(url.as_str(), "/catalog.json") {
            Some(base) => (base, RepoKind::Stac),
            None => (url, RepoKind::Parquetry),
        };
        let name = trim(self.add_name.as_str());
        let ghost before = self.repos@;
        self.sel_repo = self.repos.len();
        self.repos.push(Repository { name, url, kind });
        assert(self.repos@.drop_last() =~= before);
        self.add_name = String::new();
        self.add_url = String::new();
        let mut snapshots: Vec<Snapshot> = Vec::new();
        snapshots.push(latest);
        assert(snapshots@ =~= seq![latest]);
        self.snapshots = snapshots;
        self.sel_snapshot = 0;
    }

    /// Remove the selected repository, unless it is the last one; says
    /// whether it did.
    pub fn remove_repo(&mut self, latest: Snapshot) -> (done: bool)
        requires
            old(self).wf(),
        ensures
            done == (old(self).repos@.len() > 1),
            !done ==> *final(self) == *old(self),
            done ==> {
                &&& final(self).wf()
                &&& final(self).repos@ == old(self).repos@.remove(old(self).sel_repo as int)
                &&& final(self).sel_repo == 0
                &&& final(self).snapshots@ == seq![latest]
                &&& *final(self) == (RepoBrowser {
                    repos: final(self).repos,
                    sel_repo: 0,
                    snapshots: final(self).snapshots,
                    sel_snapshot: 0,
                    ..*old(self)
                })
            },
    {
        if self.repos.len() <= 1 {
            return false;
        }
        self.repos.remove(self.sel_repo);
        self.sel_repo = 0;
        let mut snapshots: Vec<Snapshot> = Vec::new();
        snapshots.push(latest);
        assert(snapshots@ =~= seq![latest]);
        self.snapshots = snapshots;
        self.sel_snapshot = 0;
        true
    }

    /// Switch to another repository, on its newest snapshot.
    pub fn select_repo(&mut self, at: usize, latest: Snapshot)
        requires
            at < old(self).repos@.len(),
        ensures
            final(self).wf(),
            final(self).sel_repo == at,
            final(self).snapshots@ == seq![latest],
            *final(self) == (RepoBrowser {
                sel_repo: at,
                snapshots: final(self).snapshots,
                sel_snapshot: 0,
                ..*old(self)
            }),
    {
        self.sel_repo = at;
        let mut snapshots: Vec<Snapshot> = Vec::new();
        snapshots.push(latest);
        assert(snapshots@ =~= seq![latest]);
        self.snapshots = snapshots;
        self.sel_snapshot = 0;
    }
}

// --- what the right pane shows -----------------------------------------------------------------

/// What the pane beside the datasets shows.
#[derive(Clone, Copy, PartialEq, Eq, Structural, Debug)]
pub enum RepoPane {
    /// The layers of the selected dataset.
    Dataset,
    /// The themes of the selected country.
    Country,
    /// What can be selected.
    Hint,
}

impl RepoBrowser {
    /// See [`RepoPane`]: a selected dataset comes first; country-wide themes
    /// are those of the country picked, in a repository that has them.
    pub open spec fn pane_shown(self) -> RepoPane {
        if self.selected is Some && (self.datasets matches Some(Ok(_))) {
            RepoPane::Dataset
        } else if self.repos@[self.sel_repo as int].kind is Parquetry && self.country@.len() > 0 && (
        self.country_panel matches Some(c) && c.country@ == self.country@) {
            RepoPane::Country
        } else {
            RepoPane::Hint
        }
    }

    pub fn pane(&self) -> (r: RepoPane)
        requires
            self.wf(),
        ensures
            r == self.pane_shown(),
    {
        let listed = match &self.datasets {
            Some(Ok(_)) => true,
            _ => false,
        };
        if self.selected.is_some() && listed {
            return RepoPane::Dataset;
        }
        let has_countries = match self.repos[self.sel_repo].kind {
            RepoKind::Parquetry => true,
            RepoKind::Stac => false,
        };
        let same_country = match &self.country_panel {
            Some(c) => same(c.country.as_str(), self.country.as_str()),
            None => false,
        };
        if has_countries && !self.country.as_str().is_empty() && same_country {
            RepoPane::Country
        } else {
            RepoPane::Hint
        }
    }

    /// Switch to another snapshot; says whether its datasets have to be
    /// fetched.
    pub fn select_snapshot(&mut self, at: usize) -> (fetch: bool)
        requires
            old(self).wf(),
            at < old(self).snapshots@.len(),
        ensures
            final(self).wf(),
            fetch == (at != old(self).sel_snapshot),
            *final(self) == (RepoBrowser { sel_snapshot: at, ..*old(self) }),
    {
        let fetch = at != self.sel_snapshot;
        self.sel_snapshot = at;
        fetch
    }
}

/// The title of a dataset: its manifest knows best.
pub fn dataset_title(name: &str, manifest: &Option<Result<Manifest, String>>) -> (r: String)
    ensures
        r@ == match *manifest {
            Some(Ok(m)) => match m.state_name {
                Some(n) => n@,
                None => name@,
            },
            _ => name@,
        },
{
    match manifest {
        Some(Ok(m)) => match &m.state_name {
            Some(n) => n.as_str().to_owned(),
            None => name.to_owned(),
        },
        _ => name.to_owned(),
    }
}

/// "12k features · 4 states".
pub fn country_theme_size(features: usize, states: usize) -> (r: String)
    ensures
        r@ == count_text(features as nat) + " features · "@ + decimal(states as nat) + " states"@,
{
    let f = fmt_count(features);
    let n = dec(states as u64);
    cat4(f.as_str(), " features · ", n.as_str(), " states")
}

/// Why a theme cannot be ticked for a whole country.
pub fn too_large_note(features: usize) -> (r: String)
    ensures
        r@ == count_text(features as nat)
            + " features — too large to display country-wide; pick a state on the left instead"@,
{
    let f = fmt_count(features);
    cat2(
        f.as_str(),
        " features — too large to display country-wide; pick a state on the left instead",
    )
}

/// What loading themes of a country means.
pub fn country_note(max: usize) -> (r: String)
    ensures
        r@ == "each theme loads as one layer across all its states, with state as a column; themes over "@
            + count_text(max as nat) + " features are state-level only"@,
{
    let n = fmt_count(max);
    cat3(
        "each theme loads as one layer across all its states, with state as a column; themes over ",
        n.as_str(),
        " features are state-level only",
    )
}

/// What loading a collection of parts means.
pub fn parts_note(cap: usize) -> (r: String)
    ensures
        r@ == "opens the "@ + decimal(cap as nat)
            + " parts covering most of the current view; the rest load as you pan"@,
{
    let n = dec(cap as u64);
    cat3(
        "opens the ",
        n.as_str(),
        " parts covering most of the current view; the rest load as you pan",
    )
}

/// A refreshed list keeps the snapshot that was selected, where it is still
/// there; otherwise its first one is selected.
pub proof fn a_snapshot_stays_selected(s: Seq<Snapshot>, path: Seq<char>, k: int)
    requires
        s.len() > 0,
    ensures
        0 <= reselected(s, path) < s.len(),
        0 <= k < s.len() && s[k].path@ == path ==> s[reselected(s, path)].path@ == path
            && reselected(s, path) <= k,
        s[reselected(s, path)].path@ != path ==> reselected(s, path) == 0,
{
    snapshot_is_first(s, path, 0, k);
}

proof fn snapshot_is_first(s: Seq<Snapshot>, path: Seq<char>, i: int, k: int)
    requires
        0 <= i <= s.len(),
    ensures
        i <= snapshot_at(s, path, i) <= s.len(),
        snapshot_at(s, path, i) < s.len() ==> s[snapshot_at(s, path, i)].path@ == path,
        i <= k < s.len() && s[k].path@ == path ==> snapshot_at(s, path, i) <= k,
    decreases s.len() - i,
{
    if i < s.len() && s[i].path@ != path {
        snapshot_is_first(s, path, i + 1, k);
    }
}

/// The answer to the latest request is taken in: the datasets listed, the
/// manifest of the dataset selected, the themes of the country shown.
pub proof fn a_current_answer_is_taken(b: RepoBrowser, m: RepoMsg)
    ensures
        m matches RepoMsg::Datasets(g, res, at) ==> (g == b.generation ==> after_message(b, m) == (
        RepoBrowser { datasets: Some(res), cache_age: at, ..b })),
        m matches RepoMsg::Manifest(g, at, res) ==> (if g == b.generation && b.selected is Some
            && b.selected->0.index == at {
            after_message(b, m).selected is Some && after_message(b, m).selected->0.index == at
                && after_message(b, m).selected->0.manifest == Some(res)
        } else {
            after_message(b, m) == b
        }),
        m matches RepoMsg::CountryThemes(g, c, res) ==> (if g == b.generation && b.country_panel is Some
            && b.country_panel->0.country@ == c@ {
            after_message(b, m).country_panel is Some && after_message(b, m).country_panel->0.country@
                == c@ && after_message(b, m).country_panel->0.themes == Some(res)
        } else {
            after_message(b, m) == b
        }),
        m matches RepoMsg::Snapshots(g, Ok(v)) ==> (g == b.generation ==> after_message(b, m).snapshots
            == v),
        m matches RepoMsg::Snapshots(g, Err(_)) ==> after_message(b, m) == b,
{
}

/// A path is in a country if one of its levels says so.
pub proof fn a_level_names_the_country(path: Seq<char>, country: Seq<char>)
    requires
        in_country(path, country),
    ensures
        exists|k: int|
            0 <= k < segments(path, '/').len() && #[trigger] segments(path, '/')[k] == "country="@
                + country,
        put_together(segments(path, '/'), '/') == path,
{
    parts_make_the_whole(path, '/');
}

/// The country of a path is the one its first such level names.
pub proof fn the_first_country_counts(levels: Seq<Seq<char>>, k: int, country: Seq<char>)
    requires
        0 <= k < levels.len(),
        levels[k] == "country="@ + country,
        forall|j: int| 0 <= j < k ==> !"country="@.is_prefix_of(#[trigger] levels[j]),
    ensures
        country_from(levels, 0) == Some(country),
{
    country_is_found(levels, 0, k, country);
}

proof fn country_is_found(levels: Seq<Seq<char>>, i: int, k: int, country: Seq<char>)
    requires
        0 <= i <= k < levels.len(),
        levels[k] == "country="@ + country,
        forall|j: int| i <= j < k ==> !"country="@.is_prefix_of(#[trigger] levels[j]),
    ensures
        country_from(levels, i) == Some(country),
    decreases k - i,
{
    let n = "country="@.len() as int;
    if i < k {
        country_is_found(levels, i + 1, k, country);
    } else {
        assert(levels[k].subrange(0, n) =~= "country="@);
        assert(levels[k].subrange(n, levels[k].len() as int) =~= country);
    }
}

/// A path without such a level is in no country.
pub proof fn no_level_no_country(levels: Seq<Seq<char>>, i: int)
    requires
        0 <= i <= levels.len(),
        forall|j: int| i <= j < levels.len() ==> !"country="@.is_prefix_of(#[trigger] levels[j]),
    ensures
        country_from(levels, i) is None,
    decreases levels.len() - i,
{
    if i < levels.len() {
        no_level_no_country(levels, i + 1);
    }
}

/// Another dataset's theme adds its features and its path to that theme of the
/// country, and changes no other.
pub proof fn a_dataset_adds_to_its_theme(es: Seq<Entry>, e: Entry, theme: Seq<char>)
    ensures
        features_of(Seq::empty(), theme) == 0,
        paths_of(Seq::empty(), theme).len() == 0,
        e.theme == theme && features_of(es, theme) + e.count <= u64::MAX ==> features_of(
            es.push(e),
            theme,
        ) == features_of(es, theme) + e.count,
        e.theme == theme ==> paths_of(es.push(e), theme) == paths_of(es, theme).push(e.path),
        e.theme != theme ==> features_of(es.push(e), theme) == features_of(es, theme) && paths_of(
            es.push(e),
            theme,
        ) == paths_of(es, theme),
{
    assert(es.push(e).drop_last() =~= es);
}

/// Every theme of every manifest is an entry, with its dataset's path and its
/// number of features, manifest by manifest.
pub proof fn every_theme_is_an_entry(ms: Seq<ReadManifest>, m: ReadManifest, k: int)
    requires
        0 <= k < m.themes@.len(),
    ensures
        entries(Seq::empty()).len() == 0,
        entries(ms.push(m)).len() == entries(ms).len() + m.themes@.len(),
        entries(ms).is_prefix_of(entries(ms.push(m))),
        ({
            let e = entries(ms.push(m))[entries(ms).len() + k];
            e.path == m.path@ && e.theme == m.themes@[k].theme@ && e.count == m.themes@[k].count
        }),
{
    assert(ms.push(m).drop_last() =~= ms);
    let all = entries(ms.push(m));
    assert(all.subrange(0, entries(ms).len() as int) =~= entries(ms));
}

/// A dataset is listed if it is in the country picked and its name or code has
/// what is searched for, whatever the case; nothing picked and nothing
/// searched for lists everything.
pub proof fn a_dataset_is_listed(d: Dataset, country: Seq<char>, filter: Seq<char>)
    ensures
        listed(d, country, filter) <==> (country.len() == 0 || occurs(
            "country="@ + country,
            d.path@,
        )) && (lowercase(filter).len() == 0 || occurs(lowercase(filter), lowercase(d.name@))
            || occurs(lowercase(filter), lowercase(d.code@))),
        listed(d, Seq::empty(), Seq::empty()),
{
    assert(Seq::<char>::empty().map_values(|c: char| crate::text::ascii_lower_char(c)) =~= Seq::empty());
    assert(crate::text::all_ascii(Seq::empty()));
}

/// A layer is named after its dataset and its theme, after the theme alone
/// where the dataset has no code of its own.
pub proof fn a_layer_is_named_after_its_theme(kind: RepoKind, code: Seq<char>, theme: Seq<char>)
    ensures
        kind is Stac ==> theme_layer_name(kind, code, theme) == theme,
        code.len() == 0 ==> theme_layer_name(kind, code, theme) == theme,
        !(kind is Stac) && code.len() > 0 ==> theme_layer_name(kind, code, theme) == code + " "@
            + theme,
{
}

/// The themes "all" ticks are those not too large, each once.
pub proof fn all_ticks_what_can_be_shown(themes: Seq<CountryTheme>, max: u64, n: nat)
    requires
        n <= themes.len(),
    ensures
        loadable_first(themes, max, n).no_duplicates(),
        forall|t: Seq<char>| #[trigger]
            loadable_first(themes, max, n).contains(t) <==> exists|k: int|
                0 <= k < n && (#[trigger] themes[k]).theme@ == t && themes[k].features <= max,
    decreases n,
{
    if n > 0 {
        let m = (n - 1) as nat;
        all_ticks_what_can_be_shown(themes, max, m);
        let before = loadable_first(themes, max, m);
        let after = loadable_first(themes, max, n);
        let here = themes[n - 1];
        if here.features <= max {
            inserted_contains(before, before.len() as int, here.theme@);
            assert(before.insert(before.len() as int, here.theme@) =~= before.push(here.theme@));
        }
        assert forall|t: Seq<char>| #[trigger] after.contains(t) <==> exists|k: int|
            0 <= k < n && (#[trigger] themes[k]).theme@ == t && themes[k].features <= max by {
            if before.contains(t) {
                let k = choose|k: int|
                    0 <= k < m && (#[trigger] themes[k]).theme@ == t && themes[k].features <= max;
                assert(themes[k].theme@ == t);
            }
            if exists|k: int|
                0 <= k < n && (#[trigger] themes[k]).theme@ == t && themes[k].features <= max {
                let k = choose|k: int|
                    0 <= k < n && (#[trigger] themes[k]).theme@ == t && themes[k].features <= max;
                if k < m {
                    assert(before.contains(t));
                }
            }
            if here.theme@ == t && here.features <= max {
                assert(themes[n - 1].theme@ == t);
            }
        }
    }
}

/// A pasted address that ends in the name of a catalog is of a STAC repository
/// at the address before it; any other is of one of ours, as it is.
pub proof fn an_address_tells_the_layout(base: Seq<char>)
    ensures
        repo_base(base + "/catalog.json"@) == (base, RepoKind::Stac),
        !"/catalog.json"@.is_suffix_of(base) ==> repo_base(base) == (base, RepoKind::Parquetry),
{
    let u = base + "/catalog.json"@;
    let n = "/catalog.json"@.len();
    assert(u.subrange(u.len() - n, u.len() as int) =~= "/catalog.json"@);
    assert(u.subrange(0, u.len() - n) =~= base);
}

/// What the pane shows: the dataset selected, where datasets are known; else
/// the themes of the country picked, where the repository has them and they
/// are that country's; else a hint.
pub proof fn the_pane_shows_what_is_selected(b: RepoBrowser)
    requires
        b.wf(),
    ensures
        b.pane_shown() is Dataset <==> b.selected is Some && b.datasets is Some && b.datasets->0 is Ok,
        b.pane_shown() is Country ==> b.country@.len() > 0 && b.country_panel is Some
            && b.country_panel->0.country@ == b.country@
            && b.repos@[b.sel_repo as int].kind is Parquetry,
        b.pane_shown() is Hint ==> b.country@.len() == 0 || b.country_panel is None
            || b.country_panel->0.country@ != b.country@
            || !(b.repos@[b.sel_repo as int].kind is Parquetry),
{
}

/// A request is about the repository and the snapshot selected.
pub proof fn a_request_is_about_the_selection(b: RepoBrowser, r: RepoRequest)
    requires
        b.wf(),
        b.asks(r),
    ensures
        r.generation == b.generation,
        r.kind == b.repos@[b.sel_repo as int].kind,
        r.snapshot == b.snapshots@[b.sel_snapshot as int].path,
        r.base@.is_prefix_of(b.repos@[b.sel_repo as int].url@),
        r.base@.len() > 0 ==> r.base@.last() != '/',
        forall|k: int|
            r.base@.len() <= k < b.repos@[b.sel_repo as int].url@.len() ==> #[trigger] b.repos@[b.sel_repo as int].url@[k]
                == '/',
{
    a_tail_is_a_tail(b.repos@[b.sel_repo as int].url@, '/');
}

/// The datasets of a country are those one of whose levels names it, in order.
pub proof fn a_country_has_its_datasets(
    ds: Seq<Dataset>,
    country: Seq<char>,
    n: nat,
)
    requires
        n <= ds.len(),
    ensures
        lists(
            country_paths(ds, country, n),
            n,
            |i: int| segments(ds[i].path@, '/').contains("country="@ + country),
            |i: int| ds[i].path@,
        ),
    decreases n,
{
    if n > 0 {
        a_country_has_its_datasets(ds, country, (n - 1) as nat);
        lists_one_more(
            country_paths(ds, country, (n - 1) as nat),
            country_paths(ds, country, n),
            (n - 1) as nat,
            |i: int| segments(ds[i].path@, '/').contains("country="@ + country),
            |i: int| ds[i].path@,
        );
    }
}

/// Of a dataset the ticked themes are loaded, in order, each from its file and
/// as a layer of its own.
pub proof fn ticked_themes_are_loaded(
    kind: RepoKind,
    d: Dataset,
    themes: Seq<ThemeCount>,
    checked: Seq<Seq<char>>,
    n: nat,
)
    requires
        n <= themes.len(),
    ensures
        lists(
            dataset_loads(kind, d, themes, checked, n),
            n,
            |i: int| checked.contains(themes[i].theme@),
            |i: int| ThemeLoadState { theme: themes[i].theme@, paths: seq![d.path@], name: if kind is Stac || d.code@.len() == 0 { themes[i].theme@ } else { d.code@ + " "@ + themes[i].theme@ } },
        ),
    decreases n,
{
    if n > 0 {
        ticked_themes_are_loaded(kind, d, themes, checked, (n - 1) as nat);
        lists_one_more(
            dataset_loads(kind, d, themes, checked, (n - 1) as nat),
            dataset_loads(kind, d, themes, checked, n),
            (n - 1) as nat,
            |i: int| checked.contains(themes[i].theme@),
            |i: int| ThemeLoadState { theme: themes[i].theme@, paths: seq![d.path@], name: if kind is Stac || d.code@.len() == 0 { themes[i].theme@ } else { d.code@ + " "@ + themes[i].theme@ } },
        );
    }
}

/// Of a country the ticked themes that are not too large are loaded, in order,
/// each from every dataset that has it and as one layer.
pub proof fn ticked_themes_are_loaded_country_wide(
    country: Seq<char>,
    themes: Seq<CountryTheme>,
    checked: Seq<Seq<char>>,
    max: u64,
    n: nat,
)
    requires
        n <= themes.len(),
    ensures
        lists(
            country_loads(country, themes, checked, max, n),
            n,
            |i: int| checked.contains(themes[i].theme@) && themes[i].features <= max,
            |i: int| ThemeLoadState { theme: themes[i].theme@, paths: texts(themes[i].paths@), name: country + " "@ + themes[i].theme@ + " (all)"@ },
        ),
    decreases n,
{
    if n > 0 {
        ticked_themes_are_loaded_country_wide(country, themes, checked, max, (n - 1) as nat);
        lists_one_more(
            country_loads(country, themes, checked, max, (n - 1) as nat),
            country_loads(country, themes, checked, max, n),
            (n - 1) as nat,
            |i: int| checked.contains(themes[i].theme@) && themes[i].features <= max,
            |i: int| ThemeLoadState { theme: themes[i].theme@, paths: texts(themes[i].paths@), name: country + " "@ + themes[i].theme@ + " (all)"@ },
        );
    }
}

/// An address is taken without the blanks around it and without slashes at its
/// end.
pub proof fn an_address_is_taken_bare(b: RepoBrowser)
    ensures
        entered_url(b).len() > 0 ==> entered_url(b).last() != '/',
        entered_url(b).is_prefix_of(trimmed(b.add_url@)),
        forall|i: int|
            entered_url(b).len() <= i < trimmed(b.add_url@).len() ==> #[trigger] trimmed(b.add_url@)[i] == '/',
{
    crate::text::a_tail_is_a_tail(trimmed(b.add_url@), '/');
}

/// The themes of a country are those of its datasets, each once, in order, with
/// the features of all of them.
pub proof fn a_union_has_each_theme_once(ts: Seq<CountryTheme>, es: Seq<Entry>, i: int, j: int)
    requires
        union_of(ts, es),
        0 <= i < j < ts.len(),
    ensures
        ts[i].theme@ != ts[j].theme@,
        ts[i].features == features_of(es, ts[i].theme@),
        texts(ts[i].paths@) == paths_of(es, ts[i].theme@),
        exists|k: int| 0 <= k < es.len() && (#[trigger] es[k]).theme == ts[i].theme@,
{
    let names = theme_names(ts);
    assert(names[i] == ts[i].theme@);
    assert(names[j] == ts[j].theme@);
    assert(names.contains(names[i]));
}

} // verus!
