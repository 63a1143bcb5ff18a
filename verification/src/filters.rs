//! Persistent layer filters: SQL predicates that decide which rows a layer
//! shows, and the dialog they are edited in.
use vstd::prelude::*;
use crate::counts::{count_text, fmt_count};
use crate::layers::{
    a_filter_shows_what_matches, all_full, filtered_loads, in_ranges, shows, GroupLoad, LayerFilter,
    LayerState,
};
use crate::session::{Effect, Session, ViewerApp, Work};
use crate::text::{cat2, lowercase, push_text, texts, to_lower, trim, trimmed};

verus! {

broadcast use vstd::std_specs::hash::group_hash_axioms;

/// The rows that match a predicate, as half-open ranges per row group.
#[derive(Debug)]
pub struct FilterRows {
    pub per_group: Vec<Vec<(u32, u32)>>,
    pub matched: usize,
}

/// The outcome of computing a filter.
#[derive(Debug)]
pub struct FilterMsg {
    pub layer_id: u64,
    pub predicate: String,
    pub result: Result<FilterRows, String>,
}

/// The name of a layer, empty where it is gone.
pub open spec fn name_of(s: Session, layer_id: u64) -> Seq<char> {
    if s.has_layer(layer_id) {
        s.layers[s.index_of(layer_id)].name
    } else {
        Seq::empty()
    }
}

impl Session {
    /// The matching rows become what the layer shows, for every viewport, and
    /// its geometry is built anew.
    pub open spec fn filter_applied(self, layer_id: u64, predicate: String, rows: FilterRows) -> Session {
        if self.has_layer(layer_id) {
            let i = self.index_of(layer_id);
            let l = self.layers[i];
            self.put(
                i,
                LayerState {
                    loaded: filtered_loads(l, rows.per_group@),
                    filter: Some(LayerFilter { sql: predicate, matched: rows.matched }),
                    feature_count: rows.matched,
                    ..l
                },
            ).begin_rebuild(i)
        } else {
            self
        }
    }

    /// Everything loads again.
    pub open spec fn filter_cleared(self, layer_id: u64) -> Session {
        if self.has_layer(layer_id) {
            let i = self.index_of(layer_id);
            let l = self.layers[i];
            self.put(
                i,
                LayerState {
                    loaded: Seq::new(
                        if l.starts.len() == 0 {
                            0
                        } else {
                            (l.starts.len() - 1) as nat
                        },
                        |g: int| GroupLoad::Full,
                    ),
                    filter: None,
                    feature_count: l.total_rows() as usize,
                    ..l
                },
            ).begin_rebuild(i)
        } else {
            self
        }
    }

    pub open spec fn on_filter(self, m: FilterMsg) -> Session {
        let s = Session {
            work: Work {
                filter_pending: self.work.filter_pending.remove(m.layer_id),
                ..self.work
            },
            ..self
        };
        match m.result {
            Err(e) => s.push_error("filter on "@ + name_of(s, m.layer_id) + ": "@ + e@),
            Ok(rows) => s.filter_applied(m.layer_id, m.predicate, rows),
        }
    }

    /// The rows of a filter fit the layer they are for.
    pub open spec fn rows_fit(self, layer_id: u64, rows: FilterRows) -> bool {
        self.has_layer(layer_id) ==> {
            let l = self.layers[self.index_of(layer_id)];
            l.wf() && rows.per_group@.len() <= l.loaded.len()
        }
    }
}

impl ViewerApp {
    /// Make the rows of a filter what the layer shows.
    pub fn apply_filter_rows(&mut self, layer_id: u64, predicate: String, rows: FilterRows)
        requires
            old(self)@.rows_fit(layer_id, rows),
        ensures
            final(self)@ == old(self)@.filter_applied(layer_id, predicate, rows),
    {
        let ghost before = self@;
        if let Some(i) = self.position(layer_id) {
            let matched: usize = rows.matched;
            let loaded = self.layers[i].filtered(rows.per_group);
            self.layers[i].loaded = loaded;
            self.layers[i].filter = Some(LayerFilter { sql: predicate, matched });
            self.layers[i].feature_count = matched;
            assert(self@.layers =~= before.layers.update(
                i as int,
                LayerState {
                    loaded: filtered_loads(before.layers[i as int], rows.per_group@),
                    filter: Some(LayerFilter { sql: predicate, matched }),
                    feature_count: matched,
                    ..before.layers[i as int]
                },
            ));
            self.begin_rebuild(i);
        }
    }

    /// Remove a layer's filter.
    pub fn clear_layer_filter(&mut self, layer_id: u64)
        ensures
            final(self)@ == old(self)@.filter_cleared(layer_id),
    {
        let ghost before = self@;
        if let Some(i) = self.position(layer_id) {
            let starts: usize = self.layers[i].starts.len();
            let n: usize = if starts == 0 {
                0
            } else {
                starts - 1
            };
            let rows: usize = if starts == 0 {
                0
            } else {
                #[verifier::truncate]
                (self.layers[i].starts[starts - 1] as usize)
            };
            self.layers[i].filter = None;
            self.layers[i].loaded = all_full(n);
            self.layers[i].feature_count = rows;
            assert(self@.layers =~= before.layers.update(
                i as int,
                LayerState {
                    loaded: Seq::new(n as nat, |g: int| GroupLoad::Full),
                    filter: None,
                    feature_count: before.layers[i as int].total_rows() as usize,
                    ..before.layers[i as int]
                },
            ));
            self.begin_rebuild(i);
        }
    }

    /// Build a layer's geometry anew, for a style its meshes lack.
    pub fn restyle_layer(&mut self, layer_id: u64)
        ensures
            final(self)@ == if old(self)@.has_layer(layer_id) {
                old(self)@.begin_rebuild(old(self)@.index_of(layer_id))
            } else {
                old(self)@
            },
    {
        if let Some(i) = self.position(layer_id) {
            self.begin_rebuild(i);
        }
    }

    /// New classes of a layer arrived from the viewport, or could not be
    /// computed. The caller has taken them in where the layer still is
    /// `graduated`; its geometry is built anew then.
    pub fn on_reclassified(&mut self, layer_id: u64, graduated: bool, error: Option<String>)
        ensures
            final(self)@ == match error {
                Some(e) => old(self)@.push_error("viewport reclassify: "@ + e@),
                None => if graduated && old(self)@.has_layer(layer_id) {
                    old(self)@.begin_rebuild(old(self)@.index_of(layer_id))
                } else {
                    old(self)@
                },
            },
    {
        match error {
            Some(e) => self.push_error(cat2("viewport reclassify: ", e.as_str())),
            None => if graduated {
                self.restyle_layer(layer_id);
            },
        }
    }

    /// Take in a computed filter.
    pub fn on_filter(&mut self, m: FilterMsg)
        requires
            m.result matches Ok(rows) ==> old(self)@.rows_fit(m.layer_id, rows),
        ensures
            final(self)@ == old(self)@.on_filter(m),
    {
        self.work.filter_pending.remove(&m.layer_id);
        match m.result {
            Err(e) => {
                let mut text = "filter on ".to_owned();
                if let Some(i) = self.position(m.layer_id) {
                    text.append(self.layers[i].name.as_str());
                }
                assert(text@ =~= "filter on "@ + name_of(self@, m.layer_id));
                text.append(": ");
                text.append(e.as_str());
                self.push_error(text);
            },
            Ok(rows) => self.apply_filter_rows(m.layer_id, m.predicate, rows),
        }
    }
}

// --- the dialog ---------------------------------------------------------------

/// Editor of a layer's filter.
#[derive(Debug)]
pub struct FilterDialog {
    pub layer_id: u64,
    pub text: String,
    /// The predicate last tested.
    pub test_pred: String,
    pub testing: bool,
    pub test: Option<Result<FilterRows, String>>,
}

/// What the dialog says about a test.
#[derive(Debug)]
pub enum TestNote {
    Nothing,
    Matches(String),
    Wrong(String),
}

/// The words completion offers in a predicate besides columns and functions.
pub open spec fn predicate_keywords() -> Seq<Seq<char>> {
    seq![
        "and"@,
        "or"@,
        "not"@,
        "like"@,
        "between"@,
        "in"@,
        "is null"@,
        "is not null"@,
    ]
}

/// Completion for a predicate: the columns in lower case, the functions, and
/// the keywords.
pub fn filter_words(columns: &Vec<String>, functions: &Vec<String>) -> (r: Vec<String>)
    ensures
        texts(r@) == texts(columns@).map_values(|c: Seq<char>| lowercase(c)) + texts(functions@)
            + predicate_keywords(),
{
    let mut out: Vec<String> = Vec::new();
    let ghost low = texts(columns@).map_values(|c: Seq<char>| lowercase(c));
    let mut i: usize = 0;
    while i < columns.len()
        invariant
            i <= columns@.len(),
            low == texts(columns@).map_values(|c: Seq<char>| lowercase(c)),
            texts(out@) =~= low.subrange(0, i as int),
        decreases columns@.len() - i,
    {
        push_text(&mut out, to_lower(columns[i].as_str()));
        i += 1;
    }
    assert(low.subrange(0, i as int) =~= low);
    let mut j: usize = 0;
    while j < functions.len()
        invariant
            j <= functions@.len(),
            texts(out@) =~= low + texts(functions@).subrange(0, j as int),
        decreases functions@.len() - j,
    {
        push_text(&mut out, functions[j].clone());
        j += 1;
    }
    assert(texts(functions@).subrange(0, j as int) =~= texts(functions@));
    let ghost head = out@;
    push_text(&mut out, "and".to_owned());
    push_text(&mut out, "or".to_owned());
    push_text(&mut out, "not".to_owned());
    push_text(&mut out, "like".to_owned());
    push_text(&mut out, "between".to_owned());
    push_text(&mut out, "in".to_owned());
    push_text(&mut out, "is null".to_owned());
    push_text(&mut out, "is not null".to_owned());
    assert(texts(out@) =~= texts(head) + predicate_keywords());
    out
}

impl FilterDialog {
    /// The editor for a layer, with the filter it has.
    pub fn open(app: &ViewerApp, layer_id: u64) -> (r: FilterDialog)
        ensures
            r.layer_id == layer_id,
            r.text@ == if app@.has_layer(layer_id) && app@.layers[app@.index_of(
                layer_id,
            )].filter is Some {
                app@.layers[app@.index_of(layer_id)].filter->0.sql@
            } else {
                Seq::empty()
            },
            r.test_pred@ == Seq::<char>::empty(),
            !r.testing,
            r.test is None,
    {
        let text = match app.position(layer_id) {
            Some(i) => match &app.layers[i].filter {
                Some(f) => f.sql.clone(),
                None => String::new(),
            },
            None => String::new(),
        };
        FilterDialog { layer_id, text, test_pred: String::new(), testing: false, test: None }
    }

    /// Whether Test and Apply are offered; `pending` says that a filter of
    /// the layer is being computed.
    pub fn can_run(&self, pending: bool) -> (r: bool)
        ensures
            r == (!pending && !self.testing && trimmed(self.text@).len() > 0),
    {
        let t = trim(self.text.as_str());
        !pending && !self.testing && !t.as_str().is_empty()
    }

    /// Start a test of the text as it stands; the predicate to try is
    /// returned.
    pub fn begin_test(&mut self) -> (predicate: String)
        ensures
            predicate@ == trimmed(old(self).text@),
            final(self).layer_id == old(self).layer_id,
            final(self).text == old(self).text,
            final(self).test_pred@ == trimmed(old(self).text@),
            final(self).testing,
            final(self).test is None,
    {
        let p = trim(self.text.as_str());
        self.test_pred = p.clone();
        self.testing = true;
        self.test = None;
        p
    }

    /// Take in the outcome of a test, where it is the one waited for.
    pub fn on_test(&mut self, m: FilterMsg)
        ensures
            final(self).layer_id == old(self).layer_id,
            final(self).text == old(self).text,
            final(self).test_pred == old(self).test_pred,
            if m.layer_id == old(self).layer_id && m.predicate@ == old(self).test_pred@ {
                !final(self).testing && final(self).test == Some(m.result)
            } else {
                *final(self) == *old(self)
            },
    {
        if self.layer_id == m.layer_id && self.test_pred == m.predicate {
            self.testing = false;
            self.test = Some(m.result);
        }
    }

    /// The outcome of the test, as long as the text is what was tested.
    pub fn note(&self) -> (r: TestNote)
        ensures
            match r {
                TestNote::Nothing => self.test is None || self.test_pred@ != trimmed(self.text@),
                TestNote::Matches(t) => {
                    &&& self.test matches Some(Ok(rows))
                    &&& self.test_pred@ == trimmed(self.text@)
                    &&& t@ == "✔ "@ + count_text(rows.matched as nat) + " rows match"@
                },
                TestNote::Wrong(t) => {
                    &&& self.test matches Some(Err(e))
                    &&& self.test_pred@ == trimmed(self.text@)
                    &&& t@ == e@
                },
            },
    {
        let now = trim(self.text.as_str());
        if self.test_pred != now {
            return TestNote::Nothing;
        }
        match &self.test {
            None => TestNote::Nothing,
            Some(Ok(rows)) => {
                let mut t = "✔ ".to_owned();
                t.append(fmt_count(rows.matched).as_str());
                t.append(" rows match");
                TestNote::Matches(t)
            },
            Some(Err(e)) => TestNote::Wrong(e.clone()),
        }
    }

    /// Apply: the predicate, and its rows where they were computed for
    /// exactly this text.
    pub fn apply(self) -> (r: (String, Option<FilterRows>))
        ensures
            r.0@ == trimmed(self.text@),
            r.1 == match self.test {
                Some(Ok(rows)) => if self.test_pred@ == trimmed(self.text@) {
                    Some(rows)
                } else {
                    None
                },
                _ => None,
            },
    {
        let predicate = trim(self.text.as_str());
        let cached = if self.test_pred == predicate {
            match self.test {
                Some(Ok(rows)) => Some(rows),
                _ => None,
            }
        } else {
            None
        };
        (predicate, cached)
    }
}

/// A filter makes the layer show exactly the rows that match, counted as such,
/// and its geometry is built anew; no other layer changes.
pub proof fn a_filter_is_put_on_one_layer(s: Session, id: u64, predicate: String, rows: FilterRows, i: int, g: int, r: int)
    requires
        s.has_layer(id),
        s.rows_fit(id, rows),
    ensures
        ({
            let at = s.index_of(id);
            let t = s.filter_applied(id, predicate, rows);
            let l = t.layers[at];
            &&& t.layers.len() == s.layers.len()
            &&& 0 <= i < s.layers.len() && i != at ==> t.layers[i] == s.layers[i]
            &&& l.id == id && l.name == s.layers[at].name && l.starts == s.layers[at].starts
            &&& l.filter is Some && l.filter->0.sql == predicate && l.filter->0.matched == rows.matched
            &&& l.feature_count == rows.matched
            &&& l.loaded.len() == rows.per_group@.len()
            &&& 0 <= g < rows.per_group@.len() && 0 <= r < l.starts[g + 1] - l.starts[g] ==> shows(
                l.loaded[g],
                r,
            ) == in_ranges(rows.per_group@[g]@, r)
            &&& t.work.rebuilding.contains(id)
            &&& t.outbox == s.outbox.push(
                Effect::SpawnRebuild {
                    layer_id: id,
                    generation: s.layers[at].generation.wrapping_add(1),
                    flag: s.flags.next(),
                },
            )
        }),
{
    let at = s.index_of(id);
    crate::laws::index_is_in_range(s.layers, id, 0);
    a_filter_shows_what_matches(s.layers[at], rows.per_group@);
    if 0 <= g < rows.per_group@.len() && 0 <= r < s.layers[at].starts[g + 1] - s.layers[at].starts[g] {
        let f = filtered_loads(s.layers[at], rows.per_group@);
        assert(shows(f[g], r) == in_ranges(rows.per_group@[g]@, r));
    }
}

/// Clearing a filter shows every row again, and counts them all.
pub proof fn a_cleared_filter_shows_all(s: Session, id: u64, i: int, g: int)
    requires
        s.has_layer(id),
        s.layers[s.index_of(id)].wf(),
        s.layers[s.index_of(id)].starts.last() <= usize::MAX,
    ensures
        ({
            let at = s.index_of(id);
            let t = s.filter_cleared(id);
            let l = t.layers[at];
            &&& 0 <= i < s.layers.len() && i != at ==> t.layers[i] == s.layers[i]
            &&& l.filter is None && l.id == id
            &&& l.loaded.len() == s.layers[at].loaded.len()
            &&& 0 <= g < l.loaded.len() ==> l.loaded[g] is Full
            &&& l.feature_count == s.layers[at].starts.last()
            &&& t.work.rebuilding.contains(id)
        }),
{
    crate::laws::index_is_in_range(s.layers, id, 0);
}

/// A computed filter is put on its layer; one that could not be computed is
/// reported, and the layer stays as it is. Either way it is no longer awaited.
pub proof fn a_computed_filter_is_used_or_reported(s: Session, m: FilterMsg)
    ensures
        !s.on_filter(m).work.filter_pending.contains(m.layer_id),
        m.result is Err ==> s.on_filter(m).layers == s.layers && s.on_filter(m).errors.len()
            == s.errors.len() + 1 && s.on_filter(m).show_errors && m.result->Err_0@.is_suffix_of(
            s.on_filter(m).errors.last(),
        ),
        m.result is Ok ==> s.on_filter(m).errors == s.errors && s.on_filter(m).layers
            == s.filter_applied(m.layer_id, m.predicate, m.result->Ok_0).layers,
{
    if m.result is Err {
        let e = m.result->Err_0@;
        let t = s.on_filter(m).errors.last();
        assert(t.subrange(t.len() - e.len(), t.len() as int) =~= e);
    }
}

} // verus!
