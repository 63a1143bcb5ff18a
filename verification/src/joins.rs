//! Joining an attribute table onto a layer.
use vstd::prelude::*;
use crate::counts::{count_text, fmt_count};
use crate::panel::without;
use crate::session::{Loads, Session, SourceInfo, ViewerApp};
use crate::tally::{lists, lists_alike, lists_one_more};
use crate::text::{
    cat2, cat3, cat4, cat5, copy_texts, dec, decimal, digit, list_has, push_text, same, texts,
};

verus! {

broadcast use vstd::std_specs::hash::group_hash_axioms;

/// A column of the table, and whether it is brought across.
#[derive(Debug)]
pub struct JoinColumn {
    pub name: String,
    pub on: bool,
}

/// Features counted, and those of them that found a row.
#[derive(Clone, Copy, PartialEq, Eq, Structural, Debug)]
pub struct MatchCount {
    pub total: i64,
    pub matched: i64,
}

/// A join being set up.
#[derive(Debug)]
pub struct JoinDialog {
    pub table_id: u64,
    pub layer_id: u64,
    pub layer_key: String,
    pub table_key: String,
    pub fields: Vec<JoinColumn>,
    /// Keep features the table has no row for.
    pub keep_unmatched: bool,
    /// Replace the layer rather than adding one beside it.
    pub replace: bool,
    pub probe: Option<Result<MatchCount, String>>,
    /// The query waited for.
    pub pending: Option<u64>,
    pub running: bool,
}

/// The columns, all brought across.
pub open spec fn all_on(fields: Seq<JoinColumn>, names: Seq<Seq<char>>) -> bool {
    &&& fields.len() == names.len()
    &&& forall|i: int|
        0 <= i < fields.len() ==> (#[trigger] fields[i]).name@ == names[i] && fields[i].on
}

impl JoinDialog {
    /// The dialog as it opens, onto the bottom-most layer.
    pub fn open(table_id: u64, first_layer: Option<u64>, columns: &Vec<String>) -> (r: JoinDialog)
        ensures
            r.table_id == table_id,
            r.layer_id == match first_layer {
                Some(id) => id,
                None => 0,
            },
            r.layer_key@ == Seq::<char>::empty(),
            r.table_key@ == Seq::<char>::empty(),
            all_on(r.fields@, texts(columns@)),
            r.keep_unmatched && !r.replace && !r.running,
            r.probe is None && r.pending is None,
    {
        let mut fields: Vec<JoinColumn> = Vec::new();
        let mut i: usize = 0;
        while i < columns.len()
            invariant
                i <= columns@.len(),
                all_on(fields@, texts(columns@).subrange(0, i as int)),
            decreases columns@.len() - i,
        {
            fields.push(JoinColumn { name: columns[i].clone(), on: true });
            i += 1;
        }
        assert(texts(columns@).subrange(0, i as int) =~= texts(columns@));
        let layer_id: u64 = match first_layer {
            Some(id) => id,
            None => 0,
        };
        JoinDialog {
            table_id,
            layer_id,
            layer_key: String::new(),
            table_key: String::new(),
            fields,
            keep_unmatched: true,
            replace: false,
            probe: None,
            pending: None,
            running: false,
        }
    }

    /// Join onto another layer; its key has to be picked anew.
    pub fn select_layer(&mut self, id: u64)
        ensures
            final(self).layer_key@ == Seq::<char>::empty(),
            *final(self) == (JoinDialog {
                layer_id: id,
                layer_key: final(self).layer_key,
                ..*old(self)
            }),
    {
        self.layer_id = id;
        self.layer_key = String::new();
    }

    /// Both keys are picked.
    pub open spec fn keyed(self) -> bool {
        self.layer_key@.len() > 0 && self.table_key@.len() > 0
    }

    /// Whether the matches can be counted.
    pub fn can_probe(&self) -> (r: bool)
        ensures
            r == self.keyed(),
    {
        !self.layer_key.as_str().is_empty() && !self.table_key.as_str().is_empty()
    }

    /// Whether the join can start; `named` says that both sides are known to
    /// SQL.
    pub fn can_join(&self, named: bool) -> (r: bool)
        ensures
            r == (self.keyed() && named && !self.running),
    {
        self.can_probe() && named && !self.running
    }

    /// Counting starts, under this number.
    pub fn begin_probe(&mut self, id: u64)
        ensures
            *final(self) == (JoinDialog { pending: Some(id), probe: None, ..*old(self) }),
    {
        self.pending = Some(id);
        self.probe = None;
    }

    /// The join starts, under this number; the layer it is to replace, if
    /// any, is returned.
    pub fn begin_join(&mut self, id: u64) -> (replaces: Option<u64>)
        ensures
            *final(self) == (JoinDialog { pending: Some(id), running: true, ..*old(self) }),
            replaces == if old(self).replace {
                Some(old(self).layer_id)
            } else {
                None
            },
    {
        self.running = true;
        self.pending = Some(id);
        if self.replace {
            Some(self.layer_id)
        } else {
            None
        }
    }
}

// --- names of the columns brought across --------------------------------------------

/// The `n`-th name tried for a column: its own first, then numbered ones.
pub open spec fn candidate(name: Seq<char>, n: nat) -> Seq<char> {
    if n < 2 {
        name
    } else {
        name + "_"@ + decimal(n)
    }
}

/// The first name tried that is not in use.
pub open spec fn first_free(used: Seq<Seq<char>>, name: Seq<char>, out: Seq<char>) -> bool {
    exists|n: nat| #[trigger] free_at(used, name, out, n)
}

/// The `n`-th name is free, and none tried before it is.
pub open spec fn free_at(used: Seq<Seq<char>>, name: Seq<char>, out: Seq<char>, n: nat) -> bool {
    &&& n >= 1
    &&& out == candidate(name, n)
    &&& !used.contains(out)
    &&& forall|m: nat| 1 <= m < n ==> used.contains(#[trigger] candidate(name, m))
}

proof fn digits_differ(a: nat, b: nat)
    requires
        a < 10,
        b < 10,
        digit(a) == digit(b),
    ensures
        a == b,
{
}

/// Numbers that print alike are the same.
pub proof fn decimal_is_injective(a: nat, b: nat)
    requires
        decimal(a) == decimal(b),
    ensures
        a == b,
    decreases a,
{
    if a < 10 && b < 10 {
        assert(decimal(a)[0] == digit(a) && decimal(b)[0] == digit(b));
        digits_differ(a, b);
    } else if a >= 10 && b >= 10 {
        assert(decimal(a).drop_last() =~= decimal(a / 10));
        assert(decimal(b).drop_last() =~= decimal(b / 10));
        decimal_is_injective(a / 10, b / 10);
        assert(decimal(a).last() == digit(a % 10) && decimal(b).last() == digit(b % 10));
        digits_differ(a % 10, b % 10);
    } else {
        decimal_is_not_empty(a / 10);
        decimal_is_not_empty(b / 10);
    }
}

proof fn decimal_is_not_empty(a: nat)
    ensures
        decimal(a).len() > 0,
    decreases a,
{
    if a >= 10 {
        decimal_is_not_empty(a / 10);
    }
}

proof fn candidates_differ(name: Seq<char>, m: nat, n: nat)
    requires
        1 <= m < n,
    ensures
        candidate(name, m) != candidate(name, n),
{
    reveal_strlit("_");
    if candidate(name, m) == candidate(name, n) {
        if m < 2 {
            assert(candidate(name, n).len() > name.len());
        } else {
            let a = candidate(name, m);
            let k = (name + "_"@).len() as int;
            assert(a.subrange(k, a.len() as int) =~= decimal(m));
            let b = candidate(name, n);
            assert(b.subrange(k, b.len() as int) =~= decimal(n));
            decimal_is_injective(m, n);
        }
    }
}

/// So many distinct names in use take a list at least as long.
proof fn tried_names_are_bounded(used: Seq<Seq<char>>, name: Seq<char>, n: nat)
    requires
        n >= 1,
        forall|m: nat| 1 <= m < n ==> used.contains(#[trigger] candidate(name, m)),
    ensures
        n <= used.len() + 1,
{
    let tried = Seq::new((n - 1) as nat, |i: int| candidate(name, (i + 1) as nat));
    assert forall|i: int, j: int| 0 <= i < j < tried.len() implies tried[i] != tried[j] by {
        candidates_differ(name, (i + 1) as nat, (j + 1) as nat);
    }
    assert(tried.no_duplicates());
    assert forall|x: Seq<char>| tried.to_set().contains(x) implies used.to_set().contains(x) by {
        let i = choose|i: int| 0 <= i < tried.len() && tried[i] == x;
        assert(used.contains(candidate(name, (i + 1) as nat)));
    }
    tried.unique_seq_to_set();
    vstd::seq_lib::seq_to_set_is_finite(used);
    vstd::set_lib::lemma_len_subset(tried.to_set(), used.to_set());
    used.lemma_cardinality_of_set();
}

fn free_name(used: &Vec<String>, name: &String) -> (r: String)
    requires
        used@.len() < usize::MAX - 1,
    ensures
        first_free(texts(used@), name@, r@),
{
    let mut out = name.clone();
    let mut n: u64 = 1;
    while list_has(used, out.as_str())
        invariant
            n >= 1,
            used@.len() < usize::MAX - 1,
            out@ == candidate(name@, n as nat),
            n <= used@.len() + 1,
            forall|m: nat| 1 <= m < n ==> texts(used@).contains(#[trigger] candidate(name@, m)),
        decreases used@.len() + 2 - n,
    {
        let ghost before = n as nat;
        n = n + 1;
        let d = dec(n);
        out = cat3(name.as_str(), "_", d.as_str());
        proof {
            assert forall|m: nat| 1 <= m < n implies texts(used@).contains(
                #[trigger] candidate(name@, m),
            ) by {
                if m == before {
                    assert(texts(used@).contains(candidate(name@, before)));
                }
            }
            tried_names_are_bounded(texts(used@), name@, n as nat);
        }
    }
    assert(free_at(texts(used@), name@, out@, n as nat));
    out
}

/// A column brought across and the name it gets.
#[derive(Debug)]
pub struct JoinField {
    pub source: String,
    pub out: String,
}

pub open spec fn sources(v: Seq<JoinField>) -> Seq<Seq<char>> {
    v.map_values(|f: JoinField| f.source@)
}

pub open spec fn outs(v: Seq<JoinField>) -> Seq<Seq<char>> {
    v.map_values(|f: JoinField| f.out@)
}

/// The columns to bring across: those ticked but the key.
pub open spec fn brought(fields: Seq<JoinColumn>, key: Seq<char>) -> Seq<Seq<char>>
    decreases fields.len(),
{
    if fields.len() == 0 {
        Seq::empty()
    } else {
        let before = brought(fields.drop_last(), key);
        if fields.last().on && fields.last().name@ != key {
            before.push(fields.last().name@)
        } else {
            before
        }
    }
}

/// Every column gets the first name free beside the layer's own columns and
/// the columns before it.
pub open spec fn well_named(taken: Seq<Seq<char>>, v: Seq<JoinField>) -> bool {
    forall|i: int|
        0 <= i < v.len() ==> first_free(
            taken + outs(v).subrange(0, i),
            (#[trigger] v[i]).source@,
            v[i].out@,
        )
}

impl JoinDialog {
    /// The columns brought across and their names; `taken` are the layer's.
    pub fn join_fields(&self, taken: &Vec<String>) -> (r: Vec<JoinField>)
        requires
            taken@.len() + self.fields@.len() < usize::MAX - 1,
        ensures
            sources(r@) == brought(self.fields@, self.table_key@),
            well_named(texts(taken@), r@),
    {
        let mut used = copy_texts(taken);
        let ghost own = texts(taken@);
        let mut out: Vec<JoinField> = Vec::new();
        let mut i: usize = 0;
        assert(sources(out@) =~= Seq::empty());
        while i < self.fields.len()
            invariant
                i <= self.fields@.len(),
                own == texts(taken@),
                taken@.len() + self.fields@.len() < usize::MAX - 1,
                used@.len() <= taken@.len() + i,
                sources(out@) == brought(self.fields@.subrange(0, i as int), self.table_key@),
                texts(used@) =~= own + outs(out@),
                well_named(own, out@),
            decreases self.fields@.len() - i,
        {
            assert(self.fields@.subrange(0, i + 1).drop_last() =~= self.fields@.subrange(
                0,
                i as int,
            ));
            let f = &self.fields[i];
            if f.on && !same(f.name.as_str(), self.table_key.as_str()) {
                let name = free_name(&used, &f.name);
                let ghost before = out@;
                push_text(&mut used, name.clone());
                out.push(JoinField { source: f.name.clone(), out: name });
                assert(sources(out@) =~= sources(before).push(f.name@));
                assert(outs(out@) =~= outs(before).push(name@));
                assert forall|k: int| 0 <= k < out@.len() implies first_free(
                    own + outs(out@).subrange(0, k),
                    (#[trigger] out@[k]).source@,
                    out@[k].out@,
                ) by {
                    if k < before.len() {
                        assert(out@[k] == before[k]);
                        assert(outs(out@).subrange(0, k) =~= outs(before).subrange(0, k));
                    } else {
                        assert(outs(out@).subrange(0, k) =~= outs(before));
                    }
                }
            }
            i += 1;
        }
        assert(self.fields@.subrange(0, i as int) =~= self.fields@);
        out
    }
}

/// No column brought across shadows one of the layer's, or another one.
pub proof fn joined_names_are_distinct(taken: Seq<Seq<char>>, v: Seq<JoinField>, i: int, j: int)
    requires
        well_named(taken, v),
        0 <= i < v.len(),
        0 <= j < i,
    ensures
        !taken.contains(v[i].out@),
        v[i].out@ != v[j].out@,
{
    let used = taken + outs(v).subrange(0, i);
    assert(first_free(used, v[i].source@, v[i].out@));
    if taken.contains(v[i].out@) {
        let k = choose|k: int| 0 <= k < taken.len() && taken[k] == v[i].out@;
        assert(used[k] == v[i].out@);
    }
    if v[i].out@ == v[j].out@ {
        assert(used[taken.len() + j] == v[j].out@);
    }
}

// --- what the query engine answers -----------------------------------------------------

/// An answer of the query engine.
#[derive(Debug)]
pub enum JoinAnswer {
    /// The two numbers of a count, where they could be read.
    Counted(Option<i64>, Option<i64>),
    /// The joined rows were written to a file.
    Written,
    Failed(String),
}

/// What an answer leaves to be done.
#[derive(Debug)]
pub enum JoinStep {
    Nothing,
    /// Open the file that was written.
    Finish,
    Error(String),
}

/// The dialog waits for this answer.
pub open spec fn awaited(d: JoinDialog, id: u64) -> bool {
    d.pending == Some(id) || d.running
}

impl JoinDialog {
    /// Take in an answer; one nobody waits for is dropped.
    pub fn on_answer(&mut self, id: u64, a: JoinAnswer) -> (r: JoinStep)
        ensures
            if !awaited(*old(self), id) {
                r is Nothing && *final(self) == *old(self)
            } else {
                match a {
                    JoinAnswer::Counted(t, m) => {
                        &&& r is Nothing
                        &&& *final(self) == (JoinDialog {
                            pending: None,
                            probe: final(self).probe,
                            ..*old(self)
                        })
                        &&& match final(self).probe {
                            Some(Ok(c)) => t == Some(c.total) && m == Some(c.matched),
                            Some(Err(e)) => (t is None || m is None) && e@
                                == "could not count matches"@,
                            None => false,
                        }
                    },
                    JoinAnswer::Written => r is Finish && *final(self) == *old(self),
                    JoinAnswer::Failed(e) => if old(self).running {
                        &&& r matches JoinStep::Error(x)
                        &&& x@ == "join failed: "@ + e@
                        &&& *final(self) == (JoinDialog { running: false, ..*old(self) })
                    } else {
                        &&& r is Nothing
                        &&& *final(self) == (JoinDialog {
                            pending: None,
                            probe: Some(Err(e)),
                            ..*old(self)
                        })
                    },
                }
            },
    {
        let expected = match self.pending {
            Some(p) => p == id,
            None => false,
        };
        if !expected && !self.running {
            return JoinStep::Nothing;
        }
        match a {
            JoinAnswer::Counted(t, m) => {
                self.pending = None;
                self.probe = Some(
                    match (t, m) {
                        (Some(total), Some(matched)) => Ok(MatchCount { total, matched }),
                        _ => Err("could not count matches".to_owned()),
                    },
                );
                JoinStep::Nothing
            },
            JoinAnswer::Written => JoinStep::Finish,
            JoinAnswer::Failed(e) => {
                if self.running {
                    self.running = false;
                    JoinStep::Error(cat2("join failed: ", e.as_str()))
                } else {
                    self.pending = None;
                    self.probe = Some(Err(e));
                    JoinStep::Nothing
                }
            },
        }
    }
}

/// How a match count is shown.
#[derive(Clone, Copy, PartialEq, Eq, Structural, Debug)]
pub enum MatchTone {
    /// Nothing matched.
    Alarm,
    /// Some features found no row.
    Warn,
    Plain,
}

/// The tone of a count.
pub fn match_tone(c: MatchCount) -> (r: MatchTone)
    ensures
        r == if c.matched == 0 {
            MatchTone::Alarm
        } else if c.matched < c.total {
            MatchTone::Warn
        } else {
            MatchTone::Plain
        },
{
    if c.matched == 0 {
        MatchTone::Alarm
    } else if c.matched < c.total {
        MatchTone::Warn
    } else {
        MatchTone::Plain
    }
}

/// "12 of 40k features matched".
pub fn match_text(matched: usize, total: usize) -> (r: String)
    ensures
        r@ == count_text(matched as nat) + " of "@ + count_text(total as nat)
            + " features matched"@,
{
    let m = fmt_count(matched);
    let t = fmt_count(total);
    cat4(m.as_str(), " of ", t.as_str(), " features matched")
}

/// The file the joined rows are written to.
pub fn join_file_name(process: u32, id: u64) -> (r: String)
    ensures
        r@ == "geopq_join_"@ + decimal(process as nat) + "_"@ + decimal(id as nat) + ".parquet"@,
{
    let p = dec(process as u64);
    let n = dec(id);
    cat5("geopq_join_", p.as_str(), "_", n.as_str(), ".parquet")
}

// --- putting the result on the map ------------------------------------------------------

/// The session after the joined rows were put to load. Where they stand in
/// for a layer, that one goes, and its name and style pass on.
pub open spec fn join_finished(s: Session, replaced: Option<u64>, source: SourceInfo, after: Session) -> bool {
    let job = s.queue.next_job;
    match replaced {
        Some(id) => {
            let t = Session { layers: without(s.layers, id), ..s }.enqueue_load(source);
            if s.has_layer(id) {
                let l = s.layers[s.index_of(id)];
                &&& after.queue.pending_names.contains_key(job)
                &&& after.queue.pending_names[job]@ == l.name
                &&& after == (Session {
                    queue: Loads {
                        pending_styles: t.queue.pending_styles.insert(job, l.style),
                        pending_names: t.queue.pending_names.insert(
                            job,
                            after.queue.pending_names[job],
                        ),
                        ..t.queue
                    },
                    ..t
                })
            } else {
                after == t
            }
        },
        None => after == s.enqueue_load(source),
    }
}

impl ViewerApp {
    /// Whether the join dialog stays open: only while there is a layer to
    /// join onto. Without one it closes, and says why.
    pub fn keeps_join_open(&mut self) -> (r: bool)
        ensures
            r == (old(self)@.layers.len() > 0),
            final(self)@ == if r {
                old(self)@
            } else {
                old(self)@.push_error("a join needs a layer to join onto"@)
            },
    {
        if self.layers.len() == 0 {
            self.push_error("a join needs a layer to join onto".to_owned());
            return false;
        }
        true
    }

    /// Load joined rows, in place of a layer where one is named.
    pub fn finish_join(&mut self, replaced: Option<u64>, source: SourceInfo)
        ensures
            join_finished(old(self)@, replaced, source, final(self)@),
    {
        match replaced {
            Some(id) => {
                let carried = match self.position(id) {
                    Some(i) => Some((self.layers[i].name.clone(), self.layers[i].style)),
                    None => None,
                };
                self.drop_layers(id);
                let job = self.enqueue_load(source);
                if let Some((name, style)) = carried {
                    self.queue.pending_names.insert(job, name);
                    self.queue.pending_styles.insert(job, style);
                }
            },
            None => {
                self.enqueue_load(source);
            },
        }
    }
}

/// A column keeps its name where that is free; otherwise it gets a number
/// behind it, the smallest from 2 on that makes it free.
pub proof fn a_free_name_is_kept(used: Seq<Seq<char>>, name: Seq<char>, out: Seq<char>)
    requires
        first_free(used, name, out),
    ensures
        !used.contains(out),
        !used.contains(name) ==> out == name,
        used.contains(name) ==> exists|n: nat|
            n >= 2 && out == name + "_"@ + #[trigger] decimal(n) && forall|m: nat|
                2 <= m < n ==> used.contains(name + "_"@ + #[trigger] decimal(m)),
{
    let n = choose|n: nat| #[trigger] free_at(used, name, out, n);
    assert(candidate(name, 1) == name);
    if used.contains(name) {
        assert(n >= 2);
        assert forall|m: nat| 2 <= m < n implies used.contains(name + "_"@ + #[trigger] decimal(m)) by {
            assert(used.contains(candidate(name, m)));
        }
        assert(out == name + "_"@ + decimal(n));
    } else if n > 1 {
        assert(used.contains(candidate(name, 1)));
    }
}

/// A join needs a key on both sides.
pub proof fn a_join_needs_both_keys(d: JoinDialog)
    ensures
        d.keyed() <==> d.layer_key@.len() > 0 && d.table_key@.len() > 0,
        forall|id: u64| awaited(d, id) <==> d.running || d.pending == Some(id),
{
}

/// Joined rows are put to load; where they stand in for a layer it goes, and
/// the new one will have its name and its style.
pub proof fn a_join_stands_in_for_its_layer(s: Session, replaced: Option<u64>, source: SourceInfo, after: Session)
    requires
        join_finished(s, replaced, source, after),
    ensures
        after.queue.loading.contains_key(s.queue.next_job),
        after.queue.loading[s.queue.next_job].label == source.label,
        replaced is None ==> after.layers == s.layers,
        replaced matches Some(id) ==> after.layers == without(s.layers, id),
        replaced matches Some(id) ==> (s.has_layer(id) ==> after.queue.pending_styles.contains_pair(
            s.queue.next_job,
            s.layers[s.index_of(id)].style,
        ) && after.queue.pending_names.contains_key(s.queue.next_job)
            && after.queue.pending_names[s.queue.next_job]@ == s.layers[s.index_of(id)].name),
{
}

/// The columns brought across are those ticked but the key, in order.
pub proof fn ticked_columns_are_brought(fields: Seq<JoinColumn>, key: Seq<char>)
    ensures
        lists(brought(fields, key), fields.len(), |i: int| fields[i].on && fields[i].name@ != key, |i: int| fields[i].name@),
    decreases fields.len(),
{
    if fields.len() > 0 {
        let init = fields.drop_last();
        ticked_columns_are_brought(init, key);
        lists_alike(
            brought(init, key),
            init.len(),
            |i: int| init[i].on && init[i].name@ != key,
            |i: int| init[i].name@,
            |i: int| fields[i].on && fields[i].name@ != key,
            |i: int| fields[i].name@,
        );
        lists_one_more(
            brought(init, key),
            brought(fields, key),
            init.len(),
            |i: int| fields[i].on && fields[i].name@ != key,
            |i: int| fields[i].name@,
        );
    }
}

} // verus!
