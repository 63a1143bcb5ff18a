//! Grid summaries: aggregating a column of a layer into cells.
use std::collections::VecDeque;
use vstd::prelude::*;
use crate::tally::{lists, lists_alike, lists_one_more};
use crate::text::{cat2, cat3, cat7, dec, decimal, list_has, push_text, texts};

verus! {

/// A column that can be aggregated or styled by.
#[derive(Debug)]
pub struct ValueColumn {
    pub name: String,
    pub numeric: bool,
}

#[derive(Clone, Copy, PartialEq, Eq, Structural, Debug)]
pub enum CellKind {
    Square,
    H3,
    A5,
}

#[derive(Clone, Copy, PartialEq, Eq, Structural, Debug)]
pub enum GridStat {
    Mean,
    Median,
    Sum,
    Count,
    Density,
    Majority,
    Minority,
}

/// Statistics of text columns.
pub open spec fn of_text(s: GridStat) -> bool {
    s is Majority || s is Minority
}

#[derive(Clone, Copy, PartialEq, Eq, Structural, Debug)]
pub enum Kernel {
    Box,
    Gaussian,
}

/// What is done to the cells after aggregation.
#[derive(Clone, Copy, PartialEq, Eq, Structural, Debug)]
pub enum PostKind {
    Plain,
    FocalStd,
    Open,
    Close,
    Hillshade,
}

#[derive(Clone, Copy, PartialEq, Eq, Structural, Debug)]
pub enum GridOutput {
    Cells,
    Contours { levels: u32, quantile: bool },
}

/// The grid dialog. Sizes and angles are kept as the bits of doubles.
#[derive(Debug)]
pub struct GridState {
    pub layer_id: u64,
    pub layer_name: String,
    pub columns: Vec<String>,
    /// The text ones among them.
    pub text_cols: Vec<String>,
    pub column: String,
    pub system: CellKind,
    pub size: u64,
    pub h3_res: u8,
    pub a5_res: i32,
    pub stat: GridStat,
    pub kernel: Kernel,
    pub passes: u32,
    pub post: PostKind,
    pub azimuth: u64,
    pub altitude: u64,
    pub contours: bool,
    pub levels: u32,
    pub quantile_levels: bool,
    pub running: bool,
    /// From 0 to 1, as the bits of a single-precision number.
    pub progress: u32,
    pub error: Option<String>,
}

/// 1000, as the bits of a double.
pub const DEFAULT_CELL_SIZE: u64 = 0x408f_4000_0000_0000;

/// 315 degrees, as the bits of a double.
pub const DEFAULT_AZIMUTH: u64 = 0x4073_b000_0000_0000;

/// 45 degrees, as the bits of a double.
pub const DEFAULT_ALTITUDE: u64 = 0x4046_8000_0000_0000;

/// The names of the columns.
pub open spec fn column_names(cols: Seq<ValueColumn>) -> Seq<Seq<char>> {
    cols.map_values(|c: ValueColumn| c.name@)
}

/// The names of the text columns.
pub open spec fn text_column_names(cols: Seq<ValueColumn>) -> Seq<Seq<char>>
    decreases cols.len(),
{
    if cols.len() == 0 {
        Seq::empty()
    } else if cols.last().numeric {
        text_column_names(cols.drop_last())
    } else {
        text_column_names(cols.drop_last()).push(cols.last().name@)
    }
}

/// The first column from `i` on that is not one of `text`, or the end.
pub open spec fn numeric_at(names: Seq<Seq<char>>, text: Seq<Seq<char>>, i: int) -> int
    decreases names.len() - i,
{
    if i >= names.len() {
        names.len() as int
    } else if !text.contains(names[i]) {
        i
    } else {
        numeric_at(names, text, i + 1)
    }
}

/// The column a dialog starts with: a numeric one where there is one.
pub open spec fn first_column(names: Seq<Seq<char>>, text: Seq<Seq<char>>) -> Seq<char> {
    let i = numeric_at(names, text, 0);
    if i < names.len() {
        names[i]
    } else {
        names[0]
    }
}

impl GridState {
    /// The dialog for a layer; an error where it has nothing to aggregate.
    pub fn open(layer_id: u64, layer_name: &String, cols: &Vec<ValueColumn>) -> (r: Result<GridState, String>)
        ensures
            match r {
                Err(e) => cols@.len() == 0 && e@ == layer_name@ + ": no columns to aggregate"@,
                Ok(g) => {
                    &&& cols@.len() > 0
                    &&& g.layer_id == layer_id
                    &&& g.layer_name == *layer_name
                    &&& texts(g.columns@) == column_names(cols@)
                    &&& texts(g.text_cols@) == text_column_names(cols@)
                    &&& g.column@ == first_column(column_names(cols@), text_column_names(cols@))
                    &&& g.system is Square && g.size == DEFAULT_CELL_SIZE
                    &&& g.h3_res == 7 && g.a5_res == 14
                    &&& g.stat is Mean && g.kernel is Box && g.passes == 0 && g.post is Plain
                    &&& g.azimuth == DEFAULT_AZIMUTH && g.altitude == DEFAULT_ALTITUDE
                    &&& !g.contours && g.levels == 10 && g.quantile_levels
                    &&& !g.running && g.progress == 0 && g.error is None
                },
            },
    {
        let mut columns: Vec<String> = Vec::new();
        let mut text_cols: Vec<String> = Vec::new();
        let ghost names = column_names(cols@);
        let mut i: usize = 0;
        assert(texts(text_cols@) =~= Seq::empty());
        while i < cols.len()
            invariant
                i <= cols@.len(),
                names == column_names(cols@),
                texts(columns@) =~= names.subrange(0, i as int),
                texts(text_cols@) == text_column_names(cols@.subrange(0, i as int)),
            decreases cols@.len() - i,
        {
            assert(cols@.subrange(0, i + 1).drop_last() =~= cols@.subrange(0, i as int));
            push_text(&mut columns, cols[i].name.clone());
            assert(names.subrange(0, i + 1) =~= names.subrange(0, i as int).push(names[i as int]));
            if !cols[i].numeric {
                push_text(&mut text_cols, cols[i].name.clone());
            }
            i += 1;
        }
        assert(cols@.subrange(0, i as int) =~= cols@);
        assert(names.subrange(0, i as int) =~= names);
        assert(texts(columns@).len() == columns@.len());
        if columns.len() == 0 {
            return Err(cat2(layer_name.as_str(), ": no columns to aggregate"));
        }
        let mut at: usize = 0;
        while at < columns.len() && list_has(&text_cols, columns[at].as_str())
            invariant
                at <= columns@.len(),
                texts(columns@) == names,
                numeric_at(names, texts(text_cols@), 0) == numeric_at(
                    names,
                    texts(text_cols@),
                    at as int,
                ),
            decreases columns@.len() - at,
        {
            assert(names[at as int] == columns@[at as int]@);
            at += 1;
        }
        assert(at < columns@.len() ==> names[at as int] == columns@[at as int]@);
        assert(names[0] == columns@[0]@);
        let column = if at < columns.len() {
            columns[at].clone()
        } else {
            columns[0].clone()
        };
        Ok(
            GridState {
                layer_id,
                layer_name: layer_name.clone(),
                columns,
                text_cols,
                column,
                system: CellKind::Square,
                size: DEFAULT_CELL_SIZE,
                h3_res: 7,
                a5_res: 14,
                stat: GridStat::Mean,
                kernel: Kernel::Box,
                passes: 0,
                post: PostKind::Plain,
                azimuth: DEFAULT_AZIMUTH,
                altitude: DEFAULT_ALTITUDE,
                contours: false,
                levels: 10,
                quantile_levels: true,
                running: false,
                progress: 0,
                error: None,
            },
        )
    }

    /// Whether the column chosen holds text.
    pub fn is_text(&self) -> (r: bool)
        ensures
            r == texts(self.text_cols@).contains(self.column@),
    {
        list_has(&self.text_cols, self.column.as_str())
    }

    /// Bring the options in line with the column and the cells chosen: a text
    /// column takes a statistic of its own and no surface controls, and
    /// hillshade needs square cells.
    pub fn coerce(&mut self)
        ensures
            *final(self) == coerced(*old(self)),
    {
        let text = self.is_text();
        let text_stat = match self.stat {
            GridStat::Majority | GridStat::Minority => true,
            _ => false,
        };
        if text && !text_stat {
            self.stat = GridStat::Majority;
            self.passes = 0;
            self.post = PostKind::Plain;
            self.contours = false;
        } else if !text && text_stat {
            self.stat = GridStat::Mean;
        }
        if self.system != CellKind::Square && self.post == PostKind::Hillshade {
            self.post = PostKind::Plain;
        }
    }
}

/// See [`GridState::coerce`].
pub open spec fn coerced(g: GridState) -> GridState {
    let text = texts(g.text_cols@).contains(g.column@);
    let h = if text && !of_text(g.stat) {
        GridState {
            stat: GridStat::Majority,
            passes: 0,
            post: PostKind::Plain,
            contours: false,
            ..g
        }
    } else if !text && of_text(g.stat) {
        GridState { stat: GridStat::Mean, ..g }
    } else {
        g
    };
    if !(h.system is Square) && h.post is Hillshade {
        GridState { post: PostKind::Plain, ..h }
    } else {
        h
    }
}

/// Once brought in line, options stay so, and the statistic fits the column.
pub proof fn coercing_settles(g: GridState)
    ensures
        coerced(coerced(g)) == coerced(g),
        of_text(coerced(g).stat) == texts(g.text_cols@).contains(g.column@),
{
}

// --- starting ---------------------------------------------------------------------

/// A grid to compute.
#[derive(Debug)]
pub struct GridPlan {
    /// Position of the value column.
    pub value_col: usize,
    pub value_name: String,
    pub system: CellKind,
    pub stat: GridStat,
    pub kernel: Kernel,
    pub output: GridOutput,
    pub passes: u32,
    pub post: PostKind,
    /// The name of the layer it becomes.
    pub name: String,
    /// The name of the file it is written to.
    pub file: String,
}

/// A signed number in decimal.
pub open spec fn signed(n: int) -> Seq<char> {
    if n < 0 {
        "-"@ + decimal((-n) as nat)
    } else {
        decimal(n as nat)
    }
}

fn signed_dec(n: i32) -> (r: String)
    ensures
        r@ == signed(n as int),
{
    if n < 0 {
        let d = dec((-(n as i64)) as u64);
        cat2("-", d.as_str())
    } else {
        dec(n as u64)
    }
}

/// The cells in a layer's name; `size` is the cell size as text.
pub open spec fn cell_text(g: GridState, size: Seq<char>) -> Seq<char> {
    match g.system {
        CellKind::Square => if g.contours {
            size + "u contours"@
        } else {
            size + "u"@
        },
        CellKind::H3 => "h3r"@ + decimal(g.h3_res as nat),
        CellKind::A5 => "a5r"@ + signed(g.a5_res as int),
    }
}

/// The operation in a layer's name.
pub open spec fn post_text(g: GridState) -> Seq<char> {
    match g.post {
        PostKind::FocalStd => " std"@,
        PostKind::Open => " open"@,
        PostKind::Close => " close"@,
        PostKind::Hillshade => if g.system is Square {
            " hillshade"@
        } else {
            Seq::empty()
        },
        PostKind::Plain => Seq::empty(),
    }
}

/// The name of the layer a grid becomes; `stat` is the statistic's label.
pub open spec fn grid_name(g: GridState, stat: Seq<char>, size: Seq<char>) -> Seq<char> {
    g.layer_name@ + " · "@ + stat + "("@ + g.column@ + ") "@ + cell_text(g, size)
        + post_text(g)
}

impl GridState {
    fn cell_label(&self, size: &str) -> (r: String)
        ensures
            r@ == cell_text(*self, size@),
    {
        match self.system {
            CellKind::Square => if self.contours {
                cat2(size, "u contours")
            } else {
                cat2(size, "u")
            },
            CellKind::H3 => {
                let d = dec(self.h3_res as u64);
                cat2("h3r", d.as_str())
            },
            CellKind::A5 => {
                let d = signed_dec(self.a5_res);
                cat2("a5r", d.as_str())
            },
        }
    }

    fn post_label(&self) -> (r: String)
        ensures
            r@ == post_text(*self),
    {
        match self.post {
            PostKind::FocalStd => " std".to_owned(),
            PostKind::Open => " open".to_owned(),
            PostKind::Close => " close".to_owned(),
            PostKind::Hillshade => if self.system == CellKind::Square {
                " hillshade".to_owned()
            } else {
                String::new()
            },
            PostKind::Plain => String::new(),
        }
    }

    /// Start computing: `at` is the position of the column, `stat` the
    /// statistic's label, `size` the cell size as text, `process` and `number` tell output files apart. Nothing
    /// where the column is gone.
    pub fn start(&mut self, at: Option<usize>, stat: &str, size: &str, process: u32, number: u64) -> (r: Option<GridPlan>)
        ensures
            match (at, r) {
                (None, None) => {
                    &&& final(self).error matches Some(e)
                    &&& e@ == "column "@ + old(self).column@ + " not found"@
                    &&& *final(self) == (GridState { error: final(self).error, ..*old(self) })
                },
                (Some(col), Some(p)) => {
                    &&& *final(self) == (GridState {
                        running: true,
                        progress: 0,
                        error: None,
                        ..*old(self)
                    })
                    &&& p.value_col == col
                    &&& p.value_name == old(self).column
                    &&& p.system == old(self).system
                    &&& p.stat == old(self).stat
                    &&& p.kernel == old(self).kernel
                    &&& p.output == if old(self).contours && old(self).system is Square {
                        GridOutput::Contours {
                            levels: old(self).levels,
                            quantile: old(self).quantile_levels,
                        }
                    } else {
                        GridOutput::Cells
                    }
                    &&& p.passes == old(self).passes
                    &&& p.post == old(self).post
                    &&& p.name@ == grid_name(*old(self), stat@, size@)
                    &&& p.file@ == "geopq_grid_"@ + decimal(process as nat) + "_"@ + decimal(
                        old(self).layer_id as nat,
                    ) + "_"@ + decimal(number as nat) + ".parquet"@
                },
                _ => false,
            },
    {
        let col: usize = match at {
            Some(c) => c,
            None => {
                self.error = Some(cat3("column ", self.column.as_str(), " not found"));
                return None;
            },
        };
        let output = if self.contours && self.system == CellKind::Square {
            GridOutput::Contours { levels: self.levels, quantile: self.quantile_levels }
        } else {
            GridOutput::Cells
        };
        let cells = self.cell_label(size);
        let post = self.post_label();
        let name = cat7(
            self.layer_name.as_str(),
            " · ",
            stat,
            "(",
            self.column.as_str(),
            ") ",
            cells.as_str(),
        );
        let name = cat2(name.as_str(), post.as_str());
        let a = dec(process as u64);
        let b = dec(self.layer_id);
        let c = dec(number);
        let file = cat7("geopq_grid_", a.as_str(), "_", b.as_str(), "_", c.as_str(), ".parquet");
        self.running = true;
        self.progress = 0;
        self.error = None;
        Some(
            GridPlan {
                value_col: col,
                value_name: self.column.clone(),
                system: self.system,
                stat: self.stat,
                kernel: self.kernel,
                output,
                passes: self.passes,
                post: self.post,
                name,
                file,
            },
        )
    }
}

// --- what the worker reports ----------------------------------------------------------

/// A message from the computing worker.
#[derive(Debug)]
pub enum GridMsg {
    Progress(u32),
    /// The file written and the layer's name.
    Done(String, String),
    Failed(String),
}

/// A finished grid: the file and the layer's name.
#[derive(Debug)]
pub struct GridDone {
    pub path: String,
    pub name: String,
}

/// The progress after messages.
pub open spec fn last_progress(ms: Seq<GridMsg>, before: u32) -> u32
    decreases ms.len(),
{
    if ms.len() == 0 {
        before
    } else {
        match ms.last() {
            GridMsg::Progress(f) => f,
            _ => last_progress(ms.drop_last(), before),
        }
    }
}

/// The last grid that was finished.
pub open spec fn last_done(ms: Seq<GridMsg>) -> Option<(String, String)>
    decreases ms.len(),
{
    if ms.len() == 0 {
        None
    } else {
        match ms.last() {
            GridMsg::Done(p, n) => Some((p, n)),
            _ => last_done(ms.drop_last()),
        }
    }
}

/// The last failure.
pub open spec fn last_failure(ms: Seq<GridMsg>) -> Option<String>
    decreases ms.len(),
{
    if ms.len() == 0 {
        None
    } else {
        match ms.last() {
            GridMsg::Failed(e) => Some(e),
            _ => last_failure(ms.drop_last()),
        }
    }
}

impl GridState {
    /// Take in what the worker sent; `gone` says that it will send no more. A
    /// worker that died without a word counts as failed.
    pub fn poll(&mut self, messages: VecDeque<GridMsg>, gone: bool) -> (r: Option<GridDone>)
        ensures
            ({
                let died = gone && last_done(messages@) is None && last_failure(messages@) is None
                    && old(self).running;
                let failed = last_failure(messages@) is Some || died;
                &&& match r {
                    Some(d) => last_done(messages@) == Some((d.path, d.name)),
                    None => last_done(messages@) is None,
                }
                &&& *final(self) == (GridState {
                    progress: last_progress(messages@, old(self).progress),
                    running: old(self).running && !failed,
                    error: final(self).error,
                    ..*old(self)
                })
                &&& if died {
                    final(self).error matches Some(e) && e@ == "grid computation stopped unexpectedly"@
                } else if failed {
                    final(self).error == last_failure(messages@)
                } else {
                    final(self).error == old(self).error
                }
            }),
    {
        let ghost all = messages@;
        let mut rest = messages;
        let mut done: Option<GridDone> = None;
        let mut failed: Option<String> = None;
        let mut progress: u32 = self.progress;
        let ghost mut n: int = 0;
        assert(all.subrange(0, 0) =~= Seq::<GridMsg>::empty());
        while rest.len() > 0
            invariant
                0 <= n <= all.len(),
                rest@ =~= all.subrange(n, all.len() as int),
                *self == *old(self),
                progress == last_progress(all.subrange(0, n), old(self).progress),
                match done {
                    Some(d) => last_done(all.subrange(0, n)) == Some((d.path, d.name)),
                    None => last_done(all.subrange(0, n)) is None,
                },
                failed == last_failure(all.subrange(0, n)),
            decreases rest@.len(),
        {
            if let Some(m) = rest.pop_front() {
                assert(all.subrange(0, n + 1).drop_last() =~= all.subrange(0, n));
                assert(all.subrange(0, n + 1).last() == m);
                match m {
                    GridMsg::Progress(f) => {
                        progress = f;
                    },
                    GridMsg::Done(path, name) => {
                        done = Some(GridDone { path, name });
                    },
                    GridMsg::Failed(e) => {
                        failed = Some(e);
                    },
                }
                proof {
                    n = n + 1;
                }
            }
        }
        assert(all.subrange(0, n) =~= all);
        if gone && done.is_none() && failed.is_none() && self.running {
            failed = Some("grid computation stopped unexpectedly".to_owned());
        }
        self.progress = progress;
        if let Some(e) = failed {
            self.error = Some(e);
            self.running = false;
        }
        done
    }

    /// Whether the dialog stays: its layer is there, or a computation runs.
    pub fn stays(&self, layer_exists: bool) -> (r: bool)
        ensures
            r == (self.running || layer_exists),
    {
        self.running || layer_exists
    }
}

/// The column a grid starts with is the first one that is not text, where
/// there is one; otherwise the first.
pub proof fn a_grid_starts_with_a_number(names: Seq<Seq<char>>, text: Seq<Seq<char>>, k: int)
    requires
        names.len() > 0,
        0 <= k < names.len(),
    ensures
        names.contains(first_column(names, text)),
        !text.contains(names[k]) ==> !text.contains(first_column(names, text)),
        !text.contains(names[k]) && (forall|j: int| 0 <= j < k ==> text.contains(#[trigger] names[j]))
            ==> first_column(names, text) == names[k],
        (forall|j: int| 0 <= j < names.len() ==> text.contains(#[trigger] names[j]))
            ==> first_column(names, text) == names[0],
{
    numeric_is_first(names, text, 0, k);
    assert(names.contains(names[0]));
}

proof fn numeric_is_first(names: Seq<Seq<char>>, text: Seq<Seq<char>>, i: int, k: int)
    requires
        0 <= i <= names.len(),
    ensures
        i <= numeric_at(names, text, i) <= names.len(),
        numeric_at(names, text, i) < names.len() ==> !text.contains(
            names[numeric_at(names, text, i)],
        ) && names.contains(names[numeric_at(names, text, i)]),
        i <= k < names.len() && !text.contains(names[k]) ==> numeric_at(names, text, i) <= k,
        forall|j: int| i <= j < numeric_at(names, text, i) ==> text.contains(#[trigger] names[j]),
    decreases names.len() - i,
{
    if i < names.len() && text.contains(names[i]) {
        numeric_is_first(names, text, i + 1, k);
    }
}

/// A statistic always fits its column, and an operation its cells: of a text
/// column only the most and the least common value are asked for, and of
/// numbers never those; slopes are shaded on squares alone. What fits already
/// stays as it is.
pub proof fn statistics_fit_their_columns(g: GridState)
    ensures
        ({
            let c = coerced(g);
            let text = texts(g.text_cols@).contains(g.column@);
            &&& text <==> c.stat is Majority || c.stat is Minority
            &&& c.post is Hillshade ==> c.system is Square
            &&& c.column == g.column && c.system == g.system
            &&& text && !(g.stat is Majority || g.stat is Minority) ==> c.stat is Majority && c.passes
                == 0 && c.post is Plain && !c.contours
            &&& !text && (g.stat is Majority || g.stat is Minority) ==> c.stat is Mean && c.passes
                == g.passes && c.contours == g.contours
            &&& (text <==> g.stat is Majority || g.stat is Minority) && !(g.post is Hillshade
                && !(g.system is Square)) ==> c == g
            &&& (text <==> g.stat is Majority || g.stat is Minority) ==> c.stat == g.stat
        }),
{
}

/// A number with a sign reads as that number.
pub proof fn signs_are_kept(n: int)
    ensures
        n >= 0 ==> signed(n) == decimal(n as nat),
        n < 0 ==> signed(n) == "-"@ + decimal((-n) as nat),
{
}

/// A grid's name says what it is made of: the layer, the statistic and its
/// column, and the cells by their size or resolution.
pub proof fn a_grid_says_what_it_is(g: GridState, stat: Seq<char>, size: Seq<char>)
    ensures
        (g.layer_name@ + " · "@ + stat + "("@ + g.column@ + ") "@).is_prefix_of(
            grid_name(g, stat, size),
        ),
        g.system is H3 ==> cell_text(g, size) == "h3r"@ + decimal(g.h3_res as nat),
        g.system is A5 ==> cell_text(g, size) == "a5r"@ + signed(g.a5_res as int),
        g.system is Square && !g.contours ==> cell_text(g, size) == size + "u"@,
        g.system is Square && g.contours ==> cell_text(g, size) == size + "u contours"@,
        g.post is FocalStd ==> post_text(g) == " std"@,
        g.post is Open ==> post_text(g) == " open"@,
        g.post is Close ==> post_text(g) == " close"@,
        g.post is Hillshade && g.system is Square ==> post_text(g) == " hillshade"@,
        g.post is Plain ==> post_text(g).len() == 0,
        grid_name(g, stat, size) == g.layer_name@ + " · "@ + stat + "("@ + g.column@ + ") "@
            + cell_text(g, size) + post_text(g),
{
    let head = g.layer_name@ + " · "@ + stat + "("@ + g.column@ + ") "@;
    let all = grid_name(g, stat, size);
    assert(all.subrange(0, head.len() as int) =~= head);
}

/// Of several messages the latest of its kind counts.
pub proof fn the_latest_message_counts(ms: Seq<GridMsg>, m: GridMsg, before: u32)
    ensures
        last_progress(Seq::empty(), before) == before,
        last_done(Seq::empty()) is None,
        last_failure(Seq::empty()) is None,
        last_progress(ms.push(m), before) == (if m is Progress {
            m->Progress_0
        } else {
            last_progress(ms, before)
        }),
        m matches GridMsg::Done(p, n) ==> last_done(ms.push(m)) == Some((p, n)),
        !(m is Done) ==> last_done(ms.push(m)) == last_done(ms),
        m matches GridMsg::Failed(e) ==> last_failure(ms.push(m)) == Some(e),
        !(m is Failed) ==> last_failure(ms.push(m)) == last_failure(ms),
{
    assert(ms.push(m).drop_last() =~= ms);
}

/// The text columns are those that are not numeric, in order.
pub proof fn text_columns_are_not_numeric(cols: Seq<ValueColumn>)
    ensures
        lists(text_column_names(cols), cols.len(), |i: int| !cols[i].numeric, |i: int| cols[i].name@),
    decreases cols.len(),
{
    if cols.len() > 0 {
        let init = cols.drop_last();
        text_columns_are_not_numeric(init);
        lists_alike(
            text_column_names(init),
            init.len(),
            |i: int| !init[i].numeric,
            |i: int| init[i].name@,
            |i: int| !cols[i].numeric,
            |i: int| cols[i].name@,
        );
        lists_one_more(
            text_column_names(init),
            text_column_names(cols),
            init.len(),
            |i: int| !cols[i].numeric,
            |i: int| cols[i].name@,
        );
    }
}

} // verus!
