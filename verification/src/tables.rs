//! Attribute tables: files with no geometry, and the dialog that settles how
//! one is imported.
use std::collections::VecDeque;
use vstd::prelude::*;
use crate::counts::{count_text, fmt_count};
use crate::tally::{lists, lists_alike, lists_one_more};
use crate::text::{
    cat2, cat3, cat4, cat5, cat6, dec, decimal, join, joined, push_text, same, texts,
};

verus! {

/// The type a column is imported as.
#[derive(Clone, Copy, PartialEq, Eq, Structural, Debug)]
pub enum ColType {
    Integer,
    Float,
    /// Any other one, by its number.
    Other(u32),
}

/// How a column is imported.
#[derive(Debug)]
pub struct PlanColumn {
    pub source_name: String,
    /// Its name in SQL.
    pub name: String,
    pub ty: ColType,
    pub chosen: bool,
}

/// What was seen of a column.
#[derive(Debug)]
pub struct ColumnPreview {
    pub inferred: ColType,
    pub samples: Vec<String>,
    /// Sampled values that do not fit the type.
    pub bad: usize,
    pub bad_examples: Vec<String>,
}

/// What the rows become.
#[derive(Debug)]
pub enum GeometryPlan {
    /// A table.
    Table,
    /// A layer of points; a code of 0 stands for a grid still to be named.
    Points { x: String, y: String, epsg: u32 },
}

/// A file being set up for import.
#[derive(Debug)]
pub struct AttrImport {
    /// Number under which the caller keeps the source.
    pub source: u64,
    pub label: String,
    pub name: String,
    pub columns: Vec<PlanColumn>,
    pub previews: Vec<ColumnPreview>,
    pub sampled: bool,
    pub sampled_rows: usize,
    /// Types come from the file.
    pub typed_source: bool,
    pub delimiter: u8,
    pub has_header: bool,
    /// Number of the digit-grouping convention.
    pub numbers: u32,
    pub geometry: GeometryPlan,
    /// The columns have to be worked out again.
    pub reread: bool,
}

/// A loaded table.
#[derive(Debug)]
pub struct AttrTable {
    pub id: u64,
    pub name: String,
    pub columns: Vec<String>,
    pub rows: usize,
    /// Number under which the caller keeps its rows.
    pub data: u64,
    /// The imported copy, where it was written.
    pub copy: Option<String>,
}

/// A table to read.
#[derive(Debug)]
pub struct TableRequest {
    /// Number under which the caller keeps the source.
    pub source: u64,
    pub name: String,
}

/// The tables of a session.
#[derive(Debug)]
pub struct Tables {
    pub tables: Vec<AttrTable>,
    pub next_id: u64,
    /// Serial of the files written.
    pub next_file: u64,
    /// What a worker is doing.
    pub busy: Option<String>,
    pub import: Option<AttrImport>,
    /// Tables the session starts with, or was saved with, still to be read.
    pub waiting: VecDeque<TableRequest>,
}

impl Tables {
    pub fn new() -> (r: Tables)
        ensures
            r.tables@.len() == 0,
            r.waiting@.len() == 0,
            r.next_id == 0,
            r.next_file == 0,
            r.busy is None,
            r.import is None,
    {
        Tables {
            tables: Vec::new(),
            next_id: 0,
            next_file: 0,
            busy: None,
            import: None,
            waiting: VecDeque::new(),
        }
    }

    /// A table the session starts with, or was saved with: it is read in its
    /// turn.
    pub fn queue_table(&mut self, source: u64, name: String)
        ensures
            final(self).waiting@ == old(self).waiting@.push(TableRequest { source, name }),
            *final(self) == (Tables { waiting: final(self).waiting, ..*old(self) }),
    {
        self.waiting.push_back(TableRequest { source, name });
    }

    /// Start reading the next table in line, once nothing is being read and no
    /// dialog waits for an answer.
    pub fn next_queued(&mut self) -> (r: Option<TableRequest>)
        ensures
            match r {
                Some(t) => {
                    &&& old(self).free() && old(self).waiting@.len() > 0
                    &&& t == old(self).waiting@[0]
                    &&& final(self).waiting@ == old(self).waiting@.subrange(
                        1,
                        old(self).waiting@.len() as int,
                    )
                    &&& final(self).busy matches Some(b)
                    &&& b@ == "reading "@ + t.name@
                    &&& *final(self) == (Tables {
                        busy: final(self).busy,
                        waiting: final(self).waiting,
                        ..*old(self)
                    })
                },
                None => {
                    &&& !old(self).free() || old(self).waiting@.len() == 0
                    &&& *final(self) == *old(self)
                },
            },
    {
        if self.busy.is_some() || self.import.is_some() || self.waiting.len() == 0 {
            return None;
        }
        let next = self.waiting.pop_front();
        if let Some(t) = &next {
            self.busy = Some(cat2("reading ", t.name.as_str()));
        }
        next
    }

    /// Nothing is being read, and no dialog is open.
    pub open spec fn free(self) -> bool {
        self.busy is None && self.import is None
    }

    /// The session is replaced: its tables go, and those still to be read.
    pub fn clear(&mut self)
        ensures
            final(self).tables@.len() == 0,
            final(self).waiting@.len() == 0,
            *final(self) == (Tables {
                tables: final(self).tables,
                waiting: final(self).waiting,
                ..*old(self)
            }),
    {
        self.tables.clear();
        self.waiting = VecDeque::new();
    }

    /// The dialog is closed without an import.
    pub fn cancel_import(&mut self)
        ensures
            *final(self) == (Tables { import: None, ..*old(self) }),
    {
        self.import = None;
    }

    /// An import failed: what is said of it.
    pub fn import_failed(&mut self, name: &str, e: &str) -> (r: String)
        ensures
            *final(self) == (Tables { busy: None, ..*old(self) }),
            r@ == name@ + ": "@ + e@,
    {
        self.busy = None;
        cat3(name, ": ", e)
    }

    /// Start reading a source; refused while another one is being read.
    pub fn open_attr_table_named(&mut self, name: &str) -> (r: Result<(), String>)
        ensures
            match r {
                Ok(_) => {
                    &&& old(self).busy is None
                    &&& final(self).busy matches Some(b)
                    &&& b@ == "reading "@ + name@
                    &&& *final(self) == (Tables { busy: final(self).busy, ..*old(self) })
                },
                Err(e) => {
                    &&& old(self).busy is Some
                    &&& e@ == "another table is still being read"@
                    &&& *final(self) == *old(self)
                },
            },
    {
        if self.busy.is_some() {
            return Err("another table is still being read".to_owned());
        }
        self.busy = Some(cat2("reading ", name));
        Ok(())
    }

    /// A source was looked into: its dialog opens, or an error is returned.
    pub fn on_inspected(&mut self, name: &str, result: Result<AttrImport, String>) -> (r: Result<
        bool,
        String,
    >)
        ensures
            match result {
                Ok(i) => {
                    &&& *final(self) == (Tables { busy: None, import: Some(i), ..*old(self) })
                    &&& r == Ok::<bool, String>(!i.sampled)
                },
                Err(e) => {
                    &&& *final(self) == (Tables { busy: None, ..*old(self) })
                    &&& r matches Err(x)
                    &&& x@ == name@ + ": "@ + e@
                },
            },
    {
        self.busy = None;
        match result {
            Ok(i) => {
                let sample = !i.sampled;
                self.import = Some(i);
                Ok(sample)
            },
            Err(e) => Err(cat3(name, ": ", e.as_str())),
        }
    }
}

/// The sample values of a file.
#[derive(Debug)]
pub struct Sampled {
    pub previews: Vec<ColumnPreview>,
    pub rows: usize,
    /// The geometry the values suggest.
    pub points: Option<GeometryPlan>,
}

/// The dialog after sample values arrived: taken where there is one for each
/// column.
pub open spec fn with_samples(i: AttrImport, s: Sampled) -> AttrImport {
    if s.previews@.len() == i.previews@.len() {
        AttrImport {
            previews: s.previews,
            sampled_rows: s.rows,
            sampled: true,
            geometry: match s.points {
                Some(g) => g,
                None => i.geometry,
            },
            ..i
        }
    } else {
        i
    }
}

impl AttrImport {
    fn take_samples(&mut self, s: Sampled)
        ensures
            *final(self) == with_samples(*old(self), s),
    {
        if s.previews.len() == self.previews.len() {
            self.previews = s.previews;
            self.sampled_rows = s.rows;
            self.sampled = true;
            if let Some(g) = s.points {
                self.geometry = g;
            }
        }
    }
}

impl Tables {
    /// Sample values arrived, or could not be read. They are dropped where
    /// the dialog has moved on to another file.
    pub fn on_sampled(&mut self, label: &str, result: Result<Sampled, String>) -> (error: Option<String>)
        ensures
            ({
                let mine = old(self).import is Some && old(self).import->0.label@ == label@;
                &&& match result {
                    Ok(s) => {
                        &&& error is None
                        &&& *final(self) == (Tables {
                            busy: None,
                            import: if mine {
                                Some(with_samples(old(self).import->0, s))
                            } else {
                                old(self).import
                            },
                            ..*old(self)
                        })
                    },
                    Err(e) => {
                        &&& match error {
                            Some(x) => mine && x@ == "could not read sample values: "@ + e@,
                            None => !mine,
                        }
                        &&& *final(self) == (Tables {
                            busy: None,
                            import: if mine {
                                Some(AttrImport { sampled: true, ..old(self).import->0 })
                            } else {
                                old(self).import
                            },
                            ..*old(self)
                        })
                    },
                }
            }),
    {
        self.busy = None;
        let mut taken: Option<AttrImport> = None;
        std::mem::swap(&mut taken, &mut self.import);
        match taken {
            None => None,
            Some(mut i) => {
                if !same(i.label.as_str(), label) {
                    self.import = Some(i);
                    return None;
                }
                match result {
                    Ok(s) => {
                        i.take_samples(s);
                        self.import = Some(i);
                        None
                    },
                    Err(e) => {
                        i.sampled = true;
                        self.import = Some(i);
                        Some(cat2("could not read sample values: ", e.as_str()))
                    },
                }
            },
        }
    }

    /// Run the approved import: the dialog closes and is returned.
    pub fn begin_import(&mut self) -> (r: Option<AttrImport>)
        ensures
            r == old(self).import,
            match r {
                Some(i) => {
                    &&& final(self).busy matches Some(b)
                    &&& b@ == "importing "@ + i.name@
                    &&& *final(self) == (Tables {
                        busy: final(self).busy,
                        import: None,
                        ..*old(self)
                    })
                },
                None => *final(self) == *old(self),
            },
    {
        let mut taken: Option<AttrImport> = None;
        std::mem::swap(&mut taken, &mut self.import);
        if let Some(i) = &taken {
            self.busy = Some(cat2("importing ", i.name.as_str()));
        }
        taken
    }
}

// --- taking delivery -------------------------------------------------------------------

/// Where finished rows go.
#[derive(Debug)]
pub enum Delivery {
    /// A table, its copy written under this name.
    Table { file: String },
    /// A layer of points, written under this name.
    Points { file: String, x: String, y: String, epsg: u32 },
}

/// Values that did not fit the type of a column.
#[derive(Debug)]
pub struct Nulled {
    pub column: String,
    pub count: usize,
}

/// The file an import is written to.
pub open spec fn table_file(kind: Seq<char>, process: u32, n: u64) -> Seq<char> {
    "geopq_"@ + kind + "_"@ + decimal(process as nat) + "_"@ + decimal(n as nat) + ".parquet"@
}

/// What is said of values that were lost.
pub open spec fn nulled_text(name: Seq<char>, n: Nulled) -> Seq<char> {
    name + ": "@ + decimal(n.count as nat) + " value"@ + (if n.count == 1 {
        Seq::<char>::empty()
    } else {
        "s"@
    }) + " in "@ + n.column@ + " did not fit its type and became NULL"@
}

impl Tables {
    fn next_name(&mut self, kind: &str, process: u32) -> (r: String)
        ensures
            r@ == table_file(kind@, process, final(self).next_file),
            *final(self) == (Tables {
                next_file: old(self).next_file.wrapping_add(1),
                ..*old(self)
            }),
    {
        self.next_file = self.next_file.wrapping_add(1);
        let p = dec(process as u64);
        let n = dec(self.next_file);
        let head = cat4("geopq_", kind, "_", p.as_str());
        cat4(head.as_str(), "_", n.as_str(), ".parquet")
    }

    /// Rows were imported under this plan: where they are to be written.
    /// `unknown_grid` says what is wrong with the code of a grid of points, if
    /// something is; nothing is written then.
    pub fn deliver(
        &mut self,
        name: &str,
        geometry: GeometryPlan,
        unknown_grid: Option<String>,
        process: u32,
    ) -> (r: Result<Delivery, String>)
        ensures
            match geometry {
                GeometryPlan::Table => {
                    &&& r matches Ok(Delivery::Table { file })
                    &&& file@ == table_file("table"@, process, final(self).next_file)
                    &&& *final(self) == old(self).written_one()
                },
                GeometryPlan::Points { x, y, epsg } => match unknown_grid {
                    Some(e) => {
                        &&& r matches Err(t)
                        &&& t@ == name@ + ": EPSG:"@ + decimal(epsg as nat) + " — "@ + e@
                        &&& *final(self) == (Tables { busy: None, ..*old(self) })
                    },
                    None => {
                        &&& r matches Ok(Delivery::Points { file, x: rx, y: ry, epsg: re })
                        &&& file@ == table_file("points"@, process, final(self).next_file)
                        &&& rx == x && ry == y && re == epsg
                        &&& *final(self) == old(self).written_one()
                    },
                },
            },
    {
        self.busy = None;
        match geometry {
            GeometryPlan::Table => Ok(Delivery::Table { file: self.next_name("table", process) }),
            GeometryPlan::Points { x, y, epsg } => match unknown_grid {
                Some(e) => {
                    let code = dec(epsg as u64);
                    Err(cat5(name, ": EPSG:", code.as_str(), " — ", e.as_str()))
                },
                None => {
                    let file = self.next_name("points", process);
                    Ok(Delivery::Points { file, x, y, epsg })
                },
            },
        }
    }

    /// One more file is written.
    pub open spec fn written_one(self) -> Tables {
        Tables { busy: None, next_file: self.next_file.wrapping_add(1), ..self }
    }

    /// A table joins the list; the messages about values that were lost are
    /// returned, and one about a copy that could not be written.
    pub fn add_table(
        &mut self,
        name: String,
        columns: Vec<String>,
        rows: usize,
        data: u64,
        written: Result<String, String>,
        nulled: &Vec<Nulled>,
    ) -> (errors: Vec<String>)
        ensures
            final(self).tables@.len() == old(self).tables@.len() + 1,
            final(self).tables@.drop_last() == old(self).tables@,
            final(self).tables@.last() == (AttrTable {
                id: old(self).next_id,
                name,
                columns,
                rows,
                data,
                copy: match written {
                    Ok(p) => Some(p),
                    Err(_) => None,
                },
            }),
            *final(self) == (Tables {
                tables: final(self).tables,
                next_id: old(self).next_id.wrapping_add(1),
                ..*old(self)
            }),
            texts(errors@) == (match written {
                Ok(_) => Seq::<Seq<char>>::empty(),
                Err(e) => seq![name@ + ": could not write the imported copy: "@ + e@],
            }) + nulled@.map_values(|n: Nulled| nulled_text(name@, n)),
    {
        let mut errors: Vec<String> = Vec::new();
        let copy = match written {
            Ok(p) => Some(p),
            Err(e) => {
                push_text(
                    &mut errors,
                    cat3(name.as_str(), ": could not write the imported copy: ", e.as_str()),
                );
                None
            },
        };
        let ghost head = texts(errors@);
        assert(head =~= (match written {
            Ok(_) => Seq::<Seq<char>>::empty(),
            Err(e) => seq![name@ + ": could not write the imported copy: "@ + e@],
        }));
        let ghost all = nulled@.map_values(|n: Nulled| nulled_text(name@, n));
        let mut i: usize = 0;
        while i < nulled.len()
            invariant
                i <= nulled@.len(),
                all == nulled@.map_values(|n: Nulled| nulled_text(name@, n)),
                texts(errors@) =~= head + all.subrange(0, i as int),
            decreases nulled@.len() - i,
        {
            let n = dec(nulled[i].count as u64);
            let plural = if nulled[i].count == 1 {
                String::new()
            } else {
                "s".to_owned()
            };
            let t = cat5(name.as_str(), ": ", n.as_str(), " value", plural.as_str());
            let t = cat4(
                t.as_str(),
                " in ",
                nulled[i].column.as_str(),
                " did not fit its type and became NULL",
            );
            assert(t@ =~= all[i as int]);
            push_text(&mut errors, t);
            assert(all.subrange(0, i + 1) =~= all.subrange(0, i as int).push(all[i as int]));
            i += 1;
        }
        assert(all.subrange(0, i as int) =~= all);
        let id: u64 = self.next_id;
        self.next_id = id.wrapping_add(1);
        let ghost before = self.tables@;
        self.tables.push(AttrTable { id, name, columns, rows, data, copy });
        assert(self.tables@.drop_last() =~= before);
        errors
    }
}

/// What is said of rows without coordinates, if there are any.
pub fn unplaced_note(name: &str, rows: usize, placed: usize) -> (r: Option<String>)
    ensures
        r is Some <==> placed < rows,
        r is Some ==> r->0@ == name@ + ": "@ + decimal((rows - placed) as nat) + " of "@ + count_text(
            rows as nat,
        ) + " rows had no usable coordinates and carry no geometry"@,
{
    if placed < rows {
        let m = dec((rows - placed) as u64);
        let t = fmt_count(rows);
        Some(
            cat6(
                name,
                ": ",
                m.as_str(),
                " of ",
                t.as_str(),
                " rows had no usable coordinates and carry no geometry",
            ),
        )
    } else {
        None
    }
}

/// The tables but those of this id.
pub open spec fn tables_without(ts: Seq<AttrTable>, id: u64) -> Seq<AttrTable> {
    ts.filter(|t: AttrTable| t.id != id)
}

/// The first table of this id from `i` on, or the end.
pub open spec fn table_at(ts: Seq<AttrTable>, id: u64, i: int) -> int
    decreases ts.len() - i,
{
    if i >= ts.len() {
        ts.len() as int
    } else if ts[i].id == id {
        i
    } else {
        table_at(ts, id, i + 1)
    }
}

/// How saving a table's copy goes on.
#[derive(Debug)]
pub enum SaveCopy {
    Nothing,
    /// Copy this file, for the table of this name.
    Copy { from: String, name: String },
    Error(String),
}

impl Tables {
    pub fn find(&self, id: u64) -> (r: Option<usize>)
        ensures
            match r {
                Some(i) => i < self.tables@.len() && i == table_at(self.tables@, id, 0)
                    && self.tables@[i as int].id == id,
                None => table_at(self.tables@, id, 0) == self.tables@.len(),
            },
    {
        let mut i: usize = 0;
        while i < self.tables.len()
            invariant
                i <= self.tables@.len(),
                table_at(self.tables@, id, 0) == table_at(self.tables@, id, i as int),
            decreases self.tables@.len() - i,
        {
            if self.tables[i].id == id {
                return Some(i);
            }
            i += 1;
        }
        None
    }

    /// What saving a copy of a table takes.
    pub fn save_table_copy(&self, id: u64) -> (r: SaveCopy)
        ensures
            ({
                let i = table_at(self.tables@, id, 0);
                if i >= self.tables@.len() {
                    r is Nothing
                } else {
                    let t = self.tables@[i];
                    match t.copy {
                        Some(p) => r == (SaveCopy::Copy { from: p, name: t.name }),
                        None => r matches SaveCopy::Error(e) && e@ == t.name@
                            + ": there is no imported copy to save"@,
                    }
                }
            }),
    {
        match self.find(id) {
            None => SaveCopy::Nothing,
            Some(i) => match &self.tables[i].copy {
                Some(p) => SaveCopy::Copy { from: p.clone(), name: self.tables[i].name.clone() },
                None => SaveCopy::Error(
                    cat2(self.tables[i].name.as_str(), ": there is no imported copy to save"),
                ),
            },
        }
    }

    /// Close a table.
    pub fn close(&mut self, id: u64)
        ensures
            final(self).tables@ == tables_without(old(self).tables@, id),
            *final(self) == (Tables { tables: final(self).tables, ..*old(self) }),
    {
        broadcast use vstd::seq_lib::group_filter_ensures;

        let mut rest: Vec<AttrTable> = Vec::new();
        std::mem::swap(&mut rest, &mut self.tables);
        let ghost all = rest@;
        let ghost keep = |t: AttrTable| t.id != id;
        let mut kept: Vec<AttrTable> = Vec::new();
        let ghost mut n: int = 0;
        assert(all.subrange(0, 0).filter(keep) =~= Seq::empty()) by {
            reveal(Seq::filter);
        }
        while rest.len() > 0
            invariant
                0 <= n <= all.len(),
                keep == |t: AttrTable| t.id != id,
                rest@ =~= all.subrange(n, all.len() as int),
                kept@ == all.subrange(0, n).filter(keep),
            decreases rest@.len(),
        {
            let t = rest.remove(0);
            assert(all.subrange(0, n + 1).drop_last() =~= all.subrange(0, n));
            assert(all.subrange(0, n + 1).last() == t);
            proof {
                reveal(Seq::filter);
            }
            if t.id != id {
                kept.push(t);
            }
            proof {
                n = n + 1;
            }
        }
        assert(all.subrange(0, n) =~= all);
        self.tables = kept;
    }
}

/// "4k rows · 12 cols · 3 MB".
pub fn table_summary(rows: usize, columns: usize, size: &str) -> (r: String)
    ensures
        r@ == count_text(rows as nat) + " rows · "@ + decimal(columns as nat) + " cols · "@ + size@,
{
    let a = fmt_count(rows);
    let b = dec(columns as u64);
    cat5(a.as_str(), " rows · ", b.as_str(), " cols · ", size)
}

// --- the import dialog -------------------------------------------------------------------

/// Some column is imported.
pub open spec fn any_included(cols: Seq<PlanColumn>) -> bool {
    exists|i: int| 0 <= i < cols.len() && (#[trigger] cols[i]).chosen
}

/// Every column is imported.
pub open spec fn all_included(cols: Seq<PlanColumn>) -> bool {
    forall|i: int| 0 <= i < cols.len() ==> (#[trigger] cols[i]).chosen
}

/// Sampled values of the imported columns that will become NULL.
pub open spec fn lost_values(cols: Seq<PlanColumn>, previews: Seq<ColumnPreview>) -> nat
    decreases cols.len(),
{
    if cols.len() == 0 || previews.len() == 0 {
        0
    } else if cols.len() > previews.len() {
        lost_values(cols.drop_last(), previews)
    } else if cols.last().chosen {
        lost_values(cols.drop_last(), previews) + previews[cols.len() - 1].bad as nat
    } else {
        lost_values(cols.drop_last(), previews)
    }
}

/// A coordinate column is left out, so that there is nothing to build the
/// geometry from.
pub open spec fn drops_coordinates(i: AttrImport) -> bool {
    match i.geometry {
        GeometryPlan::Points { x, y, .. } => exists|k: int|
            0 <= k < i.columns@.len() && ((#[trigger] i.columns@[k]).name@ == x@ || i.columns@[k].name@
                == y@) && !i.columns@[k].chosen,
        GeometryPlan::Table => false,
    }
}

/// The names of the numeric columns.
pub open spec fn numeric_names(cols: Seq<PlanColumn>) -> Seq<Seq<char>>
    decreases cols.len(),
{
    if cols.len() == 0 {
        Seq::empty()
    } else if cols.last().ty is Integer || cols.last().ty is Float {
        numeric_names(cols.drop_last()).push(cols.last().name@)
    } else {
        numeric_names(cols.drop_last())
    }
}

/// What the dialog says beside its button.
#[derive(Debug)]
pub enum ImportNote {
    Quiet,
    NothingSelected,
    CoordinatesLeftOut,
    Losing(String),
}

impl AttrImport {
    /// Whether every column is imported.
    pub fn all_on(&self) -> (r: bool)
        ensures
            r == all_included(self.columns@),
    {
        let mut i: usize = 0;
        while i < self.columns.len()
            invariant
                i <= self.columns@.len(),
                forall|k: int| 0 <= k < i ==> (#[trigger] self.columns@[k]).chosen,
            decreases self.columns@.len() - i,
        {
            if !self.columns[i].chosen {
                return false;
            }
            i += 1;
        }
        true
    }

    /// Whether some column is imported.
    pub fn any_on(&self) -> (r: bool)
        ensures
            r == any_included(self.columns@),
    {
        let mut i: usize = 0;
        while i < self.columns.len()
            invariant
                i <= self.columns@.len(),
                forall|k: int| 0 <= k < i ==> !(#[trigger] self.columns@[k]).chosen,
            decreases self.columns@.len() - i,
        {
            if self.columns[i].chosen {
                return true;
            }
            i += 1;
        }
        false
    }

    /// The header's tick: everything where something is missing, nothing
    /// where everything is in.
    pub fn toggle_all(&mut self)
        ensures
            final(self).columns@.len() == old(self).columns@.len(),
            forall|k: int|
                0 <= k < old(self).columns@.len() ==> #[trigger] final(self).columns@[k] == (
                PlanColumn { chosen: !all_included(old(self).columns@), ..old(self).columns@[k] }),
            *final(self) == (AttrImport { columns: final(self).columns, ..*old(self) }),
    {
        let to = !self.all_on();
        let ghost before = self.columns@;
        let mut i: usize = 0;
        while i < self.columns.len()
            invariant
                i <= self.columns@.len(),
                self.columns@.len() == before.len(),
                to == !all_included(before),
                forall|k: int|
                    0 <= k < i ==> #[trigger] self.columns@[k] == (PlanColumn {
                        chosen: to,
                        ..before[k]
                    }),
                forall|k: int| i <= k < before.len() ==> #[trigger] self.columns@[k] == before[k],
                *self == (AttrImport { columns: self.columns, ..*old(self) }),
            decreases self.columns@.len() - i,
        {
            self.columns[i].chosen = to;
            i += 1;
        }
    }

    /// Choose the separator; the columns are worked out again where it
    /// changed.
    pub fn set_delimiter(&mut self, d: u8)
        ensures
            *final(self) == (AttrImport {
                delimiter: d,
                reread: old(self).reread || d != old(self).delimiter,
                ..*old(self)
            }),
    {
        if self.delimiter != d {
            self.delimiter = d;
            self.reread = true;
        }
    }

    /// Say whether the first row holds names; the columns are worked out
    /// again.
    pub fn set_header(&mut self, on: bool)
        ensures
            *final(self) == (AttrImport { has_header: on, reread: true, ..*old(self) }),
    {
        self.has_header = on;
        self.reread = true;
    }

    /// Choose how digits are grouped; says whether types have to be checked
    /// again.
    pub fn set_numbers(&mut self, f: u32) -> (retype: bool)
        ensures
            retype == (f != old(self).numbers),
            *final(self) == (AttrImport { numbers: f, ..*old(self) }),
    {
        let retype = self.numbers != f;
        self.numbers = f;
        retype
    }

    /// See [`numeric_names`].
    pub fn numeric(&self) -> (r: Vec<String>)
        ensures
            texts(r@) == numeric_names(self.columns@),
    {
        let mut out: Vec<String> = Vec::new();
        let mut i: usize = 0;
        assert(texts(out@) =~= Seq::empty());
        while i < self.columns.len()
            invariant
                i <= self.columns@.len(),
                texts(out@) == numeric_names(self.columns@.subrange(0, i as int)),
            decreases self.columns@.len() - i,
        {
            assert(self.columns@.subrange(0, i + 1).drop_last() =~= self.columns@.subrange(
                0,
                i as int,
            ));
            match self.columns[i].ty {
                ColType::Integer | ColType::Float => push_text(
                    &mut out,
                    self.columns[i].name.clone(),
                ),
                _ => {},
            }
            i += 1;
        }
        assert(self.columns@.subrange(0, i as int) =~= self.columns@);
        out
    }

    /// Make points of the first two numeric columns, in degrees; left as it
    /// is where points are made already, or there are no two such columns.
    pub fn pick_points(&mut self)
        ensures
            if old(self).geometry is Points || numeric_names(old(self).columns@).len() < 2 {
                *final(self) == *old(self)
            } else {
                &&& final(self).geometry matches GeometryPlan::Points { x, y, epsg }
                &&& x@ == numeric_names(old(self).columns@)[0]
                &&& y@ == numeric_names(old(self).columns@)[1]
                &&& epsg == 4326
                &&& *final(self) == (AttrImport { geometry: final(self).geometry, ..*old(self) })
            },
    {
        if let GeometryPlan::Points { .. } = self.geometry {
            return;
        }
        let names = self.numeric();
        assert(texts(names@).len() == names@.len());
        if names.len() >= 2 {
            let x = names[0].clone();
            let y = names[1].clone();
            assert(texts(names@)[0] == x@ && texts(names@)[1] == y@);
            self.geometry = GeometryPlan::Points { x, y, epsg: 4326 };
        }
    }

    /// Make a table of the rows.
    pub fn pick_table(&mut self)
        ensures
            *final(self) == (AttrImport { geometry: GeometryPlan::Table, ..*old(self) }),
    {
        self.geometry = GeometryPlan::Table;
    }

    fn coordinates_dropped(&self) -> (r: bool)
        ensures
            r == drops_coordinates(*self),
    {
        match &self.geometry {
            GeometryPlan::Table => false,
            GeometryPlan::Points { x, y, .. } => {
                let mut i: usize = 0;
                while i < self.columns.len()
                    invariant
                        i <= self.columns@.len(),
                        self.geometry matches GeometryPlan::Points { x: gx, y: gy, .. } && gx == *x && gy == *y,
                        forall|k: int|
                            0 <= k < i ==> !(((#[trigger] self.columns@[k]).name@ == x@
                                || self.columns@[k].name@ == y@) && !self.columns@[k].chosen),
                    decreases self.columns@.len() - i,
                {
                    let c = &self.columns[i];
                    if (same(c.name.as_str(), x.as_str()) || same(c.name.as_str(), y.as_str()))
                        && !c.chosen {
                        assert(self.columns@[i as int] == *c);
                        return true;
                    }
                    i += 1;
                }
                false
            },
        }
    }

    /// The import can run: something is selected, the coordinates are among
    /// it, and their grid is known.
    pub open spec fn importable(self) -> bool {
        &&& any_included(self.columns@)
        &&& !(self.geometry matches GeometryPlan::Points { epsg, .. } && epsg == 0)
        &&& !drops_coordinates(self)
    }

    /// See [`Self::importable`].
    pub fn can_import(&self) -> (r: bool)
        ensures
            r == self.importable(),
    {
        let no_grid = match &self.geometry {
            GeometryPlan::Points { epsg, .. } => *epsg == 0,
            GeometryPlan::Table => false,
        };
        self.any_on() && !no_grid && !self.coordinates_dropped()
    }

    /// What the button says: rows with known coordinates become a layer.
    pub fn button(&self) -> (r: &'static str)
        ensures
            r@ == if self.geometry matches GeometryPlan::Points { epsg, .. } && epsg != 0 {
                "Import as layer"@
            } else {
                "Import"@
            },
    {
        match &self.geometry {
            GeometryPlan::Points { epsg, .. } => if *epsg != 0 {
                "Import as layer"
            } else {
                "Import"
            },
            GeometryPlan::Table => "Import",
        }
    }

    fn lost(&self) -> (r: usize)
        requires
            lost_values(self.columns@, self.previews@) <= usize::MAX,
        ensures
            r == lost_values(self.columns@, self.previews@),
    {
        let mut sum: usize = 0;
        let mut i: usize = 0;
        let ghost cols = self.columns@;
        while i < self.columns.len()
            invariant
                i <= self.columns@.len(),
                cols == self.columns@,
                lost_values(cols, self.previews@) <= usize::MAX,
                sum == lost_values(cols.subrange(0, i as int), self.previews@),
            decreases self.columns@.len() - i,
        {
            assert(cols.subrange(0, i + 1).drop_last() =~= cols.subrange(0, i as int));
            proof {
                lost_values_grow(cols, self.previews@, i + 1);
            }
            if i < self.previews.len() && self.columns[i].chosen {
                sum = sum + self.previews[i].bad;
            }
            i += 1;
        }
        assert(cols.subrange(0, i as int) =~= cols);
        sum
    }

    /// What is said beside the button.
    pub fn note(&self) -> (r: ImportNote)
        requires
            lost_values(self.columns@, self.previews@) <= usize::MAX,
        ensures
            ({
                let lost = lost_values(self.columns@, self.previews@);
                if !any_included(self.columns@) {
                    r is NothingSelected
                } else if drops_coordinates(*self) {
                    r is CoordinatesLeftOut
                } else if lost > 0 {
                    r matches ImportNote::Losing(t) && t@ == count_text(lost) + " sampled value"@ + (
                    if lost == 1 {
                        Seq::<char>::empty()
                    } else {
                        "s"@
                    }) + " will become NULL"@
                } else {
                    r is Quiet
                }
            }),
    {
        if !self.any_on() {
            return ImportNote::NothingSelected;
        }
        if self.coordinates_dropped() {
            return ImportNote::CoordinatesLeftOut;
        }
        let lost = self.lost();
        if lost > 0 {
            let n = fmt_count(lost);
            let plural = if lost == 1 {
                String::new()
            } else {
                "s".to_owned()
            };
            ImportNote::Losing(
                cat4(n.as_str(), " sampled value", plural.as_str(), " will become NULL"),
            )
        } else {
            ImportNote::Quiet
        }
    }

    /// Whether the columns have to be worked out again; asked for once.
    pub fn take_reread(&mut self) -> (r: bool)
        ensures
            r == old(self).reread,
            *final(self) == (AttrImport { reread: false, ..*old(self) }),
    {
        let r = self.reread;
        self.reread = false;
        r
    }

    /// The file was looked into again: the plan is a new one, for the same
    /// source under the same name.
    pub fn reinspected(&mut self, fresh: AttrImport)
        ensures
            *final(self) == (AttrImport {
                source: old(self).source,
                label: old(self).label,
                name: old(self).name,
                reread: old(self).reread,
                ..fresh
            }),
    {
        self.columns = fresh.columns;
        self.previews = fresh.previews;
        self.sampled = fresh.sampled;
        self.sampled_rows = fresh.sampled_rows;
        self.typed_source = fresh.typed_source;
        self.delimiter = fresh.delimiter;
        self.has_header = fresh.has_header;
        self.numbers = fresh.numbers;
        self.geometry = fresh.geometry;
    }

    /// Whether the type of column `i` was changed from the one found.
    pub fn retyped(&self, i: usize) -> (r: bool)
        requires
            i < self.columns@.len(),
            i < self.previews@.len(),
        ensures
            r == (self.columns@[i as int].ty != self.previews@[i as int].inferred),
    {
        self.columns[i].ty != self.previews[i].inferred
    }

    /// "12 columns, 4k rows sampled", or what is still being read.
    pub fn header(&self) -> (r: String)
        ensures
            r@ == if self.sampled {
                decimal(self.columns@.len()) + " columns, "@ + count_text(self.sampled_rows as nat)
                    + " rows sampled"@
            } else {
                decimal(self.columns@.len())
                    + " columns from the file's footer — reading values…"@
            },
    {
        let n = dec(self.columns.len() as u64);
        if self.sampled {
            let rows = fmt_count(self.sampled_rows);
            cat4(n.as_str(), " columns, ", rows.as_str(), " rows sampled")
        } else {
            cat2(n.as_str(), " columns from the file's footer — reading values…")
        }
    }
}

impl ColumnPreview {
    /// What is said of values that do not fit the type chosen.
    pub fn bad_note(&self) -> (r: Option<String>)
        ensures
            match r {
                Some(t) => self.bad > 0 && t@ == count_text(self.bad as nat) + " won't parse: "@
                    + joined(texts(self.bad_examples@), ", "@),
                None => self.bad == 0,
            },
    {
        if self.bad > 0 {
            let n = fmt_count(self.bad);
            let list = join(&self.bad_examples, ", ");
            Some(cat3(n.as_str(), " won't parse: ", list.as_str()))
        } else {
            None
        }
    }
}

proof fn lost_values_grow(cols: Seq<PlanColumn>, previews: Seq<ColumnPreview>, n: int)
    requires
        0 <= n <= cols.len(),
    ensures
        lost_values(cols.subrange(0, n), previews) <= lost_values(cols, previews),
    decreases cols.len() - n,
{
    if n < cols.len() {
        lost_values_grow(cols, previews, n + 1);
        assert(cols.subrange(0, n + 1).drop_last() =~= cols.subrange(0, n));
    } else {
        assert(cols.subrange(0, n) =~= cols);
    }
}

/// Sample values are taken where there is one for each column, with the
/// geometry they suggest; otherwise nothing changes.
pub proof fn samples_fit_their_columns(i: AttrImport, s: Sampled)
    ensures
        s.previews@.len() != i.previews@.len() ==> with_samples(i, s) == i,
        s.previews@.len() == i.previews@.len() ==> {
            let r = with_samples(i, s);
            &&& r.previews == s.previews
            &&& r.sampled && r.sampled_rows == s.rows
            &&& s.points is Some ==> r.geometry == s.points->0
            &&& s.points is None ==> r.geometry == i.geometry
            &&& r.columns == i.columns && r.name == i.name && r.source == i.source
        },
{
}

/// Files of one program never get the same name: their kinds or their numbers
/// tell them apart.
pub proof fn files_are_numbered(kind: Seq<char>, process: u32, m: u64, n: u64)
    requires
        m != n,
    ensures
        table_file(kind, process, m) != table_file(kind, process, n),
{
    let a = "geopq_"@ + kind + "_"@ + decimal(process as nat) + "_"@;
    let e = ".parquet"@;
    let u = table_file(kind, process, m);
    let v = table_file(kind, process, n);
    let x = decimal(m as nat);
    let y = decimal(n as nat);
    if u == v {
        assert(u.len() == a.len() + x.len() + e.len());
        assert(v.len() == a.len() + y.len() + e.len());
        assert(u.subrange(a.len() as int, (a.len() + x.len()) as int) =~= x);
        assert(v.subrange(a.len() as int, (a.len() + y.len()) as int) =~= y);
        crate::text::a_number_is_spelled_out(m as nat);
        crate::text::a_number_is_spelled_out(n as nat);
    }
}

/// Closing a table takes that one off the list, and only it.
pub proof fn one_table_goes(ts: Seq<AttrTable>, id: u64, t: AttrTable)
    ensures
        tables_without(ts, id).contains(t) <==> ts.contains(t) && t.id != id,
{
    broadcast use vstd::seq_lib::group_filter_ensures;

    let f = |t: AttrTable| t.id != id;
    let r = tables_without(ts, id);
    if ts.contains(t) && t.id != id {
        let k = ts.index_of(t);
        assert(f(ts[k]));
        assert(ts.filter(f).contains(ts[k]));
    }
    if r.contains(t) {
        let k = r.index_of(t);
        assert(f(ts.filter(f)[k]));
        ts.lemma_filter_contains_rev(f, t);
    }
}

/// A table is found by its id.
pub proof fn a_table_is_found(ts: Seq<AttrTable>, id: u64, i: int, k: int)
    requires
        0 <= i <= ts.len(),
    ensures
        i <= table_at(ts, id, i) <= ts.len(),
        table_at(ts, id, i) < ts.len() ==> ts[table_at(ts, id, i)].id == id,
        i <= k < ts.len() && ts[k].id == id ==> table_at(ts, id, i) <= k,
    decreases ts.len() - i,
{
    if i < ts.len() && ts[i].id != id {
        a_table_is_found(ts, id, i + 1, k);
    }
}

/// Values are lost where a column that is imported has some that do not fit:
/// leaving a column out loses none of its own, and nothing is lost where
/// nothing is imported.
pub proof fn values_are_lost_where_they_do_not_fit(cols: Seq<PlanColumn>, previews: Seq<ColumnPreview>)
    requires
        cols.len() == previews.len(),
    ensures
        lost_values(cols, previews) == 0 <==> forall|k: int|
            0 <= k < cols.len() && (#[trigger] cols[k]).chosen ==> previews[k].bad == 0,
        cols.len() > 0 ==> lost_values(cols, previews) == lost_values(
            cols.drop_last(),
            previews.drop_last(),
        ) + (if cols.last().chosen {
            previews.last().bad as nat
        } else {
            0
        }),
    decreases cols.len(),
{
    if cols.len() > 0 {
        let c = cols.drop_last();
        let p = previews.drop_last();
        values_are_lost_where_they_do_not_fit(c, p);
        lost_values_of_the_rest(c, previews, p);
        let bad = if cols.last().chosen {
            previews.last().bad as nat
        } else {
            0
        };
        if forall|k: int| 0 <= k < cols.len() && (#[trigger] cols[k]).chosen ==> previews[k].bad == 0 {
            assert forall|k: int| 0 <= k < c.len() && (#[trigger] c[k]).chosen implies p[k].bad == 0 by {
                assert(cols[k].chosen);
            }
            assert(cols[cols.len() - 1] == cols.last());
        }
        if lost_values(cols, previews) == 0 {
            assert forall|k: int| 0 <= k < cols.len() && (#[trigger] cols[k]).chosen implies previews[k].bad
                == 0 by {
                if k < c.len() {
                    assert(c[k] == cols[k]);
                }
            }
        }
    }
}

proof fn lost_values_of_the_rest(cols: Seq<PlanColumn>, a: Seq<ColumnPreview>, b: Seq<ColumnPreview>)
    requires
        cols.len() <= b.len() <= a.len(),
        forall|k: int| 0 <= k < cols.len() ==> a[k] == b[k],
    ensures
        lost_values(cols, a) == lost_values(cols, b),
    decreases cols.len(),
{
    if cols.len() > 0 {
        lost_values_of_the_rest(cols.drop_last(), a, b);
    }
}

/// An import can run if it brings something, and points have both their
/// coordinates and a grid.
pub proof fn an_import_has_what_it_needs(i: AttrImport)
    ensures
        i.importable() ==> exists|k: int| 0 <= k < i.columns@.len() && (#[trigger] i.columns@[k]).chosen,
        i.importable() && i.geometry is Points ==> i.geometry->epsg != 0 && forall|k: int|
            0 <= k < i.columns@.len() && ((#[trigger] i.columns@[k]).name@ == i.geometry->x@
                || i.columns@[k].name@ == i.geometry->y@) ==> i.columns@[k].chosen,
        i.geometry is Table ==> (i.importable() <==> exists|k: int|
            0 <= k < i.columns@.len() && (#[trigger] i.columns@[k]).chosen),
        i.geometry is Points && i.geometry->epsg != 0 && (forall|k: int|
            0 <= k < i.columns@.len() ==> (#[trigger] i.columns@[k]).chosen) && i.columns@.len() > 0
            ==> i.importable(),
{
    if i.columns@.len() > 0 && (forall|k: int|
        0 <= k < i.columns@.len() ==> (#[trigger] i.columns@[k]).chosen) {
        assert(i.columns@[0].chosen);
    }
}

/// The columns coordinates are picked from are the numeric ones, in order.
pub proof fn numeric_columns_hold_numbers(cols: Seq<PlanColumn>)
    ensures
        lists(numeric_names(cols), cols.len(), |i: int| cols[i].ty is Integer || cols[i].ty is Float, |i: int| cols[i].name@),
    decreases cols.len(),
{
    if cols.len() > 0 {
        let init = cols.drop_last();
        numeric_columns_hold_numbers(init);
        lists_alike(
            numeric_names(init),
            init.len(),
            |i: int| init[i].ty is Integer || init[i].ty is Float,
            |i: int| init[i].name@,
            |i: int| cols[i].ty is Integer || cols[i].ty is Float,
            |i: int| cols[i].name@,
        );
        lists_one_more(
            numeric_names(init),
            numeric_names(cols),
            init.len(),
            |i: int| cols[i].ty is Integer || cols[i].ty is Float,
            |i: int| cols[i].name@,
        );
    }
}

/// A coordinate column left out is noticed, whichever of the two it is, and no
/// other column is.
pub proof fn a_missing_coordinate_is_noticed(i: AttrImport, k: int)
    requires
        0 <= k < i.columns@.len(),
    ensures
        i.geometry matches GeometryPlan::Points { x, y, .. } ==> (!i.columns@[k].chosen && (
        i.columns@[k].name@ == x@ || i.columns@[k].name@ == y@) ==> drops_coordinates(i)),
        i.geometry is Table ==> !drops_coordinates(i),
        (forall|j: int| 0 <= j < i.columns@.len() ==> (#[trigger] i.columns@[j]).chosen)
            ==> !drops_coordinates(i),
{
}

/// Values that were lost are reported by the table, their number and their
/// column.
pub proof fn lost_values_are_told(name: Seq<char>, n: Nulled)
    ensures
        name.is_prefix_of(nulled_text(name, n)),
        crate::text::occurs(decimal(n.count as nat), nulled_text(name, n)),
        crate::text::occurs(n.column@, nulled_text(name, n)),
        n.count == 1 ==> nulled_text(name, n) == name + ": "@ + decimal(1) + " value"@ + " in "@ + n.column@
            + " did not fit its type and became NULL"@,
        n.count != 1 ==> nulled_text(name, n) == name + ": "@ + decimal(n.count as nat) + " value"@ + "s"@
            + " in "@ + n.column@ + " did not fit its type and became NULL"@,
{
    if n.count == 1 {
        assert(name + ": "@ + decimal(1) + " value"@ + Seq::<char>::empty() =~= name + ": "@ + decimal(1)
            + " value"@);
    }
    let t = nulled_text(name, n);
    let d = decimal(n.count as nat);
    assert(t.subrange(0, name.len() as int) =~= name);
    let a = (name.len() + ": "@.len()) as int;
    assert(t.subrange(a, a + d.len()) =~= d);
    assert(crate::text::occurs_at(d, t, a));
    let b = t.len() - " did not fit its type and became NULL"@.len() - n.column@.len();
    assert(t.subrange(b, b + n.column@.len()) =~= n.column@);
    assert(crate::text::occurs_at(n.column@, t, b));
}

} // verus!
