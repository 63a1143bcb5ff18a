//! Importing vector files: converting a GeoPackage, Shapefile or GeoJSON file
//! to GeoParquet, one at a time.
use std::collections::VecDeque;
use vstd::prelude::*;
use crate::counts::{count_text, fmt_count};
use crate::text::{cat2, cat3, cat4, cat5, cat6, dec, decimal};

verus! {

#[derive(Clone, Copy, PartialEq, Eq, Structural, Debug)]
pub enum ImportFormat {
    Gpkg,
    Shapefile,
    GeoJson,
}

/// A file to import: its path, and its name without extension.
#[derive(Debug)]
pub struct ImportFile {
    pub path: String,
    pub stem: String,
}

/// A feature table of a GeoPackage.
#[derive(Debug)]
pub struct GpkgTable {
    pub name: String,
    pub rows: usize,
    pub srs_name: String,
}

/// The import dialog.
#[derive(Debug)]
pub struct ImportState {
    pub format: ImportFormat,
    pub src: ImportFile,
    /// Empty for formats of one table.
    pub tables: Vec<GpkgTable>,
    pub selected: usize,
    pub running: bool,
    /// From 0 to 1, as the bits of a single-precision number.
    pub progress: u32,
    pub error: Option<String>,
}

/// The import under way and those waiting for it.
#[derive(Debug)]
pub struct Imports {
    pub state: Option<ImportState>,
    pub queue: VecDeque<ImportFile>,
}

/// The name of the converted file: after the source, and after the table
/// where there is one to name.
pub open spec fn converted_name(stem: Seq<char>, table: Option<Seq<char>>) -> Seq<char> {
    match table {
        Some(t) => stem + "."@ + t + ".parquet"@,
        None => stem + ".parquet"@,
    }
}

impl ImportState {
    /// The name of the file the conversion lands in, beside the source.
    pub fn dst_for(&self, table: Option<&GpkgTable>) -> (r: String)
        ensures
            r@ == converted_name(
                self.src.stem@,
                match table {
                    Some(t) => Some(t.name@),
                    None => None,
                },
            ),
    {
        match table {
            Some(t) => cat4(self.src.stem.as_str(), ".", t.name.as_str(), ".parquet"),
            None => cat2(self.src.stem.as_str(), ".parquet"),
        }
    }
}

/// Two tables of a file convert into files of different names.
pub proof fn tables_convert_apart(stem: Seq<char>, a: Seq<char>, b: Seq<char>)
    requires
        a != b,
    ensures
        converted_name(stem, Some(a)) != converted_name(stem, Some(b)),
{
    let x = converted_name(stem, Some(a));
    let y = converted_name(stem, Some(b));
    if x == y {
        let k = (stem + "."@).len() as int;
        let n = ".parquet"@.len() as int;
        assert(x.subrange(k, x.len() - n) =~= a);
        assert(y.subrange(k, y.len() - n) =~= b);
    }
}

/// The last bytes of every parquet file.
pub open spec fn parquet_magic() -> Seq<u8> {
    seq![0x50u8, 0x41u8, 0x52u8, 0x31u8]
}

/// Whether a conversion is current: it is not older than its source (both
/// times in nanoseconds from the start of 1970, before which they are
/// negative), and it is whole, as its last four bytes tell.
pub fn up_to_date(dst: Option<i128>, src: Option<i128>, tail: Option<Vec<u8>>) -> (r: bool)
    ensures
        r == (dst is Some && src is Some && dst->0 >= src->0 && tail is Some && tail->0@
            == parquet_magic()),
{
    match (dst, src, tail) {
        (Some(d), Some(s), Some(t)) => {
            let magic = t.len() == 4 && t[0] == 0x50 && t[1] == 0x41 && t[2] == 0x52 && t[3] == 0x31;
            assert(magic ==> t@ =~= parquet_magic());
            assert(t@ == parquet_magic() ==> magic);
            d >= s && magic
        },
        _ => false,
    }
}

/// What starting an import takes next.
#[derive(Debug)]
pub enum ImportStep {
    /// The dialog waits for an answer.
    Wait,
    /// Look whether the file of this name is current.
    Check(String),
}

/// The tables a file offers, and what is wrong with it.
pub open spec fn offered(format: Option<ImportFormat>, listed: Result<Vec<GpkgTable>, String>) -> (
    Seq<GpkgTable>,
    Option<Seq<char>>,
) {
    match format {
        Some(ImportFormat::Gpkg) => match listed {
            Ok(t) => if t@.len() == 0 {
                (Seq::empty(), Some("no feature tables in this GeoPackage"@))
            } else {
                (t@, None)
            },
            Err(e) => (Seq::empty(), Some(e@)),
        },
        Some(_) => (Seq::empty(), None),
        None => (Seq::empty(), Some("unsupported file type"@)),
    }
}

/// The text of an error, if there is one.
pub open spec fn error_text(e: Option<String>) -> Option<Seq<char>> {
    match e {
        Some(t) => Some(t@),
        None => None,
    }
}

impl Imports {
    pub fn new() -> (r: Imports)
        ensures
            r.state is None,
            r.queue@.len() == 0,
    {
        Imports { state: None, queue: VecDeque::new() }
    }

    /// Whether a file can be looked into now. While a dialog is open it waits
    /// in line instead.
    pub fn admit_file(&mut self, file: ImportFile) -> (r: Option<ImportFile>)
        ensures
            if old(self).state is Some {
                &&& r is None
                &&& final(self).queue@ == old(self).queue@.push(file)
                &&& final(self).state == old(self).state
            } else {
                r == Some(file) && *final(self) == *old(self)
            },
    {
        if self.state.is_some() {
            self.queue.push_back(file);
            None
        } else {
            Some(file)
        }
    }

    /// Open the dialog for a file: its format, and the tables listed of it
    /// where it is a GeoPackage. It waits where there is an error to read or
    /// a table to choose, and goes on by itself otherwise.
    pub fn begin_import(
        &mut self,
        file: ImportFile,
        format: Option<ImportFormat>,
        listed: Result<Vec<GpkgTable>, String>,
    ) -> (r: ImportStep)
        requires
            old(self).state is None,
        ensures
            final(self).queue == old(self).queue,
            ({
                let (tables, error) = offered(format, listed);
                &&& final(self).state matches Some(s)
                &&& s.format == match format {
                    Some(f) => f,
                    None => ImportFormat::Gpkg,
                }
                &&& s.src == file
                &&& s.tables@ == tables
                &&& error_text(s.error) == error
                &&& s.selected == 0 && !s.running && s.progress == 0
                &&& match r {
                    ImportStep::Wait => error is Some || tables.len() > 1,
                    ImportStep::Check(name) => error is None && tables.len() <= 1 && name@
                        == converted_name(
                        file.stem@,
                        if tables.len() == 1 {
                            Some(tables[0].name@)
                        } else {
                            None
                        },
                    ),
                }
            }),
    {
        let (tables, error) = match format {
            Some(ImportFormat::Gpkg) => match listed {
                Ok(t) => if t.len() == 0 {
                    (Vec::new(), Some("no feature tables in this GeoPackage".to_owned()))
                } else {
                    (t, None)
                },
                Err(e) => (Vec::new(), Some(e)),
            },
            Some(_) => (Vec::new(), None),
            None => (Vec::new(), Some("unsupported file type".to_owned())),
        };
        assert(tables@ =~= offered(format, listed).0);
        let format = match format {
            Some(f) => f,
            None => ImportFormat::Gpkg,
        };
        let st = ImportState {
            format,
            src: file,
            tables,
            selected: 0,
            running: false,
            progress: 0,
            error,
        };
        let step = if st.error.is_some() || st.tables.len() > 1 {
            ImportStep::Wait
        } else if st.tables.len() == 1 {
            ImportStep::Check(st.dst_for(Some(&st.tables[0])))
        } else {
            ImportStep::Check(st.dst_for(None))
        };
        self.state = Some(st);
        step
    }

    /// The import is over: the dialog closes, and the next file in line, if
    /// any, is to be looked into.
    pub fn next(&mut self) -> (r: Option<ImportFile>)
        ensures
            final(self).state is None,
            match r {
                Some(f) => old(self).queue@.len() > 0 && f == old(self).queue@[0]
                    && final(self).queue@ == old(self).queue@.subrange(
                    1,
                    old(self).queue@.len() as int,
                ),
                None => old(self).queue@.len() == 0 && final(self).queue@.len() == 0,
            },
    {
        self.state = None;
        self.queue.pop_front()
    }

    /// The conversion starts.
    pub fn start_convert(&mut self)
        ensures
            final(self).queue == old(self).queue,
            final(self).state == match old(self).state {
                Some(s) => Some(ImportState { running: true, progress: 0, ..s }),
                None => None,
            },
    {
        if let Some(s) = &mut self.state {
            s.running = true;
            s.progress = 0;
        }
    }

    /// Whether closing the window ends the import: not while it converts.
    pub fn may_close(&self) -> (r: bool)
        ensures
            r == !(self.state matches Some(s) && s.running),
    {
        match &self.state {
            Some(s) => !s.running,
            None => true,
        }
    }

    /// "Import GeoPackage (2 more queued)".
    pub fn title(&self, format: &str) -> (r: String)
        ensures
            r@ == if self.queue@.len() > 0 {
                "Import "@ + format@ + " ("@ + decimal(self.queue@.len()) + " more queued)"@
            } else {
                "Import "@ + format@
            },
    {
        let n: usize = self.queue.len();
        if n > 0 {
            let d = dec(n as u64);
            cat5("Import ", format, " (", d.as_str(), " more queued)")
        } else {
            cat2("Import ", format)
        }
    }
}

/// A message from the converting worker.
#[derive(Debug)]
pub enum ImportMsg {
    Progress(u32),
    Done(String),
    Failed(String),
}

/// The dialog after a message; a finished file is returned beside it.
pub open spec fn after_message(s: ImportState, m: ImportMsg) -> (ImportState, Option<String>) {
    match m {
        ImportMsg::Progress(f) => (ImportState { progress: f, ..s }, None),
        ImportMsg::Done(p) => (s, Some(p)),
        ImportMsg::Failed(e) => (ImportState { error: Some(e), running: false, ..s }, None),
    }
}

impl ImportState {
    /// Take in a message; the file to open, once it is done.
    pub fn on_message(&mut self, m: ImportMsg) -> (done: Option<String>)
        ensures
            (*final(self), done) == after_message(*old(self), m),
    {
        match m {
            ImportMsg::Progress(f) => {
                self.progress = f;
                None
            },
            ImportMsg::Done(p) => Some(p),
            ImportMsg::Failed(e) => {
                self.error = Some(e);
                self.running = false;
                None
            },
        }
    }
}

/// "roads (4k rows, WGS 84)".
pub fn table_label(t: &GpkgTable) -> (r: String)
    ensures
        r@ == t.name@ + " ("@ + count_text(t.rows as nat) + " rows, "@ + t.srs_name@ + ")"@,
{
    let n = fmt_count(t.rows);
    cat6(t.name.as_str(), " (", n.as_str(), " rows, ", t.srs_name.as_str(), ")")
}

/// The name a conversion is written under until it is whole.
pub fn part_name(dst: &str) -> (r: String)
    ensures
        r@ == dst@ + ".part"@,
{
    cat2(dst, ".part")
}

/// Which reader converts a file.
#[derive(Clone, Copy, PartialEq, Eq, Structural, Debug)]
pub enum Converter {
    Gpkg,
    Shapefile,
    GeoJson,
    /// A GeoPackage without a table chosen.
    NoTable,
}

/// The reader for a format; a GeoPackage needs a table.
pub fn converter(format: ImportFormat, has_table: bool) -> (r: Converter)
    ensures
        r == match format {
            ImportFormat::Gpkg => if has_table {
                Converter::Gpkg
            } else {
                Converter::NoTable
            },
            ImportFormat::Shapefile => Converter::Shapefile,
            ImportFormat::GeoJson => Converter::GeoJson,
        },
{
    match format {
        ImportFormat::Gpkg => if has_table {
            Converter::Gpkg
        } else {
            Converter::NoTable
        },
        ImportFormat::Shapefile => Converter::Shapefile,
        ImportFormat::GeoJson => Converter::GeoJson,
    }
}

// --- downloads ----------------------------------------------------------------------------

/// A file being fetched before it is imported.
#[derive(Debug)]
pub struct Download {
    pub id: u64,
    pub label: String,
    pub got: u64,
    /// Where the server states it.
    pub total: Option<u64>,
    /// The user stopped it.
    pub stopped: bool,
}

/// Downloads in flight.
#[derive(Debug)]
pub struct Downloads {
    pub list: Vec<Download>,
    pub next: u64,
}

/// A message from a fetching worker.
#[derive(Debug)]
pub enum DlMsg {
    Progress(u64, u64, Option<u64>),
    Done(u64, String),
    Failed(u64, String),
}

/// What a message leaves to be done.
#[derive(Debug)]
pub enum DlStep {
    Nothing,
    Import(String),
    Error(String),
}

/// The downloads but those of this id.
pub open spec fn downloads_without(ds: Seq<Download>, id: u64) -> Seq<Download> {
    ds.filter(|d: Download| d.id != id)
}

/// The download was stopped by the user.
pub open spec fn was_stopped(ds: Seq<Download>, id: u64) -> bool {
    exists|k: int| 0 <= k < ds.len() && (#[trigger] ds[k]).id == id && ds[k].stopped
}

/// The first download of this id from `i` on, or the end.
pub open spec fn download_at(ds: Seq<Download>, id: u64, i: int) -> int
    decreases ds.len() - i,
{
    if i >= ds.len() {
        ds.len() as int
    } else if ds[i].id == id {
        i
    } else {
        download_at(ds, id, i + 1)
    }
}

impl Downloads {
    pub fn new() -> (r: Downloads)
        ensures
            r.list@.len() == 0,
            r.next == 0,
    {
        Downloads { list: Vec::new(), next: 0 }
    }

    /// A download starts; its number is returned.
    pub fn begin(&mut self, label: String) -> (id: u64)
        ensures
            id == old(self).next,
            final(self).next == old(self).next.wrapping_add(1),
            final(self).list@ == old(self).list@.push(
                Download { id, label, got: 0, total: None, stopped: false },
            ),
    {
        let id: u64 = self.next;
        self.next = id.wrapping_add(1);
        self.list.push(Download { id, label, got: 0, total: None, stopped: false });
        id
    }

    fn find(&self, id: u64) -> (r: Option<usize>)
        ensures
            match r {
                Some(i) => i < self.list@.len() && i == download_at(self.list@, id, 0),
                None => download_at(self.list@, id, 0) == self.list@.len(),
            },
    {
        let mut i: usize = 0;
        while i < self.list.len()
            invariant
                i <= self.list@.len(),
                download_at(self.list@, id, 0) == download_at(self.list@, id, i as int),
            decreases self.list@.len() - i,
        {
            if self.list[i].id == id {
                return Some(i);
            }
            i += 1;
        }
        None
    }

    /// Stop a download.
    pub fn stop(&mut self, at: usize)
        requires
            at < old(self).list@.len(),
        ensures
            final(self).next == old(self).next,
            final(self).list@ == old(self).list@.update(
                at as int,
                Download { stopped: true, ..old(self).list@[at as int] },
            ),
    {
        self.list[at].stopped = true;
        assert(self.list@ =~= old(self).list@.update(
            at as int,
            Download { stopped: true, ..old(self).list@[at as int] },
        ));
    }

    fn drop_id(&mut self, id: u64)
        ensures
            final(self).next == old(self).next,
            final(self).list@ == downloads_without(old(self).list@, id),
    {
        let mut rest: Vec<Download> = Vec::new();
        std::mem::swap(&mut rest, &mut self.list);
        let ghost all = rest@;
        let ghost keep = |d: Download| d.id != id;
        let mut kept: Vec<Download> = Vec::new();
        let ghost mut n: int = 0;
        assert(all.subrange(0, 0).filter(keep) =~= Seq::empty()) by {
            reveal(Seq::filter);
        }
        while rest.len() > 0
            invariant
                0 <= n <= all.len(),
                keep == |d: Download| d.id != id,
                rest@ =~= all.subrange(n, all.len() as int),
                kept@ == all.subrange(0, n).filter(keep),
            decreases rest@.len(),
        {
            let d = rest.remove(0);
            assert(all.subrange(0, n + 1).drop_last() =~= all.subrange(0, n));
            assert(all.subrange(0, n + 1).last() == d);
            proof {
                reveal(Seq::filter);
            }
            if d.id != id {
                kept.push(d);
            }
            proof {
                n = n + 1;
            }
        }
        assert(all.subrange(0, n) =~= all);
        self.list = kept;
    }

    fn stopped(&self, id: u64) -> (r: bool)
        ensures
            r == was_stopped(self.list@, id),
    {
        let mut i: usize = 0;
        while i < self.list.len()
            invariant
                i <= self.list@.len(),
                forall|k: int|
                    0 <= k < i ==> !((#[trigger] self.list@[k]).id == id && self.list@[k].stopped),
            decreases self.list@.len() - i,
        {
            if self.list[i].id == id && self.list[i].stopped {
                assert(self.list@[i as int].stopped);
                return true;
            }
            i += 1;
        }
        false
    }

    /// Take in a message. A download the user stopped is no failure to report
    /// back to them.
    pub fn on_message(&mut self, m: DlMsg) -> (r: DlStep)
        ensures
            final(self).next == old(self).next,
            match m {
                DlMsg::Progress(id, got, total) => {
                    let i = download_at(old(self).list@, id, 0);
                    &&& r is Nothing
                    &&& final(self).list@ == if i < old(self).list@.len() {
                        old(self).list@.update(
                            i,
                            Download { got, total, ..old(self).list@[i] },
                        )
                    } else {
                        old(self).list@
                    }
                },
                DlMsg::Done(id, path) => {
                    &&& r == DlStep::Import(path)
                    &&& final(self).list@ == downloads_without(old(self).list@, id)
                },
                DlMsg::Failed(id, e) => {
                    &&& r == if was_stopped(old(self).list@, id) {
                        DlStep::Nothing
                    } else {
                        DlStep::Error(e)
                    }
                    &&& final(self).list@ == downloads_without(old(self).list@, id)
                },
            },
    {
        match m {
            DlMsg::Progress(id, got, total) => {
                if let Some(i) = self.find(id) {
                    self.list[i].got = got;
                    self.list[i].total = total;
                    assert(self.list@ =~= old(self).list@.update(
                        i as int,
                        Download { got, total, ..old(self).list@[i as int] },
                    ));
                }
                DlStep::Nothing
            },
            DlMsg::Done(id, path) => {
                self.drop_id(id);
                DlStep::Import(path)
            },
            DlMsg::Failed(id, e) => {
                let stopped = self.stopped(id);
                self.drop_id(id);
                if stopped {
                    DlStep::Nothing
                } else {
                    DlStep::Error(e)
                }
            },
        }
    }
}

/// "Parks — 3 MB / 12 MB", or without a total where the server states none.
pub fn download_label(label: &str, got: &str, total: Option<&str>) -> (r: String)
    ensures
        r@ == match total {
            Some(t) => label@ + " — "@ + got@ + " / "@ + t@,
            None => label@ + " — "@ + got@,
        },
{
    match total {
        Some(t) => cat5(label, " — ", got, " / ", t),
        None => cat3(label, " — ", got),
    }
}

/// What a file offers: the tables of a GeoPackage that has some; nothing to
/// choose from in the other formats. Everything else is an error.
pub proof fn a_package_offers_its_tables(format: Option<ImportFormat>, listed: Result<Vec<GpkgTable>, String>)
    ensures
        offered(format, listed).1 is None <==> format is Some && (format->0 is Gpkg ==> listed is Ok
            && listed->Ok_0@.len() > 0),
        offered(format, listed).1 is None && format->0 is Gpkg ==> offered(format, listed).0
            == listed->Ok_0@,
        offered(format, listed).1 is Some || !(format->0 is Gpkg) ==> offered(format, listed).0.len()
            == 0,
        format == Some(ImportFormat::Gpkg) && listed is Err ==> offered(format, listed).1 == Some(
            listed->Err_0@,
        ),
{
}

/// A converted file is named after its source, and its table where it has one.
pub proof fn conversions_are_named_after_their_source(stem: Seq<char>, table: Seq<char>)
    ensures
        converted_name(stem, None) == stem + ".parquet"@,
        converted_name(stem, Some(table)) == stem + "."@ + table + ".parquet"@,
{
}

/// A conversion that ends hands its file over or says what went wrong; progress
/// does neither.
pub proof fn a_conversion_ends_one_way(s: ImportState, m: ImportMsg)
    ensures
        after_message(s, m).1 is Some <==> m is Done,
        m matches ImportMsg::Done(p) ==> after_message(s, m).1 == Some(p),
        m matches ImportMsg::Failed(e) ==> after_message(s, m).0.error == Some(e) && !after_message(
            s,
            m,
        ).0.running,
        !(m is Failed) ==> after_message(s, m).0.error == s.error && after_message(s, m).0.running
            == s.running,
        m matches ImportMsg::Progress(f) ==> after_message(s, m).0.progress == f,
        after_message(s, m).0.src == s.src && after_message(s, m).0.tables == s.tables,
{
}

/// Taking a download off the list takes that one, and only it.
pub proof fn one_download_goes(ds: Seq<Download>, id: u64, d: Download)
    ensures
        downloads_without(ds, id).contains(d) <==> ds.contains(d) && d.id != id,
        !was_stopped(downloads_without(ds, id), id),
        was_stopped(ds, id) <==> exists|k: int|
            0 <= k < ds.len() && (#[trigger] ds[k]).id == id && ds[k].stopped,
{
    broadcast use vstd::seq_lib::group_filter_ensures;

    let r = downloads_without(ds, id);
    let f = |d: Download| d.id != id;
    if ds.contains(d) && d.id != id {
        let k = ds.index_of(d);
        assert(f(ds[k]));
        assert(ds.filter(f).contains(ds[k]));
    }
    if r.contains(d) {
        let k = r.index_of(d);
        assert(f(ds.filter(f)[k]));
        ds.lemma_filter_contains_rev(f, d);
    }
    if was_stopped(r, id) {
        let k = choose|k: int| 0 <= k < r.len() && (#[trigger] r[k]).id == id && r[k].stopped;
        assert(f(ds.filter(f)[k]));
    }
}

/// A download is found by its id.
pub proof fn a_download_is_found(ds: Seq<Download>, id: u64, i: int, k: int)
    requires
        0 <= i <= ds.len(),
    ensures
        i <= download_at(ds, id, i) <= ds.len(),
        download_at(ds, id, i) < ds.len() ==> ds[download_at(ds, id, i)].id == id,
        i <= k < ds.len() && ds[k].id == id ==> download_at(ds, id, i) <= k,
    decreases ds.len() - i,
{
    if i < ds.len() && ds[i].id != id {
        a_download_is_found(ds, id, i + 1, k);
    }
}

} // verus!
