//! Opening things: native file dialogs, addresses, dropped files, and the
//! small decisions of the window around the map.
use vstd::prelude::*;
use crate::session::{CameraState, Session, ViewerApp};
use crate::text::{
    a_number_is_spelled_out, numeral, cat2, cat3, chars_of, dec, decimal, ends_with, starts_with, trim, trim_trailing, trimmed,
    without_trailing,
};

verus! {

broadcast use vstd::std_specs::hash::group_hash_axioms;

// --- native file dialogs -----------------------------------------------------------------

/// What a file dialog was opened for. Images and documents that travel with
/// the request stay with the caller, under a number.
#[derive(Clone, Copy, PartialEq, Eq, Structural, Debug)]
pub enum PickFor {
    OpenFiles,
    OpenFolder,
    ImportVector,
    AttributeTable,
    SaveTable(u64),
    LoadContext,
    SaveContext,
    ColorMap,
    OptimizeFile,
    OptimizeFolder,
    Screenshot(u64),
    ExportSvg(u64),
}

/// What a dialog's thread has answered.
#[derive(Debug)]
pub enum PickAnswer {
    /// Nothing yet.
    Waiting,
    /// It died without an answer.
    Gone,
    /// The paths chosen, none where the dialog was cancelled.
    Paths(Vec<String>),
}

/// What an answer leads to.
#[derive(Debug)]
pub enum PickAction {
    Nothing,
    OpenFiles(Vec<String>),
    OpenFolder(String),
    Import(String),
    OpenTables(Vec<String>),
    SaveTable(u64, String),
    LoadContext(String),
    SaveContext(String),
    ColorMap(String),
    /// Write the output to this file.
    Optimize(String),
    /// Write a dataset into this folder.
    OptimizeInto(String),
    SaveScreenshot(u64, String),
    SaveSvg(u64, String),
}

/// The one file dialog on screen at a time.
#[derive(Debug)]
pub struct FileDialog {
    pub open: Option<PickFor>,
}

/// What the chosen paths, of which there is one at least, lead to.
pub open spec fn action_for(what: PickFor, paths: Vec<String>) -> PickAction {
    let first = paths@[0];
    match what {
        PickFor::OpenFiles => PickAction::OpenFiles(paths),
        PickFor::OpenFolder => PickAction::OpenFolder(first),
        PickFor::ImportVector => PickAction::Import(first),
        PickFor::AttributeTable => PickAction::OpenTables(paths),
        PickFor::SaveTable(id) => PickAction::SaveTable(id, first),
        PickFor::LoadContext => PickAction::LoadContext(first),
        PickFor::SaveContext => PickAction::SaveContext(first),
        PickFor::ColorMap => PickAction::ColorMap(first),
        PickFor::OptimizeFile => PickAction::Optimize(first),
        PickFor::OptimizeFolder => PickAction::OptimizeInto(first),
        PickFor::Screenshot(i) => PickAction::SaveScreenshot(i, first),
        PickFor::ExportSvg(i) => PickAction::SaveSvg(i, first),
    }
}

impl FileDialog {
    pub fn new() -> (r: FileDialog)
        ensures
            r.open is None,
    {
        FileDialog { open: None }
    }

    /// Ask for a dialog; refused while one is on screen.
    pub fn spawn_pick(&mut self, what: PickFor) -> (granted: bool)
        ensures
            granted == (old(self).open is None),
            final(self).open == if granted {
                Some(what)
            } else {
                old(self).open
            },
    {
        if self.open.is_some() {
            return false;
        }
        self.open = Some(what);
        true
    }

    /// Route the answer of the dialog on screen.
    pub fn poll_pick(&mut self, answer: PickAnswer) -> (r: PickAction)
        ensures
            match (old(self).open, answer) {
                (None, _) => r is Nothing && final(self).open is None,
                (Some(_), PickAnswer::Waiting) => r is Nothing && final(self).open == old(self).open,
                (Some(_), PickAnswer::Gone) => r is Nothing && final(self).open is None,
                (Some(what), PickAnswer::Paths(p)) => {
                    &&& final(self).open is None
                    &&& if p@.len() == 0 {
                        r is Nothing
                    } else {
                        r == action_for(what, p)
                    }
                },
            },
    {
        let what = match self.open {
            Some(w) => w,
            None => return PickAction::Nothing,
        };
        let paths = match answer {
            PickAnswer::Waiting => return PickAction::Nothing,
            PickAnswer::Gone => {
                self.open = None;
                return PickAction::Nothing;
            },
            PickAnswer::Paths(p) => p,
        };
        self.open = None;
        if paths.len() == 0 {
            return PickAction::Nothing;
        }
        let first = paths[0].clone();
        match what {
            PickFor::OpenFiles => PickAction::OpenFiles(paths),
            PickFor::OpenFolder => PickAction::OpenFolder(first),
            PickFor::ImportVector => PickAction::Import(first),
            PickFor::AttributeTable => PickAction::OpenTables(paths),
            PickFor::SaveTable(id) => PickAction::SaveTable(id, first),
            PickFor::LoadContext => PickAction::LoadContext(first),
            PickFor::SaveContext => PickAction::SaveContext(first),
            PickFor::ColorMap => PickAction::ColorMap(first),
            PickFor::OptimizeFile => PickAction::Optimize(first),
            PickFor::OptimizeFolder => PickAction::OptimizeInto(first),
            PickFor::Screenshot(i) => PickAction::SaveScreenshot(i, first),
            PickFor::ExportSvg(i) => PickAction::SaveSvg(i, first),
        }
    }
}

/// Where a drawing that is being collected stands.
#[derive(Clone, Copy, PartialEq, Eq, Structural, Debug)]
pub enum SvgWait {
    /// Leave it where it is: a file dialog is on screen, or it is not done.
    Leave,
    /// Take it and ask where to save it.
    Take,
    /// Its worker died.
    Drop,
}

/// Whether a collected drawing is taken: never while a dialog is on screen,
/// which would lose it.
pub fn poll_svg_export(dialog_open: bool, done: bool, died: bool) -> (r: SvgWait)
    ensures
        r == if dialog_open {
            SvgWait::Leave
        } else if done {
            SvgWait::Take
        } else if died {
            SvgWait::Drop
        } else {
            SvgWait::Leave
        },
{
    if dialog_open {
        SvgWait::Leave
    } else if done {
        SvgWait::Take
    } else if died {
        SvgWait::Drop
    } else {
        SvgWait::Leave
    }
}

// --- addresses ----------------------------------------------------------------------------

/// Where an address leads.
#[derive(Debug)]
pub enum UrlAction {
    /// To the catalog browser, on this portal.
    Portal(String),
    /// To a file or dataset, through this endpoint where one is given.
    Open { endpoint: Option<String> },
}

/// Whether an address can be opened.
pub fn url_valid(url: &str) -> (r: bool)
    ensures
        r == ("http://"@.is_prefix_of(url@) || "https://"@.is_prefix_of(url@)
            || "s3://"@.is_prefix_of(url@)),
{
    starts_with(url, "http://") || starts_with(url, "https://") || starts_with(url, "s3://")
}

/// Decide where an address leads: a portal's catalog is a list of datasets,
/// not a file.
pub fn open_url(url: &str, endpoint: &str) -> (r: UrlAction)
    ensures
        match r {
            UrlAction::Portal(p) => "/data.json"@.is_suffix_of(without_trailing(trimmed(url@), '/'))
                && p@ == trimmed(url@),
            UrlAction::Open { endpoint: e } => {
                &&& !"/data.json"@.is_suffix_of(without_trailing(trimmed(url@), '/'))
                &&& match e {
                    Some(t) => t@ == trimmed(endpoint@) && t@.len() > 0,
                    None => trimmed(endpoint@).len() == 0,
                }
            },
        },
{
    let t = trim(url);
    let base = trim_trailing(t.as_str(), '/');
    if ends_with(base.as_str(), "/data.json") {
        return UrlAction::Portal(t);
    }
    let e = trim(endpoint);
    let endpoint = if e.as_str().is_empty() {
        None
    } else {
        Some(e)
    };
    UrlAction::Open { endpoint }
}

/// Whether a routed source opens as a table: where it was asked for or can
/// be nothing else, except a collection of files, which the table reader
/// cannot open.
pub fn opens_as_table(collection: bool, asked: bool, tabular: bool) -> (r: bool)
    ensures
        r == (!collection && (asked || tabular)),
{
    !collection && (asked || tabular)
}

// --- dropped files --------------------------------------------------------------------------

/// What a dropped file becomes.
#[derive(Clone, Copy, PartialEq, Eq, Structural, Debug)]
pub enum DropAction {
    Import,
    Table,
    Folder,
    File,
}

/// Route a dropped file; `importable` and `tabular` are what its name says.
pub fn route_dropped(is_dir: bool, importable: bool, tabular: bool) -> (r: DropAction)
    ensures
        r == if is_dir {
            DropAction::Folder
        } else if importable {
            DropAction::Import
        } else if tabular {
            DropAction::Table
        } else {
            DropAction::File
        },
{
    if is_dir {
        DropAction::Folder
    } else if importable {
        DropAction::Import
    } else if tabular {
        DropAction::Table
    } else {
        DropAction::File
    }
}

// --- projections ------------------------------------------------------------------------------

/// A decimal digit.
pub open spec fn is_digit(c: char) -> bool {
    '0' <= c && c <= '9'
}

/// The number digits spell.
pub open spec fn spelled(s: Seq<char>) -> nat
    decreases s.len(),
{
    if s.len() == 0 {
        0
    } else {
        spelled(s.drop_last()) * 10 + (s.last() as u32 - '0' as u32) as nat
    }
}

/// Digits alone, one at least.
pub open spec fn digits_only(s: Seq<char>) -> bool {
    s.len() > 0 && forall|i: int| 0 <= i < s.len() ==> is_digit(#[trigger] s[i])
}

/// A text without one plus sign in front.
pub open spec fn without_plus(s: Seq<char>) -> Seq<char> {
    if s.len() > 0 && s[0] == '+' {
        s.subrange(1, s.len() as int)
    } else {
        s
    }
}

/// The number of 32 bits a text spells, if it does.
pub open spec fn number_in(s: Seq<char>) -> Option<u32> {
    let d = without_plus(s);
    if digits_only(d) && spelled(d) <= u32::MAX {
        Some(spelled(d) as u32)
    } else {
        None
    }
}

proof fn spelled_grows(s: Seq<char>, n: int)
    requires
        0 <= n <= s.len(),
        forall|i: int| 0 <= i < s.len() ==> is_digit(#[trigger] s[i]),
    ensures
        spelled(s.subrange(0, n)) <= spelled(s),
    decreases s.len() - n,
{
    if n < s.len() {
        spelled_grows(s, n + 1);
        let t = s.subrange(0, n + 1);
        assert(t.drop_last() =~= s.subrange(0, n));
        assert(t.last() == s[n]);
    } else {
        assert(s.subrange(0, n) =~= s);
    }
}

/// `str::parse` into a number of 32 bits.
pub fn parse_number(s: &str) -> (r: Option<u32>)
    ensures
        r == number_in(s@),
{
    let v = chars_of(s);
    let from: usize = if v.len() > 0 && v[0] == '+' {
        1
    } else {
        0
    };
    let ghost d = without_plus(s@);
    assert(d =~= v@.subrange(from as int, v@.len() as int));
    if from == v.len() {
        return None;
    }
    let mut n: u64 = 0;
    let mut i: usize = from;
    assert(d.subrange(0, 0) =~= Seq::<char>::empty());
    while i < v.len()
        invariant
            from <= i <= v@.len(),
            from < v@.len(),
            d == without_plus(s@),
            d == v@.subrange(from as int, v@.len() as int),
            n == spelled(d.subrange(0, i - from)),
            n <= u32::MAX,
            forall|k: int| 0 <= k < i - from ==> is_digit(#[trigger] d[k]),
        decreases v@.len() - i,
    {
        let c = v[i];
        assert(d[i - from] == c);
        if !('0' <= c && c <= '9') {
            return None;
        }
        assert(d.subrange(0, i - from + 1).drop_last() =~= d.subrange(0, i - from));
        n = n * 10 + (c as u32 - '0' as u32) as u64;
        if n > u32::MAX as u64 {
            proof {
                if digits_only(d) {
                    spelled_grows(d, i - from + 1);
                }
            }
            return None;
        }
        i += 1;
    }
    assert(d.subrange(0, i - from) =~= d);
    Some(n as u32)
}

/// The EPSG code entered.
pub fn epsg_code(entered: &str) -> (r: Result<u32, String>)
    ensures
        match r {
            Ok(n) => number_in(trimmed(entered@)) == Some(n),
            Err(e) => number_in(trimmed(entered@)) is None && e@ == "invalid EPSG code"@,
        },
{
    let t = trim(entered);
    match parse_number(t.as_str()) {
        Some(n) => Ok(n),
        None => Err("invalid EPSG code".to_owned()),
    }
}

impl Session {
    /// A projection was chosen by hand, or it is to be automatic again.
    pub open spec fn projection_chosen(self, pick: Option<u64>, auto: bool) -> Session {
        match pick {
            Some(d) => Session {
                cam: CameraState { auto_projection: auto, ..self.cam },
                ..self
            }.set_display(d),
            None => if auto {
                Session { cam: CameraState { auto_projection: true, ..self.cam }, ..self }
            } else {
                self
            },
        }
    }

    /// The camera is to be fitted to all layers.
    pub open spec fn fit_asked(self) -> Session {
        Session {
            cam: CameraState { pending_fit: true, camera_moved: true, ..self.cam },
            ..self
        }
    }
}

impl ViewerApp {
    /// Take in a projection choice.
    pub fn choose_projection(&mut self, pick: Option<u64>, auto: bool)
        ensures
            final(self)@ == old(self)@.projection_chosen(pick, auto),
    {
        match pick {
            Some(d) => {
                self.cam.auto_projection = auto;
                self.set_display(d);
            },
            None => if auto {
                self.cam.auto_projection = true;
            },
        }
    }

    /// Fit the camera to all layers.
    pub fn fit_all(&mut self)
        ensures
            final(self)@ == old(self)@.fit_asked(),
    {
        self.cam.pending_fit = true;
        self.cam.camera_moved = true;
    }

    /// The user moved the camera.
    pub fn camera_moved(&mut self)
        ensures
            final(self)@ == (Session {
                cam: CameraState { camera_moved: true, ..old(self)@.cam },
                ..old(self)@
            }),
    {
        self.cam.camera_moved = true;
    }

    /// Fit the camera to bounds the caller keeps under this number.
    pub fn fit_to(&mut self, bounds: u64)
        ensures
            final(self)@ == (Session {
                cam: CameraState { fit_bounds: Some(bounds), ..old(self)@.cam },
                ..old(self)@
            }),
    {
        self.cam.fit_bounds = Some(bounds);
    }

    /// Whether starting over is offered: there is something to undo.
    pub fn can_reset(&self) -> (r: bool)
        ensures
            r == (self@.layers.len() > 0 || !self@.queue.loading.is_empty()
                || !self@.cam.auto_projection),
    {
        self.layers.len() > 0 || !self.queue.loading.is_empty() || !self.cam.auto_projection
    }

    /// Whether the problems are on screen.
    pub fn errors_shown(&self) -> (r: bool)
        ensures
            r == (self@.show_errors && self@.errors.len() > 0),
    {
        self.show_errors && self.errors.len() > 0
    }

    /// The problems on screen were closed, or cleared; they stay on screen
    /// only while there are any.
    pub fn close_errors(&mut self, open: bool, clear: bool)
        ensures
            final(self)@ == if old(self)@.show_errors && old(self)@.errors.len() > 0 {
                Session {
                    errors: if clear {
                        Seq::empty()
                    } else {
                        old(self)@.errors
                    },
                    show_errors: open && !clear,
                    ..old(self)@
                }
            } else {
                old(self)@
            },
    {
        if !self.errors_shown() {
            return;
        }
        if clear {
            self.errors.clear();
            assert(self@.errors =~= Seq::empty());
        }
        self.show_errors = open && self.errors.len() > 0;
    }

    /// Show or hide the problems.
    pub fn toggle_errors(&mut self)
        ensures
            final(self)@ == (Session { show_errors: !old(self)@.show_errors, ..old(self)@ }),
    {
        self.show_errors = !self.show_errors;
    }

    /// Count down the frames owed after geometry arrived; says whether one
    /// more is.
    pub fn owe_frame(&mut self) -> (r: bool)
        ensures
            r == (old(self)@.strip_probe > 0),
            final(self)@ == (Session {
                strip_probe: if r {
                    (old(self)@.strip_probe - 1) as u8
                } else {
                    0
                },
                ..old(self)@
            }),
    {
        if self.strip_probe > 0 {
            self.strip_probe = self.strip_probe - 1;
            true
        } else {
            false
        }
    }

    /// Whether frames keep coming by themselves: something is under way.
    /// `other` says that of what the session does not know: a table being
    /// read, a query, a filter being tested, a drawing being collected.
    pub fn keeps_painting(&self, other: bool) -> (r: bool)
        ensures
            r == (other || !self@.queue.loading.is_empty() || !self@.work.rebuilding.is_empty()
                || !self@.work.filter_pending.is_empty()),
    {
        other || !self.queue.loading.is_empty() || !self.work.rebuilding.is_empty()
            || !self.work.filter_pending.is_empty()
    }
}

/// What starting over is going to close.
pub fn reset_question(layers: usize, loading: usize) -> (r: String)
    requires
        layers + loading <= usize::MAX,
    ensures
        r@ == "Close "@ + (if layers + loading == 1 {
            "1 layer"@
        } else {
            decimal((layers + loading) as nat) + " layers"@
        }) + " and return to the default projection, camera and view settings."@,
{
    let n: usize = layers + loading;
    let what = if n == 1 {
        "1 layer".to_owned()
    } else {
        let d = dec(n as u64);
        cat2(d.as_str(), " layers")
    };
    cat3(
        "Close ",
        what.as_str(),
        " and return to the default projection, camera and view settings.",
    )
}

// --- the graticule -------------------------------------------------------------------------

/// A line of the graticule through every second degree.
#[derive(Clone, Copy, PartialEq, Eq, Structural, Debug)]
pub struct LonLat {
    pub lon: i32,
    pub lat: i32,
}

/// The meridian at `lon`, from the southern limit to the northern.
pub open spec fn meridian(lon: int, max_lat: int) -> Seq<LonLat> {
    Seq::new(
        (max_lat + 1) as nat,
        |k: int| LonLat { lon: lon as i32, lat: (2 * k - max_lat) as i32 },
    )
}

/// The parallel at `lat`.
pub open spec fn parallel(lat: int) -> Seq<LonLat> {
    Seq::new(181, |k: int| LonLat { lon: (2 * k - 180) as i32, lat: lat as i32 })
}

/// The lines of the graticule: 25 meridians and 11 parallels, 15 degrees
/// apart. Mercator's meridians end at 85 degrees.
pub open spec fn graticule_lines(mercator: bool) -> Seq<Seq<LonLat>> {
    let max_lat: int = if mercator {
        85
    } else {
        90
    };
    Seq::new(25, |k: int| meridian(15 * k - 180, max_lat)) + Seq::new(
        11,
        |k: int| parallel(15 * k - 75),
    )
}

/// The points of a list of lines.
pub open spec fn points_of(v: Seq<Vec<LonLat>>) -> Seq<Seq<LonLat>> {
    v.map_values(|l: Vec<LonLat>| l@)
}

fn meridian_line(lon: i32, max_lat: i32) -> (r: Vec<LonLat>)
    requires
        0 <= max_lat <= 90,
    ensures
        r@ == meridian(lon as int, max_lat as int),
{
    let mut out: Vec<LonLat> = Vec::new();
    let mut k: i32 = 0;
    while k <= max_lat
        invariant
            0 <= k <= max_lat + 1,
            max_lat <= 90,
            out@ =~= meridian(lon as int, max_lat as int).subrange(0, k as int),
        decreases max_lat + 1 - k,
    {
        out.push(LonLat { lon, lat: 2 * k - max_lat });
        k += 1;
    }
    assert(out@ =~= meridian(lon as int, max_lat as int));
    out
}

fn parallel_line(lat: i32) -> (r: Vec<LonLat>)
    ensures
        r@ == parallel(lat as int),
{
    let mut out: Vec<LonLat> = Vec::new();
    let mut k: i32 = 0;
    while k < 181
        invariant
            0 <= k <= 181,
            out@ =~= parallel(lat as int).subrange(0, k as int),
        decreases 181 - k,
    {
        out.push(LonLat { lon: 2 * k - 180, lat });
        k += 1;
    }
    assert(out@ =~= parallel(lat as int));
    out
}

/// See [`graticule_lines`].
pub fn graticule_latlon(mercator: bool) -> (r: Vec<Vec<LonLat>>)
    ensures
        points_of(r@) == graticule_lines(mercator),
{
    let max_lat: i32 = if mercator {
        85
    } else {
        90
    };
    let ghost all = graticule_lines(mercator);
    let mut out: Vec<Vec<LonLat>> = Vec::new();
    let mut k: i32 = 0;
    while k < 25
        invariant
            0 <= k <= 25,
            max_lat == if mercator {
                85
            } else {
                90int
            },
            all == graticule_lines(mercator),
            points_of(out@) =~= all.subrange(0, k as int),
        decreases 25 - k,
    {
        let ghost before = out@;
        out.push(meridian_line(15 * k - 180, max_lat));
        assert(points_of(out@) =~= points_of(before).push(all[k as int]));
        k += 1;
    }
    let mut j: i32 = 0;
    while j < 11
        invariant
            0 <= j <= 11,
            all == graticule_lines(mercator),
            points_of(out@) =~= all.subrange(0, 25 + j),
        decreases 11 - j,
    {
        let ghost before = out@;
        out.push(parallel_line(15 * j - 75));
        assert(points_of(out@) =~= points_of(before).push(all[25 + j]));
        j += 1;
    }
    assert(points_of(out@) =~= all);
    out
}

/// What was chosen in a dialog goes to what it was opened for: each purpose has
/// its own action, on the file chosen first, or on all of them where several
/// can be opened.
pub proof fn a_choice_goes_to_its_purpose(what: PickFor, paths: Vec<String>)
    requires
        paths@.len() > 0,
    ensures
        ({
            let a = action_for(what, paths);
            let p = paths@[0];
            &&& what is OpenFiles ==> a == PickAction::OpenFiles(paths)
            &&& what is OpenFolder ==> a == PickAction::OpenFolder(p)
            &&& what is ImportVector ==> a == PickAction::Import(p)
            &&& what is AttributeTable ==> a == PickAction::OpenTables(paths)
            &&& what matches PickFor::SaveTable(id) ==> a == PickAction::SaveTable(id, p)
            &&& what is LoadContext ==> a == PickAction::LoadContext(p)
            &&& what is SaveContext ==> a == PickAction::SaveContext(p)
            &&& what is ColorMap ==> a == PickAction::ColorMap(p)
            &&& what is OptimizeFile ==> a == PickAction::Optimize(p)
            &&& what is OptimizeFolder ==> a == PickAction::OptimizeInto(p)
            &&& what matches PickFor::Screenshot(i) ==> a == PickAction::SaveScreenshot(i, p)
            &&& what matches PickFor::ExportSvg(i) ==> a == PickAction::SaveSvg(i, p)
            &&& !(a is Nothing)
        }),
{
}

proof fn spelled_is_numeral(s: Seq<char>)
    requires
        forall|i: int| 0 <= i < s.len() ==> '0' <= #[trigger] s[i] <= '9',
    ensures
        spelled(s) == numeral(s),
    decreases s.len(),
{
    if s.len() > 0 {
        assert forall|i: int| 0 <= i < s.drop_last().len() implies '0' <= #[trigger] s.drop_last()[i]
            <= '9' by {
            assert('0' <= s[i] <= '9');
        }
        spelled_is_numeral(s.drop_last());
        assert('0' <= s[s.len() - 1] <= '9');
    }
}

/// A number typed in digits is read as that number, with or without a plus in
/// front, where it fits 32 bits; a text with anything else in it is none.
pub proof fn numbers_are_read_as_typed(n: nat, s: Seq<char>, k: int)
    ensures
        n <= u32::MAX ==> number_in(decimal(n)) == Some(n as u32),
        n <= u32::MAX ==> number_in(seq!['+'] + decimal(n)) == Some(n as u32),
        n > u32::MAX ==> number_in(decimal(n)) is None,
        0 < k < s.len() && !('0' <= s[k] <= '9') ==> number_in(s) is None,
        s.len() > 0 && s[0] != '+' && !('0' <= s[0] <= '9') ==> number_in(s) is None,
        number_in(Seq::empty()) is None,
        number_in(seq!['+']) is None,
{
    let d = decimal(n);
    a_number_is_spelled_out(n);
    spelled_is_numeral(d);
    assert forall|i: int| 0 <= i < d.len() implies is_digit(#[trigger] d[i]) by {
        assert('0' <= d[i] <= '9');
    }
    assert(is_digit(d[0]));
    assert(without_plus(d) == d);
    let p = seq!['+'] + d;
    assert(p.subrange(1, p.len() as int) =~= d);
    if 0 < k < s.len() && !('0' <= s[k] <= '9') {
        let w = without_plus(s);
        if s[0] == '+' {
            assert(!is_digit(w[k - 1]));
        } else {
            assert(!is_digit(w[k]));
        }
    }
    if s.len() > 0 && s[0] != '+' && !('0' <= s[0] <= '9') {
        assert(!is_digit(without_plus(s)[0]));
    }
    assert(seq!['+'].subrange(1, 1) =~= Seq::<char>::empty());
}

/// The graticule: a meridian every 15 degrees all round, from limit to limit,
/// and a parallel every 15 degrees up to 75 on both sides, with a point every
/// other degree; no point lies past 180 degrees or the limit of latitude.
pub proof fn the_graticule_covers_the_globe(mercator: bool, k: int, i: int)
    ensures
        ({
            let g = graticule_lines(mercator);
            let top: int = if mercator { 85 } else { 90 };
            &&& g.len() == 36
            &&& 0 <= k < 25 ==> g[k].len() == top + 1
            &&& 0 <= k < 25 && 0 <= i < g[k].len() ==> g[k][i].lon == 15 * k - 180 && g[k][i].lat == 2
                * i - top && -top <= g[k][i].lat <= top
            &&& 25 <= k < 36 ==> g[k].len() == 181
            &&& 25 <= k < 36 && 0 <= i < g[k].len() ==> g[k][i].lat == 15 * (k - 25) - 75 && g[k][i].lon
                == 2 * i - 180 && -180 <= g[k][i].lon <= 180
        }),
{
}

/// A projection picked by hand is switched to, and picked by the first layer
/// again only where that was asked for; asking for it alone switches nothing.
pub proof fn a_picked_projection_is_used(s: Session, pick: Option<u64>, auto: bool)
    ensures
        pick matches Some(d) ==> s.projection_chosen(pick, auto).cam.display == d
            && s.projection_chosen(pick, auto).cam.auto_projection == auto,
        pick is None ==> s.projection_chosen(pick, auto).cam.display == s.cam.display
            && s.projection_chosen(pick, auto).layers == s.layers,
        pick is None && auto ==> s.projection_chosen(pick, auto).cam.auto_projection,
        pick is None && !auto ==> s.projection_chosen(pick, auto) == s,
        s.fit_asked().cam.pending_fit && s.fit_asked().cam.camera_moved,
        s.fit_asked().layers == s.layers && s.fit_asked().cam.display == s.cam.display,
{
    if let Some(d) = pick {
        let a = Session { cam: CameraState { auto_projection: auto, ..s.cam }, ..s };
        crate::laws::rebuild_keeps_the_rest(a.redisplayed(d), None, 0);
    }
}

} // verus!
