//! What the windows say of a file: its metadata, how ready it is to be drawn,
//! what it cost to fetch, and why it was not opened at once.
use vstd::prelude::*;
use crate::counts::{count_text, fmt_count};
use crate::layers::{states, LayerState};
use crate::session::{Stage, ViewerApp};
use crate::text::{
    occurs, occurs_at,
    cat2, cat3, cat4, cat5, cat6, cat7, dec, decimal, join, joined, segments, split, texts,
};

verus! {

broadcast use vstd::std_specs::hash::group_hash_axioms;

// --- rows of a table of facts ---------------------------------------------------------------

/// A line of a table of facts.
#[derive(Debug)]
pub struct InfoRow {
    pub key: String,
    pub value: String,
}

/// A line, as contracts speak of it.
pub struct Fact {
    pub key: Seq<char>,
    pub value: Seq<char>,
}

/// The facts a list of rows states.
pub open spec fn facts(v: Seq<InfoRow>) -> Seq<Fact> {
    v.map_values(|r: InfoRow| Fact { key: r.key@, value: r.value@ })
}

/// One fact.
pub open spec fn fact(key: Seq<char>, value: Seq<char>) -> Seq<Fact> {
    seq![Fact { key, value }]
}

/// One fact, where it is known.
pub open spec fn fact_if(key: Seq<char>, value: Option<String>) -> Seq<Fact> {
    match value {
        Some(v) => fact(key, v@),
        None => Seq::empty(),
    }
}

pub(crate) fn state(out: &mut Vec<InfoRow>, key: &str, value: String)
    ensures
        facts(final(out)@) == facts(old(out)@) + fact(key@, value@),
{
    out.push(InfoRow { key: key.to_owned(), value });
    assert(facts(out@) =~= facts(old(out)@) + fact(key@, value@));
}

fn state_if(out: &mut Vec<InfoRow>, key: &str, value: &Option<String>)
    ensures
        facts(final(out)@) == facts(old(out)@) + fact_if(key@, *value),
{
    match value {
        Some(v) => state(out, key, v.as_str().to_owned()),
        None => {
            assert(facts(out@) + Seq::<Fact>::empty() =~= facts(out@));
        },
    }
}

// --- what a file cost over the wire -----------------------------------------------------------

/// Bytes fetched, and in how many requests.
#[derive(Clone, Copy, PartialEq, Eq, Structural, Debug)]
pub struct Traffic {
    pub bytes: u64,
    pub requests: u64,
}

/// All of it, over the part files that are remote.
pub open spec fn bytes_of(parts: Seq<Option<Traffic>>) -> nat
    decreases parts.len(),
{
    if parts.len() == 0 {
        0
    } else {
        bytes_of(parts.drop_last()) + match parts.last() {
            Some(t) => t.bytes as nat,
            None => 0,
        }
    }
}

pub open spec fn requests_of(parts: Seq<Option<Traffic>>) -> nat
    decreases parts.len(),
{
    if parts.len() == 0 {
        0
    } else {
        requests_of(parts.drop_last()) + match parts.last() {
            Some(t) => t.requests as nat,
            None => 0,
        }
    }
}

pub open spec fn any_remote(parts: Seq<Option<Traffic>>) -> bool {
    exists|i: int| 0 <= i < parts.len() && (#[trigger] parts[i]) is Some
}

proof fn sums_grow(parts: Seq<Option<Traffic>>, n: int)
    requires
        0 <= n <= parts.len(),
    ensures
        bytes_of(parts.take(n)) <= bytes_of(parts),
        requests_of(parts.take(n)) <= requests_of(parts),
    decreases parts.len() - n,
{
    if n < parts.len() {
        sums_grow(parts, n + 1);
        assert(parts.take(n + 1).drop_last() =~= parts.take(n));
    } else {
        assert(parts.take(n) =~= parts);
    }
}

/// What a layer's part files cost, where any of them is remote.
pub fn fetched(parts: &Vec<Option<Traffic>>) -> (r: Option<Traffic>)
    requires
        bytes_of(parts@) <= u64::MAX,
        requests_of(parts@) <= u64::MAX,
    ensures
        match r {
            Some(t) => any_remote(parts@) && t.bytes == bytes_of(parts@) && t.requests
                == requests_of(parts@),
            None => !any_remote(parts@),
        },
{
    let mut any = false;
    let mut bytes: u64 = 0;
    let mut requests: u64 = 0;
    let mut i: usize = 0;
    while i < parts.len()
        invariant
            i <= parts@.len(),
            bytes_of(parts@) <= u64::MAX,
            requests_of(parts@) <= u64::MAX,
            bytes == bytes_of(parts@.take(i as int)),
            requests == requests_of(parts@.take(i as int)),
            any == exists|k: int| 0 <= k < i && (#[trigger] parts@[k]) is Some,
        decreases parts@.len() - i,
    {
        proof {
            sums_grow(parts@, i + 1);
            assert(parts@.take(i + 1).drop_last() =~= parts@.take(i as int));
        }
        if let Some(t) = parts[i] {
            any = true;
            bytes = bytes + t.bytes;
            requests = requests + t.requests;
        }
        i += 1;
    }
    assert(parts@.take(i as int) =~= parts@);
    if any {
        Some(Traffic { bytes, requests })
    } else {
        None
    }
}

/// A size in words, fetched in this many requests.
pub open spec fn fetched_text(size: Seq<char>, requests: nat) -> Seq<char> {
    size + " in "@ + count_text(requests) + " range requests"@
}

pub fn fetched_note(size: &str, requests: usize) -> (r: String)
    ensures
        r@ == fetched_text(size@, requests as nat),
{
    let n = fmt_count(requests);
    cat4(size, " in ", n.as_str(), " range requests")
}

// --- the file-information window ------------------------------------------------------------------

/// How a layer's row groups lie, its fractions already in words.
#[derive(Debug)]
pub struct Clustering {
    pub boxes: usize,
    pub source: String,
    /// How often a place is covered on average.
    pub overlap: String,
    /// That, as a percentage of the worst case.
    pub percent: String,
    pub poor: bool,
}

/// What is known of a layer's geometry column.
#[derive(Debug)]
pub struct GeoFacts {
    /// What the file cost over the wire, in words, where it is remote.
    pub downloaded: Option<String>,
    pub primary_column: String,
    pub encoding: String,
    pub geometry_types: Vec<String>,
    pub crs_name: String,
    pub crs_proj4: String,
    /// In words.
    pub bbox: Option<String>,
    pub covering: Option<String>,
    pub edges: Option<String>,
    pub clustering: Option<Clustering>,
}

/// The line on how row groups lie.
pub open spec fn clustering_text(c: Clustering) -> Seq<char> {
    decimal(c.boxes as nat) + " boxes — "@ + c.source@ + " — avg overlap ×"@ + c.overlap@ + " = "@
        + c.percent@ + "% of possible "@ + if c.poor {
        "(poorly clustered: consider Export…)"@
    } else {
        "(well clustered)"@
    }
}

fn clustering_line(c: &Clustering) -> (r: String)
    ensures
        r@ == clustering_text(*c),
{
    let n = dec(c.boxes as u64);
    let head = cat5(n.as_str(), " boxes — ", c.source.as_str(), " — avg overlap ×", c.overlap.as_str());
    let verdict = if c.poor {
        "(poorly clustered: consider Export…)"
    } else {
        "(well clustered)"
    };
    cat5(head.as_str(), " = ", c.percent.as_str(), "% of possible ", verdict)
}

/// The facts on a layer's geometry, in the order shown.
pub open spec fn geo_facts(f: GeoFacts) -> Seq<Fact> {
    fact_if("downloaded"@, f.downloaded) + fact("geometry column"@, f.primary_column@) + fact(
        "encoding"@,
        f.encoding@,
    ) + (if f.geometry_types@.len() > 0 {
        fact("geometry types"@, joined(texts(f.geometry_types@), ", "@))
    } else {
        Seq::empty()
    }) + fact("CRS"@, f.crs_name@ + " ("@ + f.crs_proj4@ + ")"@) + fact_if(
        "bbox (metadata)"@,
        f.bbox,
    ) + fact_if("covering"@, f.covering) + fact_if("edges"@, f.edges) + (match f.clustering {
        Some(c) => fact("row-group bboxes"@, clustering_text(c)),
        None => Seq::empty(),
    })
}

/// See [`geo_facts`].
pub fn geo_rows(f: &GeoFacts) -> (r: Vec<InfoRow>)
    ensures
        facts(r@) == geo_facts(*f),
{
    let mut out: Vec<InfoRow> = Vec::new();
    assert(facts(out@) + fact_if("downloaded"@, f.downloaded) =~= fact_if(
        "downloaded"@,
        f.downloaded,
    ));
    state_if(&mut out, "downloaded", &f.downloaded);
    state(&mut out, "geometry column", f.primary_column.as_str().to_owned());
    state(&mut out, "encoding", f.encoding.as_str().to_owned());
    let ghost before = facts(out@);
    assert(before + Seq::<Fact>::empty() =~= before);
    if f.geometry_types.len() > 0 {
        state(&mut out, "geometry types", join(&f.geometry_types, ", "));
    }
    state(&mut out, "CRS", cat4(f.crs_name.as_str(), " (", f.crs_proj4.as_str(), ")"));
    state_if(&mut out, "bbox (metadata)", &f.bbox);
    state_if(&mut out, "covering", &f.covering);
    state_if(&mut out, "edges", &f.edges);
    let ghost last = facts(out@);
    assert(last + Seq::<Fact>::empty() =~= last);
    if let Some(c) = &f.clustering {
        state(&mut out, "row-group bboxes", clustering_line(c));
    }
    out
}

/// What is known of a file, its sizes already in words.
#[derive(Debug)]
pub struct FileFacts {
    pub remote: bool,
    pub location: String,
    pub files: usize,
    /// The columns its folders spell out.
    pub hive_keys: Vec<String>,
    pub size: String,
    pub rows: u64,
    pub row_groups: usize,
    pub rows_min: u64,
    pub rows_max: u64,
    pub compressed: String,
    pub raw: String,
    /// Raw over compressed.
    pub ratio: String,
    pub format_version: String,
    pub created_by: Option<String>,
}

/// The facts on a file, in the order shown.
pub open spec fn file_facts(f: FileFacts) -> Seq<Fact> {
    fact(
        if f.remote {
            "url"@
        } else {
            "path"@
        },
        f.location@,
    ) + (if f.files > 1 {
        fact(
            "files"@,
            decimal(f.files as nat) + " (hive keys: "@ + (if f.hive_keys@.len() == 0 {
                "none"@
            } else {
                joined(texts(f.hive_keys@), ", "@)
            }) + ")"@,
        )
    } else {
        Seq::empty()
    }) + fact("file size"@, f.size@) + fact("rows"@, decimal(f.rows as nat)) + fact(
        "row groups"@,
        decimal(f.row_groups as nat) + " ("@ + decimal(f.rows_min as nat) + "–"@ + decimal(
            f.rows_max as nat,
        ) + " rows)"@,
    ) + fact("data size"@, f.compressed@ + " compressed / "@ + f.raw@ + " raw ("@ + f.ratio@ + "×)"@)
        + fact("parquet format"@, "v"@ + f.format_version@) + fact_if("created by"@, f.created_by)
}

/// See [`file_facts`].
pub fn file_rows(f: &FileFacts) -> (r: Vec<InfoRow>)
    ensures
        facts(r@) == file_facts(*f),
{
    let mut out: Vec<InfoRow> = Vec::new();
    let place = if f.remote {
        "url"
    } else {
        "path"
    };
    assert(facts(out@) + fact(place@, f.location@) =~= fact(place@, f.location@));
    state(&mut out, place, f.location.as_str().to_owned());
    let ghost before = facts(out@);
    assert(before + Seq::<Fact>::empty() =~= before);
    if f.files > 1 {
        let keys = if f.hive_keys.len() == 0 {
            "none".to_owned()
        } else {
            join(&f.hive_keys, ", ")
        };
        let n = dec(f.files as u64);
        state(&mut out, "files", cat4(n.as_str(), " (hive keys: ", keys.as_str(), ")"));
    }
    state(&mut out, "file size", f.size.as_str().to_owned());
    state(&mut out, "rows", dec(f.rows));
    let groups = dec(f.row_groups as u64);
    let min = dec(f.rows_min);
    let max = dec(f.rows_max);
    state(
        &mut out,
        "row groups",
        cat6(groups.as_str(), " (", min.as_str(), "–", max.as_str(), " rows)"),
    );
    state(
        &mut out,
        "data size",
        cat6(
            f.compressed.as_str(),
            " compressed / ",
            f.raw.as_str(),
            " raw (",
            f.ratio.as_str(),
            "×)",
        ),
    );
    state(&mut out, "parquet format", cat2("v", f.format_version.as_str()));
    state_if(&mut out, "created by", &f.created_by);
    out
}

/// The type shown of a column: a geometry's says what it means, too.
pub fn column_type(arrow_type: &str, logical: &Option<String>, geometry: bool) -> (r: String)
    ensures
        r@ == match *logical {
            Some(l) => if geometry {
                arrow_type@ + " ["@ + l@ + "]"@
            } else {
                arrow_type@
            },
            None => arrow_type@,
        },
{
    match logical {
        Some(l) => if geometry {
            cat4(arrow_type, " [", l.as_str(), "]")
        } else {
            arrow_type.to_owned()
        },
        None => arrow_type.to_owned(),
    }
}

/// The verdict on whether a file can be drawn by what is on screen.
pub fn readiness(indexable: bool) -> (r: &'static str)
    ensures
        r@ == if indexable {
            "Display readiness: optimized — viewport loading active"@
        } else {
            "Display readiness: not optimized — viewport loading unavailable"@
        },
{
    if indexable {
        "Display readiness: optimized — viewport loading active"
    } else {
        "Display readiness: not optimized — viewport loading unavailable"
    }
}

/// The outcome of one check on a file.
#[derive(Clone, Copy, PartialEq, Eq, Structural, Debug)]
pub enum Status {
    Pass,
    Warn,
    Fail,
}

/// The colour an outcome is shown in: green, amber or red.
pub fn status_color(s: Status) -> (r: [u8; 3])
    ensures
        r@ == match s {
            Status::Pass => seq![80u8, 200u8, 120u8],
            Status::Warn => seq![242u8, 140u8, 26u8],
            Status::Fail => seq![220u8, 60u8, 60u8],
        },
{
    let r: [u8; 3] = match s {
        Status::Pass => [80, 200, 120],
        Status::Warn => [242, 140, 26],
        Status::Fail => [220, 60, 60],
    };
    assert(r@ =~= match s {
        Status::Pass => seq![80u8, 200u8, 120u8],
        Status::Warn => seq![242u8, 140u8, 26u8],
        Status::Fail => seq![220u8, 60u8, 60u8],
    });
    r
}

// --- files that are not laid out for the viewport -----------------------------------------------

/// What the question about an unindexed file goes by, its sizes in words too.
#[derive(Debug)]
pub struct GateFacts {
    pub rows: u64,
    pub row_groups: usize,
    pub geom_bytes: u64,
    pub file_size: String,
    pub geom_size: String,
    /// Most rows and bytes of geometry that are decoded at once.
    pub max_rows: u64,
    pub max_bytes: u64,
    pub max_size: String,
}

/// The question about an unindexed file, in words.
#[derive(Debug)]
pub struct GateTexts {
    pub summary: String,
    pub choice: String,
    /// Why it cannot be loaded whole, where it cannot.
    pub too_large: Option<String>,
    pub load_all: String,
}

impl GateFacts {
    /// It is too large to be loaded whole.
    pub open spec fn oversized(self) -> bool {
        self.rows > self.max_rows || self.geom_bytes > self.max_bytes
    }

    pub fn too_big(&self) -> (r: bool)
        ensures
            r == self.oversized(),
    {
        self.rows > self.max_rows || self.geom_bytes > self.max_bytes
    }

    /// What is asked.
    pub fn texts(&self) -> (r: GateTexts)
        requires
            self.rows <= usize::MAX,
            self.max_rows <= usize::MAX,
        ensures
            r.summary@ == count_text(self.rows as nat) + " rows in "@ + decimal(
                self.row_groups as nat,
            ) + " row groups — "@ + self.file_size@,
            r.choice@
                == "Optimize rewrites it once (spatial sort + bbox index) and opens the optimized copy. Load all decodes every feature up front (~"@
                + self.geom_size@
                + " of geometry) — slower to open, complete and exact after that."@,
            r.load_all@ == "Load all "@ + count_text(self.rows as nat),
            match r.too_large {
                Some(t) => self.oversized() && t@ == "Too large to load in full ("@ + count_text(
                    self.rows as nat,
                ) + " rows / "@ + self.geom_size@ + " geometry — limits "@ + count_text(
                    self.max_rows as nat,
                ) + " / "@ + self.max_size@ + "). Optimize is the only path."@,
                None => !self.oversized(),
            },
    {
        let rows = fmt_count(self.rows as usize);
        let groups = dec(self.row_groups as u64);
        let summary = cat5(
            rows.as_str(),
            " rows in ",
            groups.as_str(),
            " row groups — ",
            self.file_size.as_str(),
        );
        let choice = cat3(
            "Optimize rewrites it once (spatial sort + bbox index) and opens the optimized copy. Load all decodes every feature up front (~",
            self.geom_size.as_str(),
            " of geometry) — slower to open, complete and exact after that.",
        );
        let too_large = if self.too_big() {
            let max = fmt_count(self.max_rows as usize);
            let head = cat5(
                "Too large to load in full (",
                rows.as_str(),
                " rows / ",
                self.geom_size.as_str(),
                " geometry — limits ",
            );
            Some(
                cat5(
                    head.as_str(),
                    max.as_str(),
                    " / ",
                    self.max_size.as_str(),
                    "). Optimize is the only path.",
                ),
            )
        } else {
            None
        };
        let load_all = cat2("Load all ", rows.as_str());
        GateTexts { summary, choice, too_large, load_all }
    }
}

// --- the status bar -----------------------------------------------------------------------------

/// What the network does: the rates of the streams that move, or all that was
/// fetched where none does. Data and basemap are told apart.
pub open spec fn network_text(
    data_rate: Option<String>,
    tile_rate: Option<String>,
    total: Seq<char>,
) -> Seq<char> {
    match (data_rate, tile_rate) {
        (Some(d), Some(t)) => "· ↓ "@ + ("data "@ + d@ + "/s"@ + " "@ + ("tiles "@ + t@ + "/s"@)),
        (Some(d), None) => "· ↓ "@ + ("data "@ + d@ + "/s"@),
        (None, Some(t)) => "· ↓ "@ + ("tiles "@ + t@ + "/s"@),
        (None, None) => "· ↓ "@ + total + " total"@,
    }
}

/// See [`network_text`].
pub fn network_line(data_rate: &Option<String>, tile_rate: &Option<String>, total: &str) -> (r: String)
    ensures
        r@ == network_text(*data_rate, *tile_rate, total@),
{
    match (data_rate, tile_rate) {
        (Some(d), Some(t)) => {
            let data = cat3("data ", d.as_str(), "/s");
            let tiles = cat3("tiles ", t.as_str(), "/s");
            let both = cat3(data.as_str(), " ", tiles.as_str());
            cat2("· ↓ ", both.as_str())
        },
        (Some(d), None) => {
            let data = cat3("data ", d.as_str(), "/s");
            cat2("· ↓ ", data.as_str())
        },
        (None, Some(t)) => {
            let tiles = cat3("tiles ", t.as_str(), "/s");
            cat2("· ↓ ", tiles.as_str())
        },
        (None, None) => cat3("· ↓ ", total, " total"),
    }
}

/// What was fetched this session, in full.
pub fn network_hover(data: &str, data_requests: usize, tiles: &str, tile_requests: usize) -> (r: String)
    ensures
        r@ == "downloaded this session\ndata: "@ + fetched_text(data@, data_requests as nat)
            + "\nbasemap: "@ + tiles@ + " in "@ + count_text(tile_requests as nat) + " tiles"@,
{
    let d = fetched_note(data, data_requests);
    let n = fmt_count(tile_requests);
    cat7(
        "downloaded this session\ndata: ",
        d.as_str(),
        "\nbasemap: ",
        tiles,
        " in ",
        n.as_str(),
        " tiles",
    )
}

/// The features of all layers.
pub open spec fn feature_total(layers: Seq<LayerState>) -> nat
    decreases layers.len(),
{
    if layers.len() == 0 {
        0
    } else {
        feature_total(layers.drop_last()) + layers.last().feature_count as nat
    }
}

proof fn total_grows(layers: Seq<LayerState>, n: int)
    requires
        0 <= n <= layers.len(),
    ensures
        feature_total(layers.take(n)) <= feature_total(layers),
    decreases layers.len() - n,
{
    if n < layers.len() {
        total_grows(layers, n + 1);
        assert(layers.take(n + 1).drop_last() =~= layers.take(n));
    } else {
        assert(layers.take(n) =~= layers);
    }
}

impl ViewerApp {
    /// How many features are loaded, where there are any.
    pub fn features_note(&self) -> (r: Option<String>)
        requires
            feature_total(self@.layers) <= usize::MAX,
        ensures
            match r {
                Some(t) => feature_total(self@.layers) > 0 && t@ == "· "@ + count_text(
                    feature_total(self@.layers),
                ) + " features"@,
                None => feature_total(self@.layers) == 0,
            },
    {
        let mut total: usize = 0;
        let mut i: usize = 0;
        while i < self.layers.len()
            invariant
                i <= self.layers@.len(),
                feature_total(self@.layers) <= usize::MAX,
                total == feature_total(self@.layers.take(i as int)),
            decreases self.layers@.len() - i,
        {
            proof {
                total_grows(self@.layers, i + 1);
                assert(self@.layers.take(i + 1).drop_last() =~= self@.layers.take(i as int));
                assert(self@.layers.take(i + 1).last() == self.layers@[i as int]@);
            }
            total = total + self.layers[i].feature_count;
            i += 1;
        }
        assert(self@.layers.take(i as int) =~= self@.layers);
        if total > 0 {
            let n = fmt_count(total);
            Some(cat3("· ", n.as_str(), " features"))
        } else {
            None
        }
    }
}

/// What a load is doing, in words.
pub open spec fn stage_name(s: Stage) -> Seq<char> {
    match s {
        Stage::Queued => "queued"@,
        Stage::WaitingForProjection => "waiting for projection"@,
        Stage::LoadingAllRows => "loading all rows"@,
        Stage::WaitingForAnswer => "file not optimized — waiting for your answer"@,
        Stage::Cancelling => "cancelling"@,
        Stage::Reported(t) => t@,
    }
}

/// See [`stage_name`].
pub fn stage_text(s: &Stage) -> (r: String)
    ensures
        r@ == stage_name(*s),
{
    match s {
        Stage::Queued => "queued".to_owned(),
        Stage::WaitingForProjection => "waiting for projection".to_owned(),
        Stage::LoadingAllRows => "loading all rows".to_owned(),
        Stage::WaitingForAnswer => "file not optimized — waiting for your answer".to_owned(),
        Stage::Cancelling => "cancelling".to_owned(),
        Stage::Reported(t) => t.as_str().to_owned(),
    }
}

/// The line on a load: the last part of where it comes from, what it is
/// doing, and how far it got.
pub fn load_label(label: &str, stage: &Stage, percent: &str) -> (r: String)
    ensures
        r@ == segments(label@, '/').last() + " — "@ + stage_name(*stage) + " "@ + percent@ + "%"@,
{
    let parts = split(label, '/');
    proof {
        some_segment(label@, '/');
    }
    let s = stage_text(stage);
    assert(texts(parts@).last() == parts@.last()@);
    cat6(parts[parts.len() - 1].as_str(), " — ", s.as_str(), " ", percent, "%")
}

proof fn some_segment(s: Seq<char>, c: char)
    ensures
        segments(s, c).len() > 0,
{
}

/// How many tiles are awaited, where any is.
pub fn tiles_note(pending: usize) -> (r: Option<String>)
    ensures
        match r {
            Some(t) => pending > 0 && t@ == "· "@ + decimal(pending as nat) + " tiles"@,
            None => pending == 0,
        },
{
    if pending > 0 {
        let n = dec(pending as u64);
        Some(cat3("· ", n.as_str(), " tiles"))
    } else {
        None
    }
}

/// The line of ownership.
pub fn copyright_line(year: u64) -> (r: String)
    ensures
        r@ == "© "@ + decimal(year as nat) + " Geomermaids"@,
{
    let y = dec(year);
    cat3("© ", y.as_str(), " Geomermaids")
}

/// What was fetched is summed over the remote parts; a local part adds nothing.
pub proof fn fetches_are_summed(parts: Seq<Option<Traffic>>, t: Traffic)
    ensures
        bytes_of(Seq::empty()) == 0 && requests_of(Seq::empty()) == 0,
        bytes_of(parts.push(Some(t))) == bytes_of(parts) + t.bytes,
        requests_of(parts.push(Some(t))) == requests_of(parts) + t.requests,
        bytes_of(parts.push(None)) == bytes_of(parts),
        requests_of(parts.push(None)) == requests_of(parts),
        any_remote(parts.push(Some(t))),
        any_remote(parts.push(None)) <==> any_remote(parts),
{
    assert(parts.push(Some(t)).drop_last() =~= parts);
    assert(parts.push(None).drop_last() =~= parts);
    assert(parts.push(Some(t))[parts.len() as int] is Some);
    if any_remote(parts) {
        let i = choose|i: int| 0 <= i < parts.len() && (#[trigger] parts[i]) is Some;
        assert(parts.push(None)[i] is Some);
    }
    if any_remote(parts.push(None)) {
        let i = choose|i: int|
            0 <= i < parts.push(None).len() && (#[trigger] parts.push(None)[i]) is Some;
        assert(parts[i] is Some);
    }
}

/// The features of a session are those of all its layers.
pub proof fn features_are_summed(layers: Seq<LayerState>, l: LayerState)
    ensures
        feature_total(Seq::empty()) == 0,
        feature_total(layers.push(l)) == feature_total(layers) + l.feature_count,
{
    assert(layers.push(l).drop_last() =~= layers);
}

/// A file is too large to be loaded whole if it has too many rows or too much
/// geometry, either of which is enough.
pub proof fn either_makes_a_file_too_large(f: GateFacts)
    ensures
        f.oversized() <==> f.rows > f.max_rows || f.geom_bytes > f.max_bytes,
{
}

/// Each stage of a load says what it is; what the loader reports is shown as
/// it is.
pub proof fn stages_say_what_they_are(s: Stage)
    ensures
        s is Queued ==> stage_name(s) == "queued"@,
        s is WaitingForProjection ==> stage_name(s) == "waiting for projection"@,
        s is LoadingAllRows ==> stage_name(s) == "loading all rows"@,
        s is WaitingForAnswer ==> stage_name(s) == "file not optimized — waiting for your answer"@,
        s is Cancelling ==> stage_name(s) == "cancelling"@,
        s matches Stage::Reported(t) ==> stage_name(s) == t@,
{
}

/// What the network does is said of the streams that move, data and tiles
/// apart; where none does, what was fetched in all.
pub proof fn moving_streams_are_named(data: Option<String>, tiles: Option<String>, total: Seq<char>)
    ensures
        data is Some ==> occurs("data "@ + data->0@ + "/s"@, network_text(data, tiles, total)),
        tiles is Some ==> occurs("tiles "@ + tiles->0@ + "/s"@, network_text(data, tiles, total)),
        data is None && tiles is None ==> network_text(data, tiles, total) == "· ↓ "@ + total
            + " total"@,
{
    let t = network_text(data, tiles, total);
    let head = "· ↓ "@.len() as int;
    if data is Some {
        let d = "data "@ + data->0@ + "/s"@;
        assert(t.subrange(head, head + d.len()) =~= d);
        assert(occurs_at(d, t, head));
    }
    if tiles is Some {
        let d = "tiles "@ + tiles->0@ + "/s"@;
        let at = t.len() - d.len();
        assert(t.subrange(at, at + d.len()) =~= d);
        assert(occurs_at(d, t, at));
    }
}

/// What is known of a layer's geometry is listed, under its own key; what is
/// not known is left out.
pub proof fn known_facts_are_listed(f: GeoFacts, k: int)
    ensures
        geo_facts(f).contains(Fact { key: "geometry column"@, value: f.primary_column@ }),
        geo_facts(f).contains(Fact { key: "encoding"@, value: f.encoding@ }),
        geo_facts(f).contains(
            Fact { key: "CRS"@, value: f.crs_name@ + " ("@ + f.crs_proj4@ + ")"@ },
        ),
        geo_facts(f).len() == 3 + (if f.downloaded is Some { 1int } else { 0 }) + (
        if f.geometry_types@.len() > 0 { 1int } else { 0 }) + (if f.bbox is Some { 1int } else { 0 })
            + (if f.covering is Some { 1int } else { 0 }) + (if f.edges is Some { 1int } else { 0 }) + (
        if f.clustering is Some { 1int } else { 0 }),
{
    let a = if f.downloaded is Some { 1int } else { 0 };
    let b = if f.geometry_types@.len() > 0 { 1int } else { 0 };
    let g = geo_facts(f);
    assert(g[a] == (Fact { key: "geometry column"@, value: f.primary_column@ }));
    assert(g[a + 1] == (Fact { key: "encoding"@, value: f.encoding@ }));
    assert(g[a + 2 + b] == (Fact { key: "CRS"@, value: f.crs_name@ + " ("@ + f.crs_proj4@ + ")"@ }));
}

/// What is said of a file: where it is, how large, how many rows and how they
/// are grouped.
pub proof fn a_file_is_described(f: FileFacts)
    ensures
        file_facts(f)[0].key == (if f.remote {
            "url"@
        } else {
            "path"@
        }),
        file_facts(f)[0].value == f.location@,
        file_facts(f).contains(Fact { key: "file size"@, value: f.size@ }),
        file_facts(f).contains(Fact { key: "rows"@, value: decimal(f.rows as nat) }),
        file_facts(f).len() == 6 + (if f.files > 1 { 1int } else { 0 }) + (
        if f.created_by is Some { 1int } else { 0 }),
{
    let a = if f.files > 1 { 1int } else { 0 };
    let g = file_facts(f);
    assert(g[a + 1] == (Fact { key: "file size"@, value: f.size@ }));
    assert(g[a + 2] == (Fact { key: "rows"@, value: decimal(f.rows as nat) }));
}

/// How row groups lie is told with what it was measured on, and poorly
/// clustered files are told from well clustered ones.
pub proof fn clustering_is_told(c: Clustering, d: Clustering)
    ensures
        decimal(c.boxes as nat).is_prefix_of(clustering_text(c)),
        occurs(c.source@, clustering_text(c)),
        occurs(c.overlap@, clustering_text(c)),
        occurs(c.percent@, clustering_text(c)),
        c.poor ==> "(poorly clustered: consider Export…)"@.is_suffix_of(clustering_text(c)),
        !c.poor ==> "(well clustered)"@.is_suffix_of(clustering_text(c)),
{
    let t = clustering_text(c);
    let end = if c.poor {
        "(poorly clustered: consider Export…)"@
    } else {
        "(well clustered)"@
    };
    let n = decimal(c.boxes as nat);
    assert(t.subrange(0, n.len() as int) =~= n);
    assert(t.subrange(t.len() - end.len(), t.len() as int) =~= end);
    let a = (n.len() + " boxes — "@.len()) as int;
    assert(t.subrange(a, a + c.source@.len()) =~= c.source@);
    assert(occurs_at(c.source@, t, a));
    let b = a + c.source@.len() + " — avg overlap ×"@.len();
    assert(t.subrange(b, b + c.overlap@.len()) =~= c.overlap@);
    assert(occurs_at(c.overlap@, t, b));
    let p = b + c.overlap@.len() + " = "@.len();
    assert(t.subrange(p, p + c.percent@.len()) =~= c.percent@);
    assert(occurs_at(c.percent@, t, p));
}

/// A size fetched is told with the number of requests it took.
pub proof fn fetches_are_told(size: Seq<char>, requests: nat)
    ensures
        size.is_prefix_of(fetched_text(size, requests)),
        occurs(count_text(requests), fetched_text(size, requests)),
{
    let t = fetched_text(size, requests);
    let c = count_text(requests);
    assert(t.subrange(0, size.len() as int) =~= size);
    let a = (size.len() + " in "@.len()) as int;
    assert(t.subrange(a, a + c.len()) =~= c);
    assert(occurs_at(c, t, a));
}

} // verus!
