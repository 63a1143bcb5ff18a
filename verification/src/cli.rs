//! The command line: what its flags add up to, which layer it converts, and
//! what it prints.
use vstd::prelude::*;
use crate::export::{GpVersion, Partitioning};
use crate::imports::ImportFormat;
use crate::text::{
    a_number_is_spelled_out, numeral, cat2, cat3, cat4, cat5, cat6, copy_texts, dec, decimal, eq_ignore_ascii_case, join, joined,
    same, same_ignoring_ascii_case, texts,
};

verus! {

/// The output flavour asked for.
#[derive(Clone, Copy, PartialEq, Eq, Structural, Debug)]
pub enum FormatArg {
    Wkb,
    Geoarrow,
    Native2,
}

/// The compression asked for.
#[derive(Clone, Copy, PartialEq, Eq, Structural, Debug)]
pub enum CompressionArg {
    Zstd,
    Snappy,
    Plain,
}

#[derive(Clone, Copy, PartialEq, Eq, Structural, Debug)]
pub enum Codec {
    Zstd,
    Snappy,
    Uncompressed,
}

/// The flags.
#[derive(Debug)]
pub struct Cli {
    pub input: String,
    /// The extension of the input, if it has one.
    pub extension: Option<String>,
    pub layer: Option<String>,
    pub output: Option<String>,
    pub format: FormatArg,
    pub row_group_size: usize,
    pub row_group_mib: usize,
    pub compression: CompressionArg,
    pub no_hilbert: bool,
    pub no_covering: bool,
    pub h3: Option<u8>,
    pub partition_by: Vec<String>,
    pub partition_h3: bool,
    pub partition_h3_target_rows: usize,
    pub partition_h3_max_res: Option<u8>,
    pub cogp: bool,
    pub list_layers: bool,
}

/// How the output is written.
#[derive(Debug)]
pub struct OptimizeOptions {
    pub version: GpVersion,
    pub row_group_size: usize,
    pub row_group_bytes: usize,
    pub codec: Codec,
    pub hilbert_sort: bool,
    pub covering: bool,
    pub h3_resolution: Option<u8>,
    pub partition: Partitioning,
    /// Number of the level settings, kept by the caller.
    pub cogp: Option<u64>,
}

pub open spec fn version_of(f: FormatArg) -> GpVersion {
    match f {
        FormatArg::Wkb => GpVersion::V1_1,
        FormatArg::Geoarrow => GpVersion::V1_1GeoArrow,
        FormatArg::Native2 => GpVersion::V2_0,
    }
}

pub open spec fn codec_of(c: CompressionArg) -> Codec {
    match c {
        CompressionArg::Zstd => Codec::Zstd,
        CompressionArg::Snappy => Codec::Snappy,
        CompressionArg::Plain => Codec::Uncompressed,
    }
}

/// The output is split into files.
pub open spec fn partitioned(c: Cli) -> bool {
    c.partition_h3 || c.partition_by@.len() > 0
}

/// The finest resolution of an adaptive split: as asked for, that of the cell
/// column where there is one, or 10.
pub open spec fn finest(c: Cli) -> u8 {
    match c.partition_h3_max_res {
        Some(r) => r,
        None => match c.h3 {
            Some(r) => r,
            None => 10,
        },
    }
}

/// Why levels cannot be written, if they are asked for and cannot.
pub open spec fn cogp_error(c: Cli, levels: Result<u64, String>) -> Option<Seq<char>> {
    if !c.cogp {
        None
    } else if partitioned(c) {
        Some(
            "--cogp cannot be combined with partitioning: levels and hive parts both own the file layout"@,
        )
    } else if c.no_hilbert {
        Some("--cogp implies the Hilbert sort; drop --no-hilbert"@)
    } else if c.no_covering && c.format is Wkb {
        Some("--cogp on the wkb flavor implies the covering column; drop --no-covering"@)
    } else {
        match levels {
            Ok(_) => None,
            Err(e) => Some("--cogp: "@ + e@),
        }
    }
}

/// Why the flags do not add up, if they do not: the first reason, in the order
/// they are looked at. `format` is the vector format of the input, `levels`
/// the level settings.
pub open spec fn options_error(
    c: Cli,
    format: Option<ImportFormat>,
    levels: Result<u64, String>,
) -> Option<Seq<char>> {
    if c.partition_by@.len() > 0 && c.partition_h3 {
        Some("--partition-by and --partition-h3 are mutually exclusive"@)
    } else if c.layer is Some && format is Some && !(format->0 is Gpkg) {
        Some(
            "--layer applies to multi-layer sources; "@ + c.input@ + " holds a single layer"@,
        )
    } else if c.partition_h3 && c.partition_h3_target_rows == 0 {
        Some("--partition-h3-target-rows must be positive"@)
    } else if cogp_error(c, levels) is Some {
        cogp_error(c, levels)
    } else if c.row_group_size == 0 {
        Some("--row-group-size must be positive"@)
    } else if c.row_group_mib == 0 {
        Some("--row-group-mib must be positive"@)
    } else {
        None
    }
}

/// The options flags add up to.
pub open spec fn options_of(c: Cli, levels: Result<u64, String>, o: OptimizeOptions) -> bool {
    &&& o.version == version_of(c.format)
    &&& o.row_group_size == c.row_group_size
    &&& o.row_group_bytes == c.row_group_mib << 20
    &&& o.codec == codec_of(c.compression)
    &&& o.hilbert_sort == !c.no_hilbert
    &&& o.covering == !c.no_covering
    &&& o.h3_resolution == c.h3
    &&& match o.partition {
        Partitioning::AdaptiveH3 { target_rows, max_res } => c.partition_h3 && target_rows
            == c.partition_h3_target_rows && max_res == finest(c),
        Partitioning::Fields(f) => !c.partition_h3 && c.partition_by@.len() > 0 && f@
            == c.partition_by@,
        Partitioning::Single => !partitioned(c),
    }
    &&& o.cogp == if c.cogp {
        match levels {
            Ok(n) => Some(n),
            Err(_) => None,
        }
    } else {
        None
    }
}

fn check_levels(c: &Cli, levels: &Result<u64, String>) -> (r: Option<String>)
    ensures
        match r {
            Some(e) => cogp_error(*c, *levels) == Some(e@),
            None => cogp_error(*c, *levels) is None,
        },
{
    if !c.cogp {
        return None;
    }
    if c.partition_h3 || c.partition_by.len() > 0 {
        return Some(
            "--cogp cannot be combined with partitioning: levels and hive parts both own the file layout".to_owned(),
        );
    }
    if c.no_hilbert {
        return Some("--cogp implies the Hilbert sort; drop --no-hilbert".to_owned());
    }
    if c.no_covering && c.format == FormatArg::Wkb {
        return Some(
            "--cogp on the wkb flavor implies the covering column; drop --no-covering".to_owned(),
        );
    }
    match levels {
        Ok(_) => None,
        Err(e) => Some(cat2("--cogp: ", e.as_str())),
    }
}

/// The options the flags add up to, or why they do not.
pub fn options(c: &Cli, format: Option<ImportFormat>, levels: &Result<u64, String>) -> (r: Result<
    OptimizeOptions,
    String,
>)
    ensures
        match r {
            Ok(o) => options_error(*c, format, *levels) is None && options_of(*c, *levels, o),
            Err(e) => options_error(*c, format, *levels) == Some(e@),
        },
        r matches Ok(o) ==> {
            &&& c.format is Wkb <==> o.version is V1_1
            &&& c.format is Geoarrow <==> o.version is V1_1GeoArrow
            &&& c.format is Native2 <==> o.version is V2_0
            &&& c.compression is Zstd <==> o.codec is Zstd
            &&& c.compression is Snappy <==> o.codec is Snappy
            &&& c.compression is Plain <==> o.codec is Uncompressed
        },
{
    if c.partition_by.len() > 0 && c.partition_h3 {
        return Err("--partition-by and --partition-h3 are mutually exclusive".to_owned());
    }
    if c.layer.is_some() {
        if let Some(f) = format {
            if f != ImportFormat::Gpkg {
                return Err(
                    cat3(
                        "--layer applies to multi-layer sources; ",
                        c.input.as_str(),
                        " holds a single layer",
                    ),
                );
            }
        }
    }
    let partition = if c.partition_h3 {
        if c.partition_h3_target_rows == 0 {
            return Err("--partition-h3-target-rows must be positive".to_owned());
        }
        let max_res: u8 = match c.partition_h3_max_res {
            Some(r) => r,
            None => match c.h3 {
                Some(r) => r,
                None => 10,
            },
        };
        Partitioning::AdaptiveH3 { target_rows: c.partition_h3_target_rows, max_res }
    } else if c.partition_by.len() > 0 {
        Partitioning::Fields(copy_texts(&c.partition_by))
    } else {
        Partitioning::Single
    };
    if let Some(e) = check_levels(c, levels) {
        return Err(e);
    }
    if c.row_group_size == 0 {
        return Err("--row-group-size must be positive".to_owned());
    }
    if c.row_group_mib == 0 {
        return Err("--row-group-mib must be positive".to_owned());
    }
    let version = match c.format {
        FormatArg::Wkb => GpVersion::V1_1,
        FormatArg::Geoarrow => GpVersion::V1_1GeoArrow,
        FormatArg::Native2 => GpVersion::V2_0,
    };
    let codec = match c.compression {
        CompressionArg::Zstd => Codec::Zstd,
        CompressionArg::Snappy => Codec::Snappy,
        CompressionArg::Plain => Codec::Uncompressed,
    };
    let cogp = if c.cogp {
        match levels {
            Ok(n) => Some(*n),
            Err(_) => None,
        }
    } else {
        None
    };
    Ok(
        OptimizeOptions {
            version,
            row_group_size: c.row_group_size,
            row_group_bytes: c.row_group_mib << 20,
            codec,
            hilbert_sort: !c.no_hilbert,
            covering: !c.no_covering,
            h3_resolution: c.h3,
            partition,
            cogp,
        },
    )
}

/// Options that are accepted never ask for levels in a partitioned output, or
/// for levels without the sort they need.
pub proof fn levels_own_the_layout(c: Cli, format: Option<ImportFormat>, levels: Result<u64, String>, o: OptimizeOptions)
    requires
        options_error(c, format, levels) is None,
        options_of(c, levels, o),
        o.cogp is Some,
    ensures
        o.partition is Single,
        o.hilbert_sort,
        o.version is V1_1 ==> o.covering,
{
}

// --- the run --------------------------------------------------------------------------

/// What a run does.
#[derive(Debug)]
pub enum RunStep {
    ListLayers,
    Refuse(String),
    /// Optimize the input itself.
    Optimize { output: String, options: OptimizeOptions },
    /// Convert the input first, into a temporary file of this name.
    Import { format: ImportFormat, temp: String, output: String, options: OptimizeOptions },
}

/// The input is a parquet file by its extension.
pub open spec fn is_parquet(c: Cli) -> bool {
    c.extension is Some && same_ignoring_ascii_case(c.extension->0@, "parquet"@)
}

/// Why a run is refused, if it is.
pub open spec fn run_error(c: Cli, format: Option<ImportFormat>, levels: Result<u64, String>) -> Option<
    Seq<char>,
> {
    if c.output is None {
        Some("--output is required (or pass --list-layers)"@)
    } else if options_error(c, format, levels) is Some {
        options_error(c, format, levels)
    } else if !is_parquet(c) && format is None {
        Some("unsupported input: "@ + c.input@)
    } else {
        None
    }
}

/// Settle a run before anything is read: `process` tells temporary files
/// apart.
pub fn run(c: &Cli, format: Option<ImportFormat>, levels: &Result<u64, String>, process: u32) -> (r: RunStep)
    ensures
        if c.list_layers {
            r is ListLayers
        } else {
            match run_error(*c, format, *levels) {
                Some(e) => r matches RunStep::Refuse(t) && t@ == e,
                None => match r {
                    RunStep::Optimize { output, options } => is_parquet(*c) && c.output == Some(
                        output,
                    ) && options_of(*c, *levels, options),
                    RunStep::Import { format: f, temp, output, options } => !is_parquet(*c)
                        && format == Some(f) && c.output == Some(output) && options_of(
                        *c,
                        *levels,
                        options,
                    ) && temp@ == "geopq-cli-import-"@ + decimal(process as nat) + ".parquet"@,
                    _ => false,
                },
            }
        },
{
    if c.list_layers {
        return RunStep::ListLayers;
    }
    let output = match &c.output {
        Some(o) => o.clone(),
        None => {
            return RunStep::Refuse("--output is required (or pass --list-layers)".to_owned());
        },
    };
    let options = match options(c, format, levels) {
        Ok(o) => o,
        Err(e) => {
            return RunStep::Refuse(e);
        },
    };
    let parquet = match &c.extension {
        Some(e) => eq_ignore_ascii_case(e.as_str(), "parquet"),
        None => false,
    };
    if parquet {
        return RunStep::Optimize { output, options };
    }
    match format {
        Some(f) => {
            let p = dec(process as u64);
            let temp = cat3("geopq-cli-import-", p.as_str(), ".parquet");
            RunStep::Import { format: f, temp, output, options }
        },
        None => RunStep::Refuse(cat2("unsupported input: ", c.input.as_str())),
    }
}

/// What listing the layers of an input does.
#[derive(Debug)]
pub enum ListStep {
    /// Print its tables, one line each.
    Tables,
    /// Say this; there is nothing to list.
    Note(&'static str),
    Refuse(String),
}

/// Settle how the layers of an input are listed.
pub fn list_layers(input: &str, format: Option<ImportFormat>) -> (r: ListStep)
    ensures
        match format {
            None => r matches ListStep::Refuse(e) && e@ == "unsupported input: "@ + input@,
            Some(ImportFormat::Gpkg) => r is Tables,
            Some(_) => r matches ListStep::Note(t) && t@ == "(single layer — no --layer needed)"@,
        },
{
    match format {
        None => ListStep::Refuse(cat2("unsupported input: ", input)),
        Some(ImportFormat::Gpkg) => ListStep::Tables,
        Some(_) => ListStep::Note("(single layer — no --layer needed)"),
    }
}

// --- picking a layer --------------------------------------------------------------------

/// The first name from `i` on that differs from `want` in case at most, or the
/// end.
pub open spec fn name_at(names: Seq<Seq<char>>, want: Seq<char>, i: int) -> int
    decreases names.len() - i,
{
    if i >= names.len() {
        names.len() as int
    } else if same_ignoring_ascii_case(names[i], want) {
        i
    } else {
        name_at(names, want, i + 1)
    }
}

fn find_name(names: &Vec<String>, want: &str) -> (r: Option<usize>)
    ensures
        match r {
            Some(i) => i < names@.len() && i == name_at(texts(names@), want@, 0),
            None => name_at(texts(names@), want@, 0) == names@.len(),
        },
{
    let ghost all = texts(names@);
    let mut i: usize = 0;
    while i < names.len()
        invariant
            i <= names@.len(),
            all == texts(names@),
            name_at(all, want@, 0) == name_at(all, want@, i as int),
        decreases names@.len() - i,
    {
        assert(all[i as int] == names@[i as int]@);
        if eq_ignore_ascii_case(names[i].as_str(), want) {
            return Some(i);
        }
        i += 1;
    }
    None
}

/// Resolve a layer asked for by name among those a source has, or the only
/// one where none is asked for. An error lists what there is.
pub fn pick(names: &Vec<String>, want: Option<&str>) -> (r: Result<usize, String>)
    ensures
        match want {
            Some(n) => {
                let at = name_at(texts(names@), n@, 0);
                match r {
                    Ok(i) => i == at && i < names@.len(),
                    Err(e) => at >= names@.len() && e@ == "layer '"@ + n@ + "' not found; available: "@
                        + joined(texts(names@), ", "@),
                }
            },
            None => match r {
                Ok(i) => i == 0 && names@.len() == 1,
                Err(e) => if names@.len() == 0 {
                    e@ == "source has no layers"@
                } else {
                    names@.len() > 1 && e@ == "multiple layers, pick one with --layer: "@ + joined(
                        texts(names@),
                        ", "@,
                    )
                },
            },
        },
{
    match want {
        Some(n) => {
            if let Some(i) = find_name(names, n) {
                return Ok(i);
            }
            let list = join(names, ", ");
            Err(cat4("layer '", n, "' not found; available: ", list.as_str()))
        },
        None => {
            if names.len() == 1 {
                Ok(0)
            } else if names.len() == 0 {
                Err("source has no layers".to_owned())
            } else {
                let list = join(names, ", ");
                Err(cat2("multiple layers, pick one with --layer: ", list.as_str()))
            }
        },
    }
}

/// A line of the layer list.
pub fn layer_line(name: &str, rows: u64, srs: &str) -> (r: String)
    ensures
        r@ == name@ + "\t"@ + decimal(rows as nat) + " rows\t"@ + srs@,
{
    let n = dec(rows);
    cat5(name, "\t", n.as_str(), " rows\t", srs)
}

// --- what is printed ------------------------------------------------------------------------

/// What an optimize pass reports; sizes as text.
#[derive(Debug)]
pub struct OptimizeReport {
    pub rows: u64,
    pub rg_before: usize,
    pub rg_after: usize,
    pub size_before: String,
    pub size_after: String,
    pub files: usize,
    pub cogp_levels: usize,
}

/// The line a finished run prints.
pub open spec fn summary_text(r: OptimizeReport) -> Seq<char> {
    decimal(r.rows as nat) + " rows | row groups "@ + decimal(r.rg_before as nat) + " -> "@ + decimal(
        r.rg_after as nat,
    ) + " | "@ + r.size_before@ + " -> "@ + r.size_after@ + " | "@ + decimal(r.files as nat) + " file"@
        + (if r.files == 1 {
        Seq::<char>::empty()
    } else {
        "s"@
    }) + (if r.cogp_levels > 0 {
        " | "@ + decimal(r.cogp_levels as nat) + " COGP levels"@
    } else {
        Seq::<char>::empty()
    })
}

/// See [`summary_text`].
pub fn summary(r: &OptimizeReport) -> (t: String)
    ensures
        t@ == summary_text(*r),
{
    let rows = dec(r.rows);
    let before = dec(r.rg_before as u64);
    let after = dec(r.rg_after as u64);
    let files = dec(r.files as u64);
    let mut t = cat6(
        rows.as_str(),
        " rows | row groups ",
        before.as_str(),
        " -> ",
        after.as_str(),
        " | ",
    );
    t.append(r.size_before.as_str());
    t.append(" -> ");
    t.append(r.size_after.as_str());
    t.append(" | ");
    t.append(files.as_str());
    t.append(" file");
    if r.files != 1 {
        t.append("s");
    }
    if r.cogp_levels > 0 {
        let n = dec(r.cogp_levels as u64);
        let more = cat3(" | ", n.as_str(), " COGP levels");
        t.append(more.as_str());
    }
    assert(t@ =~= summary_text(*r));
    t
}

/// Progress rewritten in place: what is on the line.
#[derive(Debug)]
pub struct Progress {
    pub stage: String,
    /// In thousandths.
    pub tenths: u32,
}

/// A text with blanks in front of it, up to five characters.
pub open spec fn to_five(s: Seq<char>) -> Seq<char>
    decreases 5 - s.len(),
{
    if s.len() >= 5 {
        s
    } else {
        to_five(seq![' '] + s)
    }
}

/// Thousandths as percent with one decimal.
pub open spec fn percent(tenths: nat) -> Seq<char> {
    decimal(tenths / 10) + "."@ + decimal(tenths % 10)
}

/// What repaints the line.
pub open spec fn progress_line(stage: Seq<char>, tenths: u32) -> Seq<char> {
    "\r"@ + stage + ": "@ + to_five(percent(tenths as nat)) + "%   "@
}

fn pad_five(s: String) -> (r: String)
    ensures
        r@ == to_five(s@),
    decreases 5 - s@.len(),
{
    if s.as_str().unicode_len() >= 5 {
        s
    } else {
        let t = cat2(" ", s.as_str());
        proof {
            reveal_strlit(" ");
            assert(" "@ =~= seq![' ']);
        }
        pad_five(t)
    }
}

impl Progress {
    pub fn new() -> (r: Progress)
        ensures
            r.stage@ == Seq::<char>::empty(),
            r.tenths == 0,
    {
        Progress { stage: String::new(), tenths: 0 }
    }

    /// Report progress, in thousandths; the line is repainted only where the
    /// stage or the number changed.
    pub fn report(&mut self, tenths: u32, stage: &str) -> (r: Option<String>)
        requires
            tenths <= 1000,
        ensures
            if old(self).stage@ == stage@ && old(self).tenths == tenths {
                r is None && *final(self) == *old(self)
            } else {
                &&& r matches Some(t)
                &&& t@ == progress_line(stage@, tenths)
                &&& final(self).stage@ == stage@
                &&& final(self).tenths == tenths
            },
    {
        if same(self.stage.as_str(), stage) && self.tenths == tenths {
            return None;
        }
        self.stage = stage.to_owned();
        self.tenths = tenths;
        let a = dec((tenths / 10) as u64);
        let b = dec((tenths % 10) as u64);
        let p = pad_five(cat3(a.as_str(), ".", b.as_str()));
        Some(cat5("\r", stage, ": ", p.as_str(), "%   "))
    }

    /// Whether the line has to be closed: something was drawn on it.
    pub fn finish(&self) -> (r: bool)
        ensures
            r == (self.stage@.len() > 0),
    {
        !self.stage.as_str().is_empty()
    }
}

// --- what the flags are for ------------------------------------------------------------------

/// Each flavour and each compression gives the one it names, and no other
/// does.
pub proof fn flavours_are_told_apart(c: Cli, levels: Result<u64, String>, o: OptimizeOptions)
    requires
        options_of(c, levels, o),
    ensures
        c.format is Wkb <==> o.version is V1_1,
        c.format is Geoarrow <==> o.version is V1_1GeoArrow,
        c.format is Native2 <==> o.version is V2_0,
        c.compression is Zstd <==> o.codec is Zstd,
        c.compression is Snappy <==> o.codec is Snappy,
        c.compression is Plain <==> o.codec is Uncompressed,
{
}

/// Flags that say nothing contradictory are accepted, and what is accepted
/// contradicts nothing: no two ways to split, no layer named in a source with
/// one, no empty groups or parts, and levels only in a single sorted file with
/// boxes, where the settings for them are right.
pub proof fn flags_add_up(c: Cli, format: Option<ImportFormat>, levels: Result<u64, String>)
    ensures
        options_error(c, format, levels) is None <==> {
            &&& c.row_group_size > 0
            &&& c.row_group_mib > 0
            &&& !(c.partition_h3 && c.partition_by@.len() > 0)
            &&& c.partition_h3 ==> c.partition_h3_target_rows > 0
            &&& c.layer is Some && format is Some ==> format->0 is Gpkg
            &&& c.cogp ==> {
                &&& levels is Ok
                &&& !c.partition_h3
                &&& c.partition_by@.len() == 0
                &&& !c.no_hilbert
                &&& c.format is Wkb ==> !c.no_covering
            }
        },
{
}

/// The output is split as asked: by cells down to the resolution asked for, by
/// fields, or not at all; and sorted and boxed unless that was declined.
pub proof fn the_output_is_split_as_asked(c: Cli, levels: Result<u64, String>, o: OptimizeOptions)
    requires
        options_of(c, levels, o),
    ensures
        o.partition is AdaptiveH3 <==> c.partition_h3,
        o.partition is Fields <==> !c.partition_h3 && c.partition_by@.len() > 0,
        o.partition matches Partitioning::Fields(f) ==> f@ == c.partition_by@,
        o.partition matches Partitioning::AdaptiveH3 { target_rows, max_res } ==> target_rows
            == c.partition_h3_target_rows && (c.partition_h3_max_res is Some ==> Some(max_res)
            == c.partition_h3_max_res) && (c.partition_h3_max_res is None && c.h3 is Some ==> Some(
            max_res,
        ) == c.h3) && (c.partition_h3_max_res is None && c.h3 is None ==> max_res == 10),
        o.hilbert_sort <==> !c.no_hilbert,
        o.covering <==> !c.no_covering,
        o.h3_resolution == c.h3,
        o.row_group_size == c.row_group_size,
        c.row_group_mib <= 2047 ==> o.row_group_bytes == c.row_group_mib * 1_048_576,
        o.cogp is Some <==> c.cogp && levels is Ok,
        c.cogp && levels is Ok ==> o.cogp == Some(levels->Ok_0),
{
    let m = c.row_group_mib;
    if m <= 2047 {
        assert(m << 20 == m * 1_048_576) by (bit_vector)
            requires
                m <= 2047,
        ;
    }
}

/// A run is refused only for a reason: no output, flags that do not add up, or
/// an input that is neither parquet nor a vector format.
pub proof fn a_run_is_refused_for_a_reason(c: Cli, format: Option<ImportFormat>, levels: Result<u64, String>)
    ensures
        run_error(c, format, levels) is None <==> c.output is Some && options_error(
            c,
            format,
            levels,
        ) is None && (format is Some || (c.extension is Some && same_ignoring_ascii_case(
            c.extension->0@,
            "parquet"@,
        ))),
{
}

/// A layer asked for by name is the first of that name, whatever its case, and
/// found if there is one.
pub proof fn a_named_layer_is_found(names: Seq<Seq<char>>, want: Seq<char>, k: int)
    ensures
        ({
            let at = name_at(names, want, 0);
            &&& 0 <= at <= names.len()
            &&& at < names.len() ==> same_ignoring_ascii_case(names[at], want)
            &&& 0 <= k < at ==> !same_ignoring_ascii_case(names[k], want)
        }),
{
    name_is_first(names, want, 0, k);
}

proof fn name_is_first(names: Seq<Seq<char>>, want: Seq<char>, i: int, k: int)
    requires
        0 <= i <= names.len(),
    ensures
        i <= name_at(names, want, i) <= names.len(),
        name_at(names, want, i) < names.len() ==> same_ignoring_ascii_case(
            names[name_at(names, want, i)],
            want,
        ),
        i <= k < name_at(names, want, i) ==> !same_ignoring_ascii_case(names[k], want),
    decreases names.len() - i,
{
    if i < names.len() && !same_ignoring_ascii_case(names[i], want) {
        name_is_first(names, want, i + 1, k);
    }
}

/// Progress is shown as percent with one decimal: its digits, read as a
/// number, are the thousandths reported, right-aligned in five places.
pub proof fn progress_reads_as_reported(tenths: nat)
    requires
        tenths <= 1000,
    ensures
        percent(tenths).len() <= 5,
        numeral(percent(tenths).drop_last().drop_last()) == tenths / 10,
        percent(tenths)[percent(tenths).len() - 2] == '.',
        numeral(seq![percent(tenths).last()]) == tenths % 10,
        to_five(percent(tenths)).len() == 5,
        percent(tenths).is_suffix_of(to_five(percent(tenths))),
        forall|k: int|
            0 <= k < 5 - percent(tenths).len() ==> #[trigger] to_five(percent(tenths))[k] == ' ',
{
    reveal_strlit(".");
    let a = decimal(tenths / 10);
    let b = decimal(tenths % 10);
    a_number_is_spelled_out(tenths / 10);
    a_number_is_spelled_out(tenths % 10);
    assert(b.len() == 1);
    assert(b =~= seq![b.last()]);
    let p = percent(tenths);
    assert(p.drop_last().drop_last() =~= a);
    assert(p.last() == b[0]);
    assert(a.len() <= 3) by {
        reveal_with_fuel(decimal, 4);
    }
    padded(p);
}

proof fn padded(s: Seq<char>)
    requires
        s.len() <= 5,
    ensures
        to_five(s).len() == 5,
        s.is_suffix_of(to_five(s)),
        forall|k: int| 0 <= k < 5 - s.len() ==> #[trigger] to_five(s)[k] == ' ',
    decreases 5 - s.len(),
{
    if s.len() < 5 {
        let t = seq![' '] + s;
        padded(t);
        let r = to_five(s);
        assert(r.subrange(r.len() - t.len(), r.len() as int) =~= t);
        assert(r.subrange(r.len() - s.len(), r.len() as int) =~= s) by {
            assert forall|i: int| 0 <= i < s.len() implies r[r.len() - s.len() + i] == s[i] by {
                assert(r.subrange(r.len() - t.len(), r.len() as int)[i + 1] == t[i + 1]);
            }
        }
        assert forall|k: int| 0 <= k < 5 - s.len() implies #[trigger] r[k] == ' ' by {
            if k == 4 - s.len() {
                assert(r.subrange(r.len() - t.len(), r.len() as int)[0] == t[0]);
            }
        }
    } else {
        assert(s.subrange(0, s.len() as int) =~= s);
    }
}

/// A split into cells goes down to the resolution asked for, else to that of
/// the cell column, else to 10.
pub proof fn cells_are_as_fine_as_asked(c: Cli)
    ensures
        c.partition_h3_max_res matches Some(r) ==> finest(c) == r,
        c.partition_h3_max_res is None ==> (c.h3 matches Some(r) ==> finest(c) == r),
        c.partition_h3_max_res is None && c.h3 is None ==> finest(c) == 10,
{
}

/// A finished run tells rows, row groups and sizes before and after, and the
/// files there are; levels are told only where there are some.
pub proof fn a_finished_run_is_summed_up(r: OptimizeReport)
    ensures
        (decimal(r.rows as nat) + " rows | row groups "@ + decimal(r.rg_before as nat) + " -> "@
            + decimal(r.rg_after as nat) + " | "@ + r.size_before@ + " -> "@ + r.size_after@ + " | "@
            + decimal(r.files as nat) + " file"@).is_prefix_of(summary_text(r)),
        r.files == 1 && r.cogp_levels == 0 ==> " file"@.is_suffix_of(summary_text(r)),
        r.files != 1 && r.cogp_levels == 0 ==> " files"@.is_suffix_of(summary_text(r)),
        r.cogp_levels > 0 ==> (decimal(r.cogp_levels as nat) + " COGP levels"@).is_suffix_of(
            summary_text(r),
        ),
{
    reveal_strlit(" file");
    reveal_strlit("s");
    reveal_strlit(" files");
    let t = summary_text(r);
    let head = decimal(r.rows as nat) + " rows | row groups "@ + decimal(r.rg_before as nat) + " -> "@
        + decimal(r.rg_after as nat) + " | "@ + r.size_before@ + " -> "@ + r.size_after@ + " | "@
        + decimal(r.files as nat) + " file"@;
    assert(t.subrange(0, head.len() as int) =~= head);
    if r.cogp_levels > 0 {
        let end = decimal(r.cogp_levels as nat) + " COGP levels"@;
        assert(t.subrange(t.len() - end.len(), t.len() as int) =~= end);
    } else if r.files == 1 {
        assert(t.subrange(t.len() - " file"@.len(), t.len() as int) =~= " file"@);
    } else {
        assert(t.subrange(t.len() - " files"@.len(), t.len() as int) =~= " files"@);
    }
}

} // verus!
