//! Exporting a layer as an optimized file: what the dialog offers, where the
//! output goes, and what has to hold before a rewrite starts.
use vstd::prelude::*;
use crate::counts::{count_text, fmt_count};
use crate::info::{fact, facts, state, Fact, InfoRow};
use crate::layers::GeomKind;
use crate::session::{Session, ViewerApp};
use crate::tally::{lists, lists_alike, lists_one_more, same_tally, tally};
use crate::text::{
    a_suffix_is_taken_off, a_tail_is_a_tail, a_tail_is_taken_off, occurs_at,
    cat2, cat3, cat4, cat5, contains, copy_texts, dec, decimal, ends_with, join, joined, list_has,
    occurs, push_text, remove_text, same, strip_prefix, texts, texts_without, trim, trim_suffixes,
    trim_trailing, trimmed, without_suffixes, without_trailing,
};

verus! {

/// What kind of values a column holds.
#[derive(Clone, Copy, PartialEq, Eq, Structural, Debug)]
pub enum FieldKind {
    Utf8,
    LargeUtf8,
    Utf8View,
    Boolean,
    Int8,
    Int16,
    Int32,
    Int64,
    UInt8,
    UInt16,
    UInt32,
    UInt64,
    Date32,
    Date64,
    /// Anything else: fractions, times of day, nested and binary values.
    Other,
}

impl FieldKind {
    /// Text, in any of its layouts.
    pub open spec fn text(self) -> bool {
        self is Utf8 || self is LargeUtf8 || self is Utf8View
    }

    pub fn is_text(self) -> (r: bool)
        ensures
            r == self.text(),
    {
        match self {
            FieldKind::Utf8 | FieldKind::LargeUtf8 | FieldKind::Utf8View => true,
            _ => false,
        }
    }

    /// Text, yes/no, whole numbers or dates: what names a folder.
    pub fn names_folder(self) -> (r: bool)
        ensures
            r == !(self is Other),
    {
        match self {
            FieldKind::Other => false,
            _ => true,
        }
    }
}

/// A column of a layer.
#[derive(Debug)]
pub struct Field {
    pub name: String,
    pub kind: FieldKind,
    /// Number of its exact type.
    pub type_code: u32,
}

/// The file formats an export can take.
#[derive(Clone, Copy, PartialEq, Eq, Structural, Debug)]
pub enum GpVersion {
    V1_1,
    V1_1GeoArrow,
    V2_0,
}

/// How an export is split into files.
#[derive(Clone, Copy, PartialEq, Eq, Structural, Debug)]
pub enum PartMode {
    Single,
    Fields,
    AdaptiveH3,
}

/// Finest H3 resolution an adaptive split goes to.
pub const ADAPTIVE_MAX_RES: u8 = 10;

/// Distinct values from which partitioning by a field is warned about.
pub const MANY_VALUES: usize = 500;

/// Where an output was published.
#[derive(Debug)]
pub struct S3Dest {
    pub uri: String,
    pub profile: Option<String>,
    pub endpoint: Option<String>,
}

/// Distinct values of a column.
#[derive(Debug)]
pub struct FieldCount {
    pub name: String,
    pub distinct: usize,
}

/// The export dialog of one layer.
#[derive(Debug)]
pub struct OptimizeState {
    pub layer_id: u64,
    pub layer_name: String,
    /// The name of the source.
    pub src_name: String,
    /// The path of a source that is a local file.
    pub src_path: Option<String>,
    pub viewport_only: bool,
    pub version: GpVersion,
    /// The version its geometry types suggest.
    pub recommended: GpVersion,
    pub covering: bool,
    pub geoarrow_aux: bool,
    pub h3_resolution: Option<u8>,
    pub running: bool,
    /// From 0 to 1, as the bits of a single-precision number.
    pub progress: u32,
    pub progress_text: String,
    /// Number of the finished report, kept by the caller.
    pub report: Option<u64>,
    pub error: Option<String>,
    pub admin_layer: Option<u64>,
    pub admin_column: String,
    pub admin_out: String,
    pub part_mode: PartMode,
    pub part_fields: Vec<String>,
    pub adaptive_target: usize,
    /// Open the output as a layer when it is done.
    pub open_result: bool,
    pub cardinalities: Option<Vec<FieldCount>>,
    pub card_pending: bool,
    pub dest_s3: bool,
    pub s3_uri: String,
    pub s3_endpoint: String,
    pub s3_profile: Option<String>,
    pub report_s3: Option<S3Dest>,
    /// Layers merged into the export, each once.
    pub merge_with: Vec<u64>,
    pub merge_source_col: bool,
    pub upload_as_is: bool,
    pub stac: bool,
    pub replace_remote: bool,
    /// A finished upload without rewrite: where, and how many bytes.
    pub report_as_is: Option<(S3Dest, u64)>,
}

/// What is exported.
#[derive(Debug)]
pub struct ExportSource {
    pub layer_id: u64,
    pub layer_name: String,
    pub src_name: String,
    pub src_path: Option<String>,
    pub recommended: GpVersion,
}

impl OptimizeState {
    /// The dialog as it opens; `covering` is the default of the format
    /// options, `open_result` opens the output when it is done.
    pub fn open(of: ExportSource, covering: bool, open_result: bool) -> (r: OptimizeState)
        ensures
            r.layer_id == of.layer_id,
            r.layer_name == of.layer_name,
            r.src_name == of.src_name,
            r.src_path == of.src_path,
            r.version == of.recommended,
            r.recommended == of.recommended,
            r.covering == covering,
            r.open_result == open_result,
            !r.viewport_only && !r.geoarrow_aux && !r.running && !r.card_pending && !r.dest_s3
                && !r.upload_as_is && !r.replace_remote,
            r.stac && r.merge_source_col,
            r.h3_resolution is None && r.report is None && r.error is None && r.admin_layer is None
                && r.cardinalities is None && r.s3_profile is None && r.report_s3 is None
                && r.report_as_is is None,
            r.admin_column@ == Seq::<char>::empty(),
            r.admin_out@ == "admin"@,
            r.part_mode == PartMode::Single,
            r.part_fields@.len() == 0,
            r.merge_with@.len() == 0,
            r.adaptive_target == 1_000_000,
            r.s3_uri@ == Seq::<char>::empty(),
            r.s3_endpoint@ == Seq::<char>::empty(),
            r.progress == 0,
            r.progress_text@ == Seq::<char>::empty(),
    {
        OptimizeState {
            layer_id: of.layer_id,
            layer_name: of.layer_name,
            src_name: of.src_name,
            src_path: of.src_path,
            viewport_only: false,
            version: of.recommended,
            recommended: of.recommended,
            covering,
            geoarrow_aux: false,
            h3_resolution: None,
            running: false,
            progress: 0,
            progress_text: String::new(),
            report: None,
            error: None,
            admin_layer: None,
            admin_column: String::new(),
            admin_out: "admin".to_owned(),
            part_mode: PartMode::Single,
            part_fields: Vec::new(),
            adaptive_target: 1_000_000,
            open_result,
            cardinalities: None,
            card_pending: false,
            dest_s3: false,
            s3_uri: String::new(),
            s3_endpoint: String::new(),
            s3_profile: None,
            report_s3: None,
            merge_with: Vec::new(),
            merge_source_col: true,
            upload_as_is: false,
            stac: true,
            replace_remote: false,
            report_as_is: None,
        }
    }

    /// Choose a format: each comes with its recommended extras.
    pub fn select_version(&mut self, v: GpVersion)
        ensures
            *final(self) == (OptimizeState {
                version: v,
                covering: v != GpVersion::V2_0,
                geoarrow_aux: false,
                ..*old(self)
            }),
    {
        self.version = v;
        self.covering = v != GpVersion::V2_0;
        self.geoarrow_aux = false;
    }

    /// Whether a second, GeoArrow geometry column can be offered: a version
    /// 2.0 file of one geometry family.
    pub fn geoarrow_fits(&self) -> (r: bool)
        ensures
            r == (self.recommended == GpVersion::V1_1GeoArrow),
    {
        self.recommended == GpVersion::V1_1GeoArrow
    }

    /// Switch the H3 column on (at resolution 8) or off.
    pub fn toggle_h3(&mut self, on: bool)
        ensures
            *final(self) == (OptimizeState {
                h3_resolution: if on {
                    Some(8u8)
                } else {
                    None
                },
                ..*old(self)
            }),
    {
        self.h3_resolution = if on {
            Some(8)
        } else {
            None
        };
    }

    /// Choose the boundary layer; its value column has to be picked anew.
    pub fn select_admin(&mut self, layer: Option<u64>)
        ensures
            final(self).admin_layer == layer,
            final(self).admin_column@ == if layer is Some {
                Seq::empty()
            } else {
                old(self).admin_column@
            },
            *final(self) == (OptimizeState {
                admin_layer: layer,
                admin_column: final(self).admin_column,
                ..*old(self)
            }),
    {
        self.admin_layer = layer;
        if layer.is_some() {
            self.admin_column = String::new();
        }
    }

    /// Tick or untick a layer to merge.
    pub fn toggle_merge(&mut self, id: u64, on: bool)
        requires
            old(self).merge_with@.no_duplicates(),
        ensures
            final(self).merge_with@.no_duplicates(),
            forall|x: u64| #[trigger]
                final(self).merge_with@.contains(x) <==> if x == id {
                    on
                } else {
                    old(self).merge_with@.contains(x)
                },
            *final(self) == (OptimizeState { merge_with: final(self).merge_with, ..*old(self) }),
    {
        let ghost before = self.merge_with@;
        let mut kept: Vec<u64> = Vec::new();
        let mut i: usize = 0;
        while i < self.merge_with.len()
            invariant
                i <= self.merge_with@.len(),
                self.merge_with@ == before,
                before.no_duplicates(),
                kept@.no_duplicates(),
                *self == (OptimizeState { merge_with: self.merge_with, ..*old(self) }),
                forall|k: int| 0 <= k < kept@.len() ==> before.contains(#[trigger] kept@[k]) && kept@[k] != id,
                forall|k: int| 0 <= k < i && before[k] != id ==> kept@.contains(#[trigger] before[k]),
                forall|k: int, j: int| 0 <= k < kept@.len() && i <= j < before.len() ==> #[trigger] kept@[k] != #[trigger] before[j],
            decreases self.merge_with@.len() - i,
        {
            if self.merge_with[i] != id {
                let ghost was = kept@;
                kept.push(self.merge_with[i]);
                assert(kept@[kept@.len() - 1] == before[i as int]);
                assert forall|k: int| 0 <= k < i + 1 && before[k] != id implies kept@.contains(
                    #[trigger] before[k],
                ) by {
                    if k < i {
                        let m = choose|m: int| 0 <= m < was.len() && was[m] == before[k];
                        assert(kept@[m] == before[k]);
                    }
                }
            }
            i += 1;
        }
        let ghost was = kept@;
        if on {
            kept.push(id);
            assert(kept@[was.len() as int] == id);
        }
        assert forall|x: u64| #[trigger] kept@.contains(x) <==> if x == id {
            on
        } else {
            before.contains(x)
        } by {
            if kept@.contains(x) {
                let k = choose|k: int| 0 <= k < kept@.len() && kept@[k] == x;
                if k < was.len() {
                    assert(was[k] == x);
                }
            }
            if x != id && before.contains(x) {
                let k = choose|k: int| 0 <= k < before.len() && before[k] == x;
                assert(was.contains(before[k]));
                let m = choose|m: int| 0 <= m < was.len() && was[m] == x;
                assert(kept@[m] == x);
            }
        }
        self.merge_with = kept;
    }
}

// --- where the output goes ------------------------------------------------------

/// The stem of the source's name.
pub open spec fn stem_of(src_name: Seq<char>) -> Seq<char> {
    without_suffixes(src_name, ".parquet"@)
}

/// What follows the scheme of a trimmed destination, nothing where it has
/// another one.
pub open spec fn bucket_path(uri: Seq<char>) -> Seq<char> {
    if "s3://"@.is_prefix_of(uri) {
        uri.subrange("s3://"@.len() as int, uri.len() as int)
    } else {
        Seq::empty()
    }
}

/// A destination that names no file yet: a bucket alone, or a prefix that
/// ends in a slash.
pub open spec fn lacks_name(entered: Seq<char>) -> bool {
    let uri = without_trailing(entered, '/');
    "/"@.is_suffix_of(entered) || !occurs("/"@, bucket_path(uri))
}

/// The destination an upload goes to, from the text entered (trimmed);
/// nothing where that names no bucket. A destination that lacks a name gets
/// one from the source.
pub open spec fn publish_uri(entered: Seq<char>, stem: Seq<char>, partitioned: bool, as_is: bool) -> Option<
    Seq<char>,
> {
    let uri = without_trailing(entered, '/');
    if bucket_path(uri).len() == 0 {
        None
    } else if partitioned {
        Some(
            if lacks_name(entered) {
                uri + "/"@ + stem + "_partitioned/"@
            } else {
                uri + "/"@
            },
        )
    } else if lacks_name(entered) && as_is {
        Some(uri + "/"@ + stem + ".parquet"@)
    } else if lacks_name(entered) {
        Some(uri + "/"@ + stem + "_optimized.parquet"@)
    } else if ".parquet"@.is_suffix_of(uri) {
        Some(uri)
    } else {
        Some(uri + ".parquet"@)
    }
}

/// See [`publish_uri`].
pub fn publish_target(entered: &str, stem: &str, partitioned: bool, as_is: bool) -> (r: Option<String>)
    ensures
        match r {
            Some(u) => publish_uri(entered@, stem@, partitioned, as_is) == Some(u@),
            None => publish_uri(entered@, stem@, partitioned, as_is) is None,
        },
{
    let uri = trim_trailing(entered, '/');
    let rest = match strip_prefix(uri.as_str(), "s3://") {
        Some(r) => r,
        None => String::new(),
    };
    assert(rest@ =~= bucket_path(uri@));
    if rest.as_str().is_empty() {
        return None;
    }
    let needs_name = ends_with(entered, "/") || !contains(rest.as_str(), "/");
    if partitioned {
        Some(
            if needs_name {
                cat4(uri.as_str(), "/", stem, "_partitioned/")
            } else {
                cat2(uri.as_str(), "/")
            },
        )
    } else if needs_name && as_is {
        Some(cat4(uri.as_str(), "/", stem, ".parquet"))
    } else if needs_name {
        Some(cat4(uri.as_str(), "/", stem, "_optimized.parquet"))
    } else if ends_with(uri.as_str(), ".parquet") {
        Some(uri)
    } else {
        Some(cat2(uri.as_str(), ".parquet"))
    }
}

/// A single file is always published under a `.parquet` name, a partitioned
/// dataset under a prefix, and both in the bucket that was named.
pub proof fn published_names_fit(entered: Seq<char>, stem: Seq<char>, partitioned: bool, as_is: bool)
    requires
        publish_uri(entered, stem, partitioned, as_is) is Some,
    ensures
        ({
            let u = publish_uri(entered, stem, partitioned, as_is)->0;
            &&& "s3://"@.is_prefix_of(u)
            &&& without_trailing(entered, '/').is_prefix_of(u)
            &&& if partitioned {
                "/"@.is_suffix_of(u)
            } else {
                ".parquet"@.is_suffix_of(u)
            }
        }),
{
    reveal_strlit("/");
    reveal_strlit("_partitioned/");
    reveal_strlit(".parquet");
    reveal_strlit("_optimized.parquet");
    let uri = without_trailing(entered, '/');
    let u = publish_uri(entered, stem, partitioned, as_is)->0;
    assert(u.subrange(0, uri.len() as int) =~= uri);
    assert("s3://"@.is_prefix_of(u)) by {
        let n = "s3://"@.len() as int;
        assert(u.subrange(0, n) =~= uri.subrange(0, n));
    }
    if partitioned {
        assert(u.subrange(u.len() - 1, u.len() as int) =~= "/"@);
    } else if u != uri {
        assert(u.subrange(u.len() - 8, u.len() as int) =~= ".parquet"@);
    }
}

/// What starting an upload does.
#[derive(Debug)]
pub enum PublishStart {
    /// Upload this file unchanged.
    AsIs(String),
    /// Rewrite into a temporary file of this name, then upload it.
    Stage(String),
    /// The destination is no bucket.
    Refused,
}

impl OptimizeState {
    pub fn stem(&self) -> (r: String)
        ensures
            r@ == stem_of(self.src_name@),
    {
        proof {
            reveal_strlit(".parquet");
        }
        trim_suffixes(self.src_name.as_str(), ".parquet")
    }

    /// Settle the destination and say how the upload starts; `process` tells
    /// temporary files of several programs apart.
    pub fn start_publish(&mut self, process: u32) -> (r: PublishStart)
        ensures
            ({
                let stem = stem_of(old(self).src_name@);
                let partitioned = old(self).part_mode != PartMode::Single;
                match publish_uri(
                    trimmed(old(self).s3_uri@),
                    stem,
                    partitioned,
                    old(self).upload_as_is,
                ) {
                    None => {
                        &&& r is Refused
                        &&& final(self).error matches Some(e)
                        &&& e@ == "destination must start with s3://bucket"@
                        &&& *final(self) == (OptimizeState {
                            error: final(self).error,
                            ..*old(self)
                        })
                    },
                    Some(u) => {
                        &&& final(self).s3_uri@ == u
                        &&& *final(self) == (OptimizeState {
                            s3_uri: final(self).s3_uri,
                            ..*old(self)
                        })
                        &&& match r {
                            PublishStart::AsIs(p) => {
                                &&& !partitioned
                                &&& old(self).upload_as_is
                                &&& old(self).src_path == Some(p)
                            },
                            PublishStart::Stage(name) => {
                                &&& partitioned || !old(self).upload_as_is || old(
                                    self,
                                ).src_path is None
                                &&& name@ == "geopq_publish_"@ + stem + "_"@ + decimal(
                                    process as nat,
                                ) + (if partitioned {
                                    "_parts"@
                                } else {
                                    ".parquet"@
                                })
                            },
                            PublishStart::Refused => false,
                        }
                    },
                }
            }),
    {
        let stem = self.stem();
        let entered = trim(self.s3_uri.as_str());
        let partitioned = self.part_mode != PartMode::Single;
        match publish_target(entered.as_str(), stem.as_str(), partitioned, self.upload_as_is) {
            None => {
                self.error = Some("destination must start with s3://bucket".to_owned());
                PublishStart::Refused
            },
            Some(u) => {
                self.s3_uri = u;
                if !partitioned && self.upload_as_is {
                    if let Some(p) = &self.src_path {
                        return PublishStart::AsIs(p.clone());
                    }
                }
                let number = dec(process as u64);
                let suffix = if partitioned {
                    "_parts"
                } else {
                    ".parquet"
                };
                PublishStart::Stage(
                    cat5("geopq_publish_", stem.as_str(), "_", number.as_str(), suffix),
                )
            },
        }
    }

    /// Where an upload goes, from the fields as they are.
    pub fn destination(&self) -> (r: S3Dest)
        ensures
            r.uri@ == trimmed(self.s3_uri@),
            r.profile == self.s3_profile,
            match r.endpoint {
                Some(e) => e@ == trimmed(self.s3_endpoint@) && e@.len() > 0,
                None => trimmed(self.s3_endpoint@).len() == 0,
            },
    {
        let e = trim(self.s3_endpoint.as_str());
        let endpoint = if e.as_str().is_empty() {
            None
        } else {
            Some(e)
        };
        let profile = match &self.s3_profile {
            Some(p) => Some(p.clone()),
            None => None,
        };
        S3Dest { uri: trim(self.s3_uri.as_str()), profile, endpoint }
    }

    /// The file an upload without rewrite sends is being sent.
    pub fn begin_as_is(&mut self) -> (r: S3Dest)
        ensures
            final(self).running,
            final(self).error is None,
            final(self).report is None,
            final(self).report_as_is is None,
            final(self).progress == 0,
            final(self).progress_text@ == "starting upload"@,
            *final(self) == (OptimizeState {
                running: true,
                error: None,
                report: None,
                report_as_is: None,
                progress: 0,
                progress_text: final(self).progress_text,
                ..*old(self)
            }),
            r.uri@ == trimmed(old(self).s3_uri@),
            r.profile == old(self).s3_profile,
            r.endpoint is Some <==> trimmed(old(self).s3_endpoint@).len() > 0,
            r.endpoint is Some ==> r.endpoint->0@ == trimmed(old(self).s3_endpoint@),
    {
        self.running = true;
        self.error = None;
        self.report = None;
        self.report_as_is = None;
        self.progress = 0;
        self.progress_text = "starting upload".to_owned();
        self.destination()
    }
}

/// The collection document beside a published dataset.
pub fn collection_sibling(uri: &str) -> (r: String)
    ensures
        r@ == without_trailing(uri@, '/') + "/collection.json"@,
{
    let base = trim_trailing(uri, '/');
    cat2(base.as_str(), "/collection.json")
}

/// Whether publishing a dataset tree is refused: somebody's dataset is at the
/// destination and replacing it was not asked for. The text says what to do.
pub fn refuse_replacing(sibling: &str, exists: bool, replace: bool) -> (r: Option<String>)
    ensures
        r is Some <==> exists && !replace,
        r is Some ==> r->0@ == sibling@
            + " already exists — the destination publishes a dataset. Tick \"Replace the dataset at the destination\" to overwrite it, or publish to another prefix."@,
{
    if exists && !replace {
        Some(
            cat2(
                sibling,
                " already exists — the destination publishes a dataset. Tick \"Replace the dataset at the destination\" to overwrite it, or publish to another prefix.",
            ),
        )
    } else {
        None
    }
}

// --- why a rewrite is needed ----------------------------------------------------

/// The options set that need the file to be rewritten.
pub open spec fn rewrite_reasons(o: OptimizeState) -> Seq<Seq<char>> {
    (if o.merge_with@.len() > 0 {
        seq!["merge"@]
    } else {
        Seq::empty()
    }) + (if o.viewport_only {
        seq!["viewport only"@]
    } else {
        Seq::empty()
    }) + (if o.h3_resolution is Some {
        seq!["H3 column"@]
    } else {
        Seq::empty()
    }) + (if o.admin_layer is Some {
        seq!["admin column"@]
    } else {
        Seq::empty()
    }) + (if o.part_mode != PartMode::Single {
        seq!["partitioning"@]
    } else {
        Seq::empty()
    })
}

impl OptimizeState {
    /// See [`rewrite_reasons`].
    pub fn reasons(&self) -> (r: Vec<String>)
        ensures
            texts(r@) == rewrite_reasons(*self),
    {
        let mut out: Vec<String> = Vec::new();
        if self.merge_with.len() > 0 {
            push_text(&mut out, "merge".to_owned());
        }
        if self.viewport_only {
            push_text(&mut out, "viewport only".to_owned());
        }
        if self.h3_resolution.is_some() {
            push_text(&mut out, "H3 column".to_owned());
        }
        if self.admin_layer.is_some() {
            push_text(&mut out, "admin column".to_owned());
        }
        if self.part_mode != PartMode::Single {
            push_text(&mut out, "partitioning".to_owned());
        }
        assert(texts(out@) =~= rewrite_reasons(*self));
        out
    }

    /// Whether uploading unchanged is offered; it is switched off where an
    /// option needs a rewrite. The text explains either way: `indexable` is
    /// the verdict on the file, where there is one, `shown` its path.
    pub fn as_is_offer(&mut self, indexable: Option<bool>, shown: &str) -> (r: (bool, String))
        ensures
            r.0 == (rewrite_reasons(*old(self)).len() == 0),
            r.1@ == if !r.0 {
                "needs a rewrite: "@ + joined(rewrite_reasons(*old(self)), ", "@)
            } else {
                match indexable {
                    Some(true) => "This file already passes the gating checks — uploading it unchanged is fine."@,
                    Some(false) => "The scorecard says this file would benefit from a rewrite — consider exporting instead."@,
                    None => "Upload "@ + shown@ + " byte-for-byte, skipping the rewrite"@,
                }
            },
            *final(self) == (OptimizeState {
                upload_as_is: old(self).upload_as_is && r.0,
                ..*old(self)
            }),
    {
        let reasons = self.reasons();
        assert(texts(reasons@).len() == reasons@.len());
        let enabled = reasons.len() == 0;
        if !enabled {
            self.upload_as_is = false;
            let list = join(&reasons, ", ");
            return (false, cat2("needs a rewrite: ", list.as_str()));
        }
        let hint = match indexable {
            Some(true) => "This file already passes the gating checks — uploading it unchanged is fine.".to_owned(),
            Some(false) => "The scorecard says this file would benefit from a rewrite — consider exporting instead.".to_owned(),
            None => cat3("Upload ", shown, " byte-for-byte, skipping the rewrite"),
        };
        (true, hint)
    }
}

// --- starting -------------------------------------------------------------------

/// How the output is split.
#[derive(Debug)]
pub enum Partitioning {
    Single,
    Fields(Vec<String>),
    AdaptiveH3 { target_rows: usize, max_res: u8 },
}

/// The column a boundary layer adds.
#[derive(Debug)]
pub struct AdminJoin {
    pub layer_id: u64,
    pub column: String,
    pub out_name: String,
}

/// A checked export, ready for a worker.
#[derive(Debug)]
pub struct ExportPlan {
    pub version: GpVersion,
    pub covering: bool,
    pub geoarrow_aux: bool,
    pub h3_resolution: Option<u8>,
    /// Only the rows under the viewport.
    pub viewport_only: bool,
    pub partitioning: Partitioning,
    pub admin: Option<AdminJoin>,
    pub dest: Option<S3Dest>,
    pub stac: bool,
    pub replace_remote: bool,
    /// Layers to merge first, the exported one at the head; empty for none.
    pub merge: Vec<u64>,
    pub merge_source_col: bool,
}

/// Why an export cannot start, if it cannot; `mapped` says that the viewport
/// has a place in the layer's coordinate system.
pub open spec fn start_error(o: OptimizeState, mapped: bool) -> Option<Seq<char>> {
    if o.viewport_only && !mapped {
        Some("cannot map the viewport into the layer's CRS"@)
    } else if o.part_mode == PartMode::Fields && o.part_fields@.len() == 0 {
        Some("select at least one partition field"@)
    } else if o.admin_layer is Some && o.admin_column@.len() == 0 {
        Some("pick the boundary layer's value column"@)
    } else {
        None
    }
}

/// The name a column gets, "admin" where none is given.
pub open spec fn admin_name(out: Seq<char>) -> Seq<char> {
    if trimmed(out).len() == 0 {
        "admin"@
    } else {
        trimmed(out)
    }
}

/// See [`admin_name`].
fn admin_out_name(out: &str) -> (r: String)
    ensures
        r@ == admin_name(out@),
{
    let n = trim(out);
    if n.as_str().is_empty() {
        "admin".to_owned()
    } else {
        n
    }
}

/// The ids that are layers of the session, in order.
pub open spec fn present(s: Session, ids: Seq<u64>) -> Seq<u64>
    decreases ids.len(),
{
    if ids.len() == 0 {
        Seq::empty()
    } else if s.has_layer(ids.last()) {
        present(s, ids.drop_last()).push(ids.last())
    } else {
        present(s, ids.drop_last())
    }
}

/// The plan of an export that can start.
pub open spec fn plan_of(s: Session, o: OptimizeState, p: ExportPlan) -> bool {
    &&& match p.partitioning {
        Partitioning::Single => o.part_mode == PartMode::Single,
        Partitioning::Fields(f) => o.part_mode == PartMode::Fields && f@ == o.part_fields@,
        Partitioning::AdaptiveH3 { target_rows, max_res } => o.part_mode == PartMode::AdaptiveH3
            && target_rows == o.adaptive_target && max_res == ADAPTIVE_MAX_RES,
    }
    &&& match p.admin {
        Some(a) => {
            &&& o.admin_layer == Some(a.layer_id)
            &&& s.has_layer(a.layer_id)
            &&& a.column == o.admin_column
            &&& a.out_name@ == admin_name(o.admin_out@)
        },
        None => o.admin_layer matches Some(id) ==> !s.has_layer(id),
    }
    &&& match p.dest {
        Some(d) => {
            &&& o.dest_s3
            &&& d.uri@ == trimmed(o.s3_uri@)
            &&& d.profile == o.s3_profile
            &&& d.endpoint is Some <==> trimmed(o.s3_endpoint@).len() > 0
            &&& d.endpoint is Some ==> d.endpoint->0@ == trimmed(o.s3_endpoint@)
        },
        None => !o.dest_s3,
    }
    &&& p.version == o.version
    &&& p.covering == o.covering
    &&& p.geoarrow_aux == o.geoarrow_aux
    &&& p.h3_resolution == o.h3_resolution
    &&& p.viewport_only == o.viewport_only
    &&& p.stac == (o.dest_s3 && o.stac)
    &&& p.replace_remote == o.replace_remote
    &&& p.merge@ == if o.merge_with@.len() == 0 {
        Seq::empty()
    } else {
        present(s, seq![o.layer_id] + o.merge_with@)
    }
    &&& p.merge_source_col == o.merge_source_col
}

fn present_ids(app: &ViewerApp, first: u64, rest: &Vec<u64>) -> (r: Vec<u64>)
    ensures
        r@ == present(app@, seq![first] + rest@),
{
    let mut out: Vec<u64> = Vec::new();
    let ghost all = seq![first] + rest@;
    if app.position(first).is_some() {
        out.push(first);
    }
    let mut i: usize = 0;
    proof {
        reveal_with_fuel(present, 2);
        assert(all.subrange(0, 1) =~= seq![first]);
        assert(seq![first].drop_last() =~= Seq::<u64>::empty());
    }
    while i < rest.len()
        invariant
            i <= rest@.len(),
            all == seq![first] + rest@,
            out@ =~= present(app@, all.subrange(0, i + 1)),
        decreases rest@.len() - i,
    {
        assert(all.subrange(0, i + 2).drop_last() =~= all.subrange(0, i + 1));
        assert(all.subrange(0, i + 2).last() == rest@[i as int]);
        if app.position(rest[i]).is_some() {
            out.push(rest[i]);
        }
        i += 1;
    }
    assert(all.subrange(0, i + 1) =~= all);
    out
}

impl OptimizeState {
    /// The plan of an export whose options were checked.
    #[verifier::spinoff_prover]
    fn plan(&self, app: &ViewerApp) -> (r: ExportPlan)
        ensures
            plan_of(app@, *self, r),
    {
        let partitioning = match self.part_mode {
            PartMode::Single => Partitioning::Single,
            PartMode::Fields => Partitioning::Fields(copy_texts(&self.part_fields)),
            PartMode::AdaptiveH3 => Partitioning::AdaptiveH3 {
                target_rows: self.adaptive_target,
                max_res: ADAPTIVE_MAX_RES,
            },
        };
        let admin = match self.admin_layer {
            Some(id) => if app.position(id).is_some() {
                Some(
                    AdminJoin {
                        layer_id: id,
                        column: self.admin_column.clone(),
                        out_name: admin_out_name(self.admin_out.as_str()),
                    },
                )
            } else {
                None
            },
            None => None,
        };
        let dest = if self.dest_s3 {
            Some(self.destination())
        } else {
            None
        };
        let merge = if self.merge_with.len() == 0 {
            Vec::new()
        } else {
            present_ids(app, self.layer_id, &self.merge_with)
        };
        ExportPlan {
            version: self.version,
            covering: self.covering,
            geoarrow_aux: self.geoarrow_aux,
            h3_resolution: self.h3_resolution,
            viewport_only: self.viewport_only,
            partitioning,
            admin,
            dest,
            stac: self.dest_s3 && self.stac,
            replace_remote: self.replace_remote,
            merge,
            merge_source_col: self.merge_source_col,
        }
    }

    /// Check the options and start; nothing where an error is shown instead.
    pub fn start_optimize(&mut self, app: &ViewerApp, mapped: bool) -> (r: Option<ExportPlan>)
        ensures
            match start_error(*old(self), mapped) {
                Some(e) => {
                    &&& r is None
                    &&& !final(self).running
                    &&& final(self).error matches Some(x)
                    &&& x@ == e
                },
                None => {
                    &&& r matches Some(p)
                    &&& plan_of(app@, *old(self), p)
                    &&& final(self).running
                    &&& final(self).error is None
                },
            },
            final(self).progress_text@ == "starting"@,
            *final(self) == (OptimizeState {
                running: final(self).running,
                error: final(self).error,
                report: None,
                progress: 0,
                progress_text: final(self).progress_text,
                ..*old(self)
            }),
    {
        self.running = true;
        self.error = None;
        self.report = None;
        self.progress = 0;
        self.progress_text = "starting".to_owned();
        if self.viewport_only && !mapped {
            self.running = false;
            self.error = Some("cannot map the viewport into the layer's CRS".to_owned());
            return None;
        }
        if self.part_mode == PartMode::Fields && self.part_fields.len() == 0 {
            self.running = false;
            self.error = Some("select at least one partition field".to_owned());
            return None;
        }
        if self.admin_layer.is_some() && self.admin_column.as_str().is_empty() {
            self.running = false;
            self.error = Some("pick the boundary layer's value column".to_owned());
            return None;
        }
        Some(self.plan(app))
    }
}

// --- what the worker reports ------------------------------------------------------

/// A message from the exporting worker.
#[derive(Debug)]
pub enum OptMsg {
    Progress(u32, String),
    /// Done: the report, the file, and where it was published, if it was.
    Done { report: u64, path: String, dest: Option<S3Dest> },
    PublishedAsIs(S3Dest, u64),
    Failed(String),
    /// Distinct values per column of a layer.
    Cardinalities(u64, Vec<FieldCount>),
}

/// What to open once an export is done.
#[derive(Debug)]
pub enum OpenAfter {
    Nothing,
    Local(String),
    Remote(S3Dest),
}

/// The dialog after a message of the worker.
pub open spec fn after_message(o: OptimizeState, m: OptMsg) -> OptimizeState {
    match m {
        OptMsg::Progress(f, s) => OptimizeState { progress: f, progress_text: s, ..o },
        OptMsg::Done { report, path, dest } => OptimizeState {
            running: false,
            report: Some(report),
            report_s3: dest,
            ..o
        },
        OptMsg::PublishedAsIs(d, n) => OptimizeState {
            running: false,
            report_as_is: Some((d, n)),
            ..o
        },
        OptMsg::Failed(e) => OptimizeState { running: false, error: Some(e), ..o },
        OptMsg::Cardinalities(id, c) => if id == o.layer_id {
            OptimizeState { cardinalities: Some(c), card_pending: false, ..o }
        } else {
            o
        },
    }
}

/// What a message makes the session open: the finished output, where that
/// was asked for.
pub open spec fn opened_by(o: OptimizeState, m: OptMsg) -> OpenAfter {
    match m {
        OptMsg::Done { report, path, dest } => if !o.open_result {
            OpenAfter::Nothing
        } else {
            match dest {
                Some(d) => OpenAfter::Remote(d),
                None => OpenAfter::Local(path),
            }
        },
        _ => OpenAfter::Nothing,
    }
}

fn copy_dest(d: &S3Dest) -> (r: S3Dest)
    ensures
        r == *d,
{
    let profile = match &d.profile {
        Some(p) => Some(p.clone()),
        None => None,
    };
    let endpoint = match &d.endpoint {
        Some(e) => Some(e.clone()),
        None => None,
    };
    S3Dest { uri: d.uri.clone(), profile, endpoint }
}

impl OptimizeState {
    fn on_done(&mut self, report: u64, path: String, dest: Option<S3Dest>) -> (r: OpenAfter)
        ensures
            *final(self) == (OptimizeState {
                running: false,
                report: Some(report),
                report_s3: dest,
                ..*old(self)
            }),
            r == if !old(self).open_result {
                OpenAfter::Nothing
            } else {
                match dest {
                    Some(d) => OpenAfter::Remote(d),
                    None => OpenAfter::Local(path),
                }
            },
    {
        let after = if self.open_result {
            match &dest {
                Some(d) => OpenAfter::Remote(copy_dest(d)),
                None => OpenAfter::Local(path),
            }
        } else {
            OpenAfter::Nothing
        };
        self.running = false;
        self.report_s3 = dest;
        self.report = Some(report);
        after
    }

    fn on_published(&mut self, d: S3Dest, n: u64)
        ensures
            *final(self) == (OptimizeState {
                running: false,
                report_as_is: Some((d, n)),
                ..*old(self)
            }),
    {
        self.running = false;
        self.report_as_is = Some((d, n));
    }

    fn on_failed(&mut self, e: String)
        ensures
            *final(self) == (OptimizeState { running: false, error: Some(e), ..*old(self) }),
    {
        self.running = false;
        self.error = Some(e);
    }

    fn on_counts(&mut self, c: Vec<FieldCount>)
        ensures
            *final(self) == (OptimizeState {
                cardinalities: Some(c),
                card_pending: false,
                ..*old(self)
            }),
    {
        self.cardinalities = Some(c);
        self.card_pending = false;
    }

    fn on_progress(&mut self, f: u32, s: String)
        ensures
            *final(self) == (OptimizeState { progress: f, progress_text: s, ..*old(self) }),
    {
        self.progress = f;
        self.progress_text = s;
    }

    /// Take in a message of the exporting worker; says what to open.
    #[verifier::spinoff_prover]
    #[verifier::rlimit(40)]
    pub fn on_message(&mut self, m: OptMsg) -> (r: OpenAfter)
        ensures
            *final(self) == after_message(*old(self), m),
            r == opened_by(*old(self), m),
    {
        match m {
            OptMsg::Progress(f, s) => {
                self.on_progress(f, s);
                OpenAfter::Nothing
            },
            OptMsg::Done { report, path, dest } => self.on_done(report, path, dest),
            OptMsg::PublishedAsIs(d, n) => {
                self.on_published(d, n);
                OpenAfter::Nothing
            },
            OptMsg::Failed(e) => {
                self.on_failed(e);
                OpenAfter::Nothing
            },
            OptMsg::Cardinalities(id, c) => {
                if self.layer_id == id {
                    self.on_counts(c);
                }
                OpenAfter::Nothing
            },
        }
    }

    /// Whether the dialog may close: not while a worker reports to it.
    pub fn may_close(&self) -> (r: bool)
        ensures
            r == !self.running,
    {
        !self.running
    }

    /// Whether a finished output can be opened from the report: a published
    /// one always, a local one unless it was split into files.
    pub fn loadable(&self, files: usize) -> (r: bool)
        ensures
            r == (self.report_s3 is Some || files <= 1),
    {
        self.report_s3.is_some() || files <= 1
    }
}

// --- columns offered ----------------------------------------------------------------

/// A column rows can be partitioned by: text, yes/no, whole numbers or dates,
/// but neither the geometry nor the box column.
pub open spec fn partitions(f: Field, at: int, geom_col: int) -> bool {
    &&& at != geom_col
    &&& f.name@ != "bbox"@
    &&& !(f.kind is Other)
}

/// The names of the columns to partition by.
pub open spec fn partition_names(fields: Seq<Field>, geom_col: int) -> Seq<Seq<char>>
    decreases fields.len(),
{
    if fields.len() == 0 {
        Seq::empty()
    } else {
        let before = partition_names(fields.drop_last(), geom_col);
        if partitions(fields.last(), fields.len() - 1, geom_col) {
            before.push(fields.last().name@)
        } else {
            before
        }
    }
}

/// See [`partition_names`].
pub fn partition_candidates(fields: &Vec<Field>, geom_col: usize) -> (r: Vec<String>)
    ensures
        texts(r@) == partition_names(fields@, geom_col as int),
{
    let mut out: Vec<String> = Vec::new();
    let mut i: usize = 0;
    assert(texts(out@) =~= Seq::empty());
    while i < fields.len()
        invariant
            i <= fields@.len(),
            texts(out@) == partition_names(fields@.subrange(0, i as int), geom_col as int),
        decreases fields@.len() - i,
    {
        assert(fields@.subrange(0, i + 1).drop_last() =~= fields@.subrange(0, i as int));
        let f = &fields[i];
        if i != geom_col && !same(f.name.as_str(), "bbox") && f.kind.names_folder() {
            push_text(&mut out, f.name.clone());
        }
        i += 1;
    }
    assert(fields@.subrange(0, i as int) =~= fields@);
    out
}

/// The names of the text columns.
pub open spec fn text_names(fields: Seq<Field>) -> Seq<Seq<char>>
    decreases fields.len(),
{
    if fields.len() == 0 {
        Seq::empty()
    } else if fields.last().kind.text() {
        text_names(fields.drop_last()).push(fields.last().name@)
    } else {
        text_names(fields.drop_last())
    }
}

/// See [`text_names`].
pub fn text_columns(fields: &Vec<Field>) -> (r: Vec<String>)
    ensures
        texts(r@) == text_names(fields@),
{
    let mut out: Vec<String> = Vec::new();
    let mut i: usize = 0;
    assert(texts(out@) =~= Seq::empty());
    while i < fields.len()
        invariant
            i <= fields@.len(),
            texts(out@) == text_names(fields@.subrange(0, i as int)),
        decreases fields@.len() - i,
    {
        assert(fields@.subrange(0, i + 1).drop_last() =~= fields@.subrange(0, i as int));
        if fields[i].kind.is_text() {
            push_text(&mut out, fields[i].name.clone());
        }
        i += 1;
    }
    assert(fields@.subrange(0, i as int) =~= fields@);
    out
}

/// A polygon layer other than the exported one can give an admin column.
pub fn gives_admin(layer_id: u64, kind: GeomKind, exported: u64) -> (r: bool)
    ensures
        r == (layer_id != exported && kind == GeomKind::Polygon),
{
    layer_id != exported && kind == GeomKind::Polygon
}

/// Another layer of the same geometry family can be merged; without the
/// exported layer there is no family to match.
pub fn merges_with(layer_id: u64, kind: GeomKind, exported: u64, family: Option<GeomKind>) -> (r: bool)
    ensures
        r == (layer_id != exported && family == Some(kind)),
{
    layer_id != exported && match family {
        Some(k) => k == kind,
        None => false,
    }
}

/// The first column of this name.
pub open spec fn column_at(fields: Seq<Field>, name: Seq<char>, i: int) -> int
    decreases fields.len() - i,
{
    if i >= fields.len() {
        fields.len() as int
    } else if fields[i].name@ == name {
        i
    } else {
        column_at(fields, name, i + 1)
    }
}

/// Columns of `ours` that `theirs` has under the same name: as many of the
/// same type as `.0`, and of another type as `.1`.
pub open spec fn overlap(ours: Seq<Field>, theirs: Seq<Field>) -> (nat, nat)
    decreases ours.len(),
{
    if ours.len() == 0 {
        (0, 0)
    } else {
        let (s, c) = overlap(ours.drop_last(), theirs);
        let at = column_at(theirs, ours.last().name@, 0);
        if at >= theirs.len() {
            (s, c)
        } else if theirs[at].type_code == ours.last().type_code {
            (s + 1, c)
        } else {
            (s, c + 1)
        }
    }
}

fn find_column(fields: &Vec<Field>, name: &str) -> (r: Option<usize>)
    ensures
        match r {
            Some(i) => i < fields@.len() && i == column_at(fields@, name@, 0),
            None => column_at(fields@, name@, 0) == fields@.len(),
        },
{
    let mut i: usize = 0;
    while i < fields.len()
        invariant
            i <= fields@.len(),
            column_at(fields@, name@, 0) == column_at(fields@, name@, i as int),
        decreases fields@.len() - i,
    {
        if same(fields[i].name.as_str(), name) {
            return Some(i);
        }
        i += 1;
    }
    None
}

/// See [`overlap`].
pub fn shared_columns(ours: &Vec<Field>, theirs: &Vec<Field>) -> (r: (usize, usize))
    ensures
        (r.0 as nat, r.1 as nat) == overlap(ours@, theirs@),
{
    let mut shared: usize = 0;
    let mut conflicts: usize = 0;
    let mut i: usize = 0;
    while i < ours.len()
        invariant
            i <= ours@.len(),
            shared + conflicts <= i,
            (shared as nat, conflicts as nat) == overlap(ours@.subrange(0, i as int), theirs@),
        decreases ours@.len() - i,
    {
        assert(ours@.subrange(0, i + 1).drop_last() =~= ours@.subrange(0, i as int));
        if let Some(at) = find_column(theirs, ours[i].name.as_str()) {
            if theirs[at].type_code == ours[i].type_code {
                shared += 1;
            } else {
                conflicts += 1;
            }
        }
        i += 1;
    }
    assert(ours@.subrange(0, i as int) =~= ours@);
    (shared, conflicts)
}

/// What merging a layer means for its columns.
pub fn merge_hint(shared: usize, conflicts: usize) -> (r: String)
    ensures
        r@ == if conflicts > 0 {
            decimal(shared as nat) + " shared columns; "@ + decimal(conflicts as nat)
                + " dropped (type conflicts)"@
        } else {
            decimal(shared as nat) + " shared columns"@
        },
{
    let s = dec(shared as u64);
    if conflicts > 0 {
        let c = dec(conflicts as u64);
        cat4(s.as_str(), " shared columns; ", c.as_str(), " dropped (type conflicts)")
    } else {
        cat2(s.as_str(), " shared columns")
    }
}

// --- partitioning by fields -----------------------------------------------------------

/// Columns the export itself adds.
pub open spec fn derived_names(o: OptimizeState) -> Seq<Seq<char>> {
    (match o.h3_resolution {
        Some(r) => seq!["h3_r"@ + decimal(r as nat)],
        None => Seq::empty(),
    }) + (if o.admin_layer is Some {
        seq![admin_name(o.admin_out@)]
    } else {
        Seq::empty()
    })
}

/// Distinct values counted for a column.
pub open spec fn counted(counts: Seq<FieldCount>, name: Seq<char>, i: int) -> Option<usize>
    decreases counts.len() - i,
{
    if i >= counts.len() {
        None
    } else if counts[i].name@ == name {
        Some(counts[i].distinct)
    } else {
        counted(counts, name, i + 1)
    }
}

/// Distinct values known of a column.
pub open spec fn distinct_of(o: OptimizeState, name: Seq<char>) -> Option<usize> {
    match o.cardinalities {
        Some(c) => counted(c@, name, 0),
        None => None,
    }
}

impl OptimizeState {
    /// See [`derived_names`].
    pub fn derived(&self) -> (r: Vec<String>)
        ensures
            texts(r@) == derived_names(*self),
    {
        let mut out: Vec<String> = Vec::new();
        if let Some(res) = self.h3_resolution {
            let n = dec(res as u64);
            push_text(&mut out, cat2("h3_r", n.as_str()));
        }
        if self.admin_layer.is_some() {
            push_text(&mut out, admin_out_name(self.admin_out.as_str()));
        }
        assert(texts(out@) =~= derived_names(*self));
        out
    }

    /// Whether the values have to be counted now; asked for once.
    pub fn wants_counts(&mut self) -> (r: bool)
        ensures
            r == (old(self).part_mode == PartMode::Fields && old(self).cardinalities is None && !old(
                self,
            ).card_pending),
            *final(self) == (OptimizeState {
                card_pending: old(self).card_pending || r,
                ..*old(self)
            }),
    {
        if self.part_mode == PartMode::Fields && self.cardinalities.is_none() && !self.card_pending {
            self.card_pending = true;
            true
        } else {
            false
        }
    }

    fn distinct(&self, name: &str) -> (r: Option<usize>)
        ensures
            r == distinct_of(*self, name@),
    {
        match &self.cardinalities {
            Some(c) => {
                let mut i: usize = 0;
                while i < c.len()
                    invariant
                        i <= c@.len(),
                        self.cardinalities == Some(*c),
                        counted(c@, name@, 0) == counted(c@, name@, i as int),
                    decreases c@.len() - i,
                {
                    if same(c[i].name.as_str(), name) {
                        return Some(c[i].distinct);
                    }
                    i += 1;
                }
                None
            },
            None => None,
        }
    }

    /// The label of a partition field, and whether it is warned about for
    /// splitting into very many directories.
    pub fn field_label(&self, name: &str) -> (r: (String, bool))
        ensures
            r.0@ == name@ + "  ("@ + (match distinct_of(*self, name@) {
                Some(n) => decimal(n as nat) + " distinct"@,
                None => if derived_names(*self).contains(name@) {
                    "derived"@
                } else if self.card_pending {
                    "counting…"@
                } else {
                    Seq::<char>::empty()
                },
            }) + ")"@,
            r.1 == (distinct_of(*self, name@) matches Some(n) && n > MANY_VALUES),
    {
        let known = self.distinct(name);
        let card = match known {
            Some(n) => {
                let d = dec(n as u64);
                cat2(d.as_str(), " distinct")
            },
            None => {
                let derived = self.derived();
                if list_has(&derived, name) {
                    "derived".to_owned()
                } else if self.card_pending {
                    "counting…".to_owned()
                } else {
                    String::new()
                }
            },
        };
        let many = match known {
            Some(n) => n > MANY_VALUES,
            None => false,
        };
        (cat4(name, "  (", card.as_str(), ")"), many)
    }

    /// Tick or untick a partition field; the order of ticking is the order
    /// of the directories.
    pub fn toggle_field(&mut self, name: String, on: bool)
        ensures
            texts(final(self).part_fields@) == if on {
                texts(old(self).part_fields@).push(name@)
            } else {
                texts_without(texts(old(self).part_fields@), name@)
            },
            *final(self) == (OptimizeState { part_fields: final(self).part_fields, ..*old(self) }),
    {
        if on {
            push_text(&mut self.part_fields, name);
            return;
        }
        remove_text(&mut self.part_fields, name.as_str());
    }

    /// "dirs: a=…/b=…".
    pub fn dirs_note(&self) -> (r: String)
        ensures
            r@ == "dirs: "@ + joined(
                texts(self.part_fields@).map_values(|f: Seq<char>| f + "=…"@),
                "/"@,
            ),
    {
        let mut parts: Vec<String> = Vec::new();
        let ghost all = texts(self.part_fields@).map_values(|f: Seq<char>| f + "=…"@);
        let mut i: usize = 0;
        while i < self.part_fields.len()
            invariant
                i <= self.part_fields@.len(),
                all == texts(self.part_fields@).map_values(|f: Seq<char>| f + "=…"@),
                texts(parts@) =~= all.subrange(0, i as int),
            decreases self.part_fields@.len() - i,
        {
            push_text(&mut parts, cat2(self.part_fields[i].as_str(), "=…"));
            assert(all.subrange(0, i + 1) =~= all.subrange(0, i as int).push(all[i as int]));
            i += 1;
        }
        assert(all.subrange(0, i as int) =~= all);
        let list = join(&parts, "/");
        cat2("dirs: ", list.as_str())
    }

    /// The name the save dialog proposes.
    pub fn proposed_name(&self) -> (r: String)
        ensures
            r@ == stem_of(self.src_name@) + "_optimized.parquet"@,
    {
        let stem = self.stem();
        cat2(stem.as_str(), "_optimized.parquet")
    }

    /// The folder a partitioned dataset gets inside the one chosen.
    pub fn dataset_folder(&self) -> (r: String)
        ensures
            r@ == stem_of(self.src_name@) + "_partitioned"@,
    {
        let stem = self.stem();
        cat2(stem.as_str(), "_partitioned")
    }
}

// --- what the dialog says -------------------------------------------------------------------

/// The sizes of row groups offered.
pub fn row_group_sizes() -> (r: [usize; 4])
    ensures
        r@ == seq![16_384usize, 32_768usize, 65_536usize, 131_072usize],
{
    let r: [usize; 4] = [16_384, 32_768, 65_536, 131_072];
    assert(r@ =~= seq![16_384usize, 32_768usize, 65_536usize, 131_072usize]);
    r
}

/// The finest resolution of cells offered.
pub const H3_FINEST: u8 = 12;

/// The rows a file of an adaptive split may aim at.
pub const ADAPTIVE_LEAST: usize = 10_000;

pub const ADAPTIVE_MOST: usize = 10_000_000;

/// A finished export, its sizes and fractions already in words.
#[derive(Debug)]
pub struct ReportFacts {
    pub version_label: String,
    pub rows: usize,
    pub files: usize,
    pub size_before: String,
    pub size_after: String,
    pub rg_before: usize,
    pub rg_after: usize,
    pub overlap_before: String,
    pub overlap_after: String,
    pub percent_before: String,
    pub percent_after: String,
    pub bloom_columns: Vec<String>,
    pub elapsed_ms: u64,
}

/// The facts on a finished export, in the order shown.
pub open spec fn report_facts(f: ReportFacts) -> Seq<Fact> {
    fact("format"@, f.version_label@) + fact("rows"@, count_text(f.rows as nat)) + (if f.files > 1 {
        fact("files"@, decimal(f.files as nat) + " (partitioned)"@)
    } else {
        Seq::empty()
    }) + fact("size"@, f.size_before@ + " ➡ "@ + f.size_after@) + fact(
        "row groups"@,
        decimal(f.rg_before as nat) + " ➡ "@ + decimal(f.rg_after as nat),
    ) + fact(
        "rg bbox overlap"@,
        "×"@ + f.overlap_before@ + " ➡ ×"@ + f.overlap_after@ + " ("@ + f.percent_before@ + "% ➡ "@
            + f.percent_after@ + "% of possible)"@,
    ) + fact(
        "bloom filters"@,
        if f.bloom_columns@.len() == 0 {
            "none"@
        } else {
            joined(texts(f.bloom_columns@), ", "@)
        },
    ) + fact("elapsed"@, decimal(f.elapsed_ms as nat) + " ms"@)
}

fn overlap_line(f: &ReportFacts) -> (r: String)
    ensures
        r@ == "×"@ + f.overlap_before@ + " ➡ ×"@ + f.overlap_after@ + " ("@ + f.percent_before@
            + "% ➡ "@ + f.percent_after@ + "% of possible)"@,
{
    let head = cat5(
        "×",
        f.overlap_before.as_str(),
        " ➡ ×",
        f.overlap_after.as_str(),
        " (",
    );
    cat5(
        head.as_str(),
        f.percent_before.as_str(),
        "% ➡ ",
        f.percent_after.as_str(),
        "% of possible)",
    )
}

/// See [`report_facts`].
pub fn report_rows(f: &ReportFacts) -> (r: Vec<InfoRow>)
    ensures
        facts(r@) == report_facts(*f),
{
    let mut out: Vec<InfoRow> = Vec::new();
    assert(facts(out@) + fact("format"@, f.version_label@) =~= fact("format"@, f.version_label@));
    state(&mut out, "format", f.version_label.as_str().to_owned());
    state(&mut out, "rows", fmt_count(f.rows));
    let ghost before = facts(out@);
    assert(before + Seq::<Fact>::empty() =~= before);
    if f.files > 1 {
        let n = dec(f.files as u64);
        state(&mut out, "files", cat2(n.as_str(), " (partitioned)"));
    }
    state(&mut out, "size", cat3(f.size_before.as_str(), " ➡ ", f.size_after.as_str()));
    let a = dec(f.rg_before as u64);
    let b = dec(f.rg_after as u64);
    state(&mut out, "row groups", cat3(a.as_str(), " ➡ ", b.as_str()));
    state(&mut out, "rg bbox overlap", overlap_line(f));
    let blooms = if f.bloom_columns.len() == 0 {
        "none".to_owned()
    } else {
        join(&f.bloom_columns, ", ")
    };
    state(&mut out, "bloom filters", blooms);
    let ms = dec(f.elapsed_ms);
    state(&mut out, "elapsed", cat2(ms.as_str(), " ms"));
    out
}

/// Where a finished export went.
pub fn written_title(dest: &Option<S3Dest>, path: &str) -> (r: String)
    ensures
        r@ == match *dest {
            Some(d) => "Published: "@ + d.uri@,
            None => "Written: "@ + path@,
        },
{
    match dest {
        Some(d) => cat2("Published: ", d.uri.as_str()),
        None => cat2("Written: ", path),
    }
}

/// What an unchanged upload sent.
pub fn as_is_note(size: &str) -> (r: String)
    ensures
        r@ == size@ + " uploaded as-is (no rewrite)"@,
{
    cat2(size, " uploaded as-is (no rewrite)")
}

impl OptimizeState {
    /// The name of a format, marked where it is the recommended one.
    pub fn version_text(&self, v: GpVersion, label: &str) -> (r: String)
        ensures
            r@ == if v == self.recommended {
                label@ + " — recommended"@
            } else {
                label@
            },
    {
        if v == self.recommended {
            cat2(label, " — recommended")
        } else {
            label.to_owned()
        }
    }

    /// The values cannot be counted: the layer is gone.
    pub fn no_counts(&mut self)
        ensures
            *final(self) == (OptimizeState { card_pending: false, ..*old(self) }),
    {
        self.card_pending = false;
    }

    /// What the button says.
    pub fn button(&self) -> (r: &'static str)
        ensures
            r@ == if self.dest_s3 {
                "Optimize & upload…"@
            } else {
                "Export…"@
            },
    {
        if self.dest_s3 {
            "Optimize & upload…"
        } else {
            "Export…"
        }
    }

    /// What a destination looks like.
    pub fn destination_hint(&self) -> (r: &'static str)
        ensures
            r@ == if self.part_mode == PartMode::Single {
                "s3://bucket/ (file name appended) · s3://bucket/path/file.parquet"@
            } else {
                "s3://bucket/ (dataset prefix appended) · s3://bucket/dataset/"@
            },
    {
        if self.part_mode == PartMode::Single {
            "s3://bucket/ (file name appended) · s3://bucket/path/file.parquet"
        } else {
            "s3://bucket/ (dataset prefix appended) · s3://bucket/dataset/"
        }
    }
}

// --- what publishing is for --------------------------------------------------------------------

proof fn no_slash_occurs(path: Seq<char>)
    ensures
        occurs("/"@, path) <==> path.contains('/'),
{
    reveal_strlit("/");
    if path.contains('/') {
        let k = path.index_of('/');
        assert(path.subrange(k, k + 1) =~= "/"@);
        assert(occurs_at("/"@, path, k));
    }
    if occurs("/"@, path) {
        let i = choose|i: int| occurs_at("/"@, path, i);
        assert(path[i] == path.subrange(i, i + 1)[0]);
    }
}

/// The destination of an upload, for every bucket and path, entered with any
/// number of slashes behind. What names a place only (a bucket alone, or
/// anything with a slash behind) gets a name there, made from the source's;
/// what names more is taken at its word: a dataset as a prefix, a file with
/// its extension once. What names no bucket is refused.
pub proof fn a_destination_gets_a_name(path: Seq<char>, slashes: Seq<char>, stem: Seq<char>, partitioned: bool, as_is: bool)
    requires
        path.len() > 0,
        path.last() != '/',
        forall|k: int| 0 <= k < slashes.len() ==> #[trigger] slashes[k] == '/',
    ensures
        ({
            let base = "s3://"@ + path;
            let place = slashes.len() > 0 || !path.contains('/');
            publish_uri(base + slashes, stem, partitioned, as_is) == Some(
                if place {
                    base + "/"@ + stem + (if partitioned {
                        "_partitioned/"@
                    } else if as_is {
                        ".parquet"@
                    } else {
                        "_optimized.parquet"@
                    })
                } else if partitioned {
                    base + "/"@
                } else if ".parquet"@.is_suffix_of(path) {
                    base
                } else {
                    base + ".parquet"@
                },
            )
        }),
{
    reveal_strlit("s3://");
    reveal_strlit("/");
    reveal_strlit(".parquet");
    let base = "s3://"@ + path;
    let entered = base + slashes;
    assert(base.last() == path.last());
    a_tail_is_taken_off(base, slashes, '/');
    assert(base.subrange(0, 5) =~= "s3://"@);
    assert(bucket_path(base) =~= path);
    no_slash_occurs(path);
    assert("/"@.is_suffix_of(entered) <==> slashes.len() > 0) by {
        let last = entered.subrange(entered.len() - 1, entered.len() as int);
        assert(last[0] == entered.last());
        if slashes.len() > 0 {
            assert(entered.last() == slashes[slashes.len() - 1]);
            assert(last =~= "/"@);
        } else {
            assert(entered =~= base);
        }
    }
    let n = ".parquet"@.len();
    if ".parquet"@.is_suffix_of(path) {
        assert(base.subrange(base.len() - n, base.len() as int) =~= path.subrange(
            path.len() - n,
            path.len() as int,
        ));
    }
    if ".parquet"@.is_suffix_of(base) {
        assert(base.subrange(base.len() - n, base.len() as int) =~= ".parquet"@);
        assert(".parquet"@[0] == '.');
        if path.len() < n {
            // The slash before the path would be inside the extension.
            let k = n - path.len() - 1;
            assert(base.subrange(base.len() - n, base.len() as int)[k as int] == base[4]);
            assert(".parquet"@[k as int] == '/');
        }
        assert(base.subrange(base.len() - n, base.len() as int) =~= path.subrange(
            path.len() - n,
            path.len() as int,
        ));
    }
}

/// Sources of different names never get the same destination in one place.
pub proof fn different_sources_stay_apart(
    path: Seq<char>,
    slashes: Seq<char>,
    a: Seq<char>,
    b: Seq<char>,
    partitioned: bool,
    as_is: bool,
)
    requires
        path.len() > 0,
        path.last() != '/',
        slashes.len() > 0 || !path.contains('/'),
        forall|k: int| 0 <= k < slashes.len() ==> #[trigger] slashes[k] == '/',
        a != b,
    ensures
        publish_uri("s3://"@ + path + slashes, a, partitioned, as_is) != publish_uri(
            "s3://"@ + path + slashes,
            b,
            partitioned,
            as_is,
        ),
{
    a_destination_gets_a_name(path, slashes, a, partitioned, as_is);
    a_destination_gets_a_name(path, slashes, b, partitioned, as_is);
    let base = "s3://"@ + path;
    let end = if partitioned {
        "_partitioned/"@
    } else if as_is {
        ".parquet"@
    } else {
        "_optimized.parquet"@
    };
    let u = base + "/"@ + a + end;
    let v = base + "/"@ + b + end;
    if u == v {
        let n = (base + "/"@).len() as int;
        assert(u.len() == n + a.len() + end.len());
        assert(v.len() == n + b.len() + end.len());
        assert(u.subrange(n, n + a.len()) =~= a);
        assert(v.subrange(n, n + b.len()) =~= b);
    }
}

/// What is no address of a bucket is refused.
pub proof fn no_bucket_no_upload(entered: Seq<char>, stem: Seq<char>, partitioned: bool, as_is: bool)
    requires
        !"s3://"@.is_prefix_of(entered) || forall|k: int|
            "s3://"@.len() <= k < entered.len() ==> #[trigger] entered[k] == '/',
    ensures
        publish_uri(entered, stem, partitioned, as_is) is None,
{
    reveal_strlit("s3://");
    let uri = without_trailing(entered, '/');
    a_tail_is_a_tail(entered, '/');
    if "s3://"@.is_prefix_of(uri) {
        assert(entered.subrange(0, 5) =~= uri.subrange(0, 5));
        assert(uri.last() == entered[uri.len() - 1]);
        assert("s3://"@[4] == '/');
        if uri.len() == 5 {
            assert(uri.subrange(0, 5)[4] == '/');
        }
    }
}

/// A source's stem is its name without the extension.
pub proof fn a_stem_has_no_extension(name: Seq<char>)
    ensures
        stem_of(name + ".parquet"@) == stem_of(name),
        !".parquet"@.is_suffix_of(name) ==> stem_of(name) == name,
        !".parquet"@.is_suffix_of(stem_of(name)),
{
    reveal_strlit(".parquet");
    a_suffix_is_taken_off(name, ".parquet"@);
}

/// A file can be uploaded unchanged if nothing is asked that needs it
/// rewritten; each thing asked for is named once.
pub proof fn every_reason_is_named(o: OptimizeState)
    ensures
        rewrite_reasons(o).len() == 0 <==> o.merge_with@.len() == 0 && !o.viewport_only
            && o.h3_resolution is None && o.admin_layer is None && o.part_mode is Single,
        rewrite_reasons(o).contains("merge"@) <==> o.merge_with@.len() > 0,
        rewrite_reasons(o).contains("viewport only"@) <==> o.viewport_only,
        rewrite_reasons(o).contains("H3 column"@) <==> o.h3_resolution is Some,
        rewrite_reasons(o).contains("admin column"@) <==> o.admin_layer is Some,
        rewrite_reasons(o).contains("partitioning"@) <==> !(o.part_mode is Single),
        rewrite_reasons(o).no_duplicates(),
{
    reveal_strlit("merge");
    reveal_strlit("viewport only");
    reveal_strlit("H3 column");
    reveal_strlit("admin column");
    reveal_strlit("partitioning");
    let a = if o.merge_with@.len() > 0 { 1int } else { 0 };
    let b = a + if o.viewport_only { 1int } else { 0 };
    let c = b + if o.h3_resolution is Some { 1int } else { 0 };
    let d = c + if o.admin_layer is Some { 1int } else { 0 };
    let r = rewrite_reasons(o);
    if o.merge_with@.len() > 0 {
        assert(r[0] == "merge"@);
    }
    if o.viewport_only {
        assert(r[a] == "viewport only"@);
    }
    if o.h3_resolution is Some {
        assert(r[b] == "H3 column"@);
    }
    if o.admin_layer is Some {
        assert(r[c] == "admin column"@);
    }
    if !(o.part_mode is Single) {
        assert(r[d] == "partitioning"@);
    }
    assert("merge"@.len() == 5 && "viewport only"@.len() == 13 && "H3 column"@.len() == 9
        && "admin column"@.len() == 12 && "partitioning"@.len() == 12);
    assert("admin column"@[0] != "partitioning"@[0]);
}

/// An export starts if it has what it needs: a place for the viewport it is
/// about, fields to split by, and a column of the boundary layer.
pub proof fn an_export_starts_with_what_it_needs(o: OptimizeState, mapped: bool)
    ensures
        start_error(o, mapped) is None <==> {
            &&& o.viewport_only ==> mapped
            &&& o.part_mode is Fields ==> o.part_fields@.len() > 0
            &&& o.admin_layer is Some ==> o.admin_column@.len() > 0
        },
{
}

/// A column of boundaries goes by the name typed for it, without blanks
/// around; where nothing is typed it is "admin".
pub proof fn a_boundary_column_has_a_name(out: Seq<char>)
    ensures
        admin_name(out).len() > 0,
        trimmed(out).len() > 0 ==> admin_name(out) == trimmed(out),
        trimmed(out).len() == 0 ==> admin_name(out) == "admin"@,
{
    reveal_strlit("admin");
}

/// The layers merged are those chosen that still exist, in the order chosen.
pub proof fn existing_layers_are_merged(s: Session, ids: Seq<u64>)
    ensures
        lists(
            present(s, ids),
            ids.len(),
            |i: int| exists|k: int| 0 <= k < s.layers.len() && (#[trigger] s.layers[k]).id == ids[i],
            |i: int| ids[i],
        ),
    decreases ids.len(),
{
    let has = |i: int|
        exists|k: int| 0 <= k < s.layers.len() && (#[trigger] s.layers[k]).id == ids[i];
    let of = |i: int| ids[i];
    if ids.len() > 0 {
        let init = ids.drop_last();
        let m = init.len();
        existing_layers_are_merged(s, init);
        let has_init = |i: int|
            exists|k: int| 0 <= k < s.layers.len() && (#[trigger] s.layers[k]).id == init[i];
        assert forall|i: int| 0 <= i < m implies #[trigger] has(i) == has_init(i) by {
            assert(init[i] == ids[i]);
        }
        same_tally(has, has_init, m);
        assert forall|i: int| 0 <= i < m && #[trigger] has(i) implies present(s, init)[tally(
            has,
            i as nat,
        ) as int] == ids[i] by {
            same_tally(has, has_init, i as nat);
            assert(has_init(i));
            assert(init[i] == ids[i]);
        }
        crate::laws::index_is_in_range(s.layers, ids.last(), 0);
        if has(m as int) {
            let k = choose|k: int|
                0 <= k < s.layers.len() && (#[trigger] s.layers[k]).id == ids[m as int];
            assert(s.layers[k].id == ids.last());
        }
        lists_one_more(present(s, init), present(s, ids), m, has, of);
    }
}

/// A worker's message: its end ends the run, with its report or its error;
/// before that the run goes on. Counts of another layer's values are dropped.
pub proof fn a_run_ends_with_its_worker(o: OptimizeState, m: OptMsg)
    ensures
        m is Progress || m is Cardinalities ==> after_message(o, m).running == o.running,
        m is Done || m is PublishedAsIs || m is Failed ==> !after_message(o, m).running,
        m matches OptMsg::Failed(e) ==> after_message(o, m).error == Some(e),
        !(m is Failed) ==> after_message(o, m).error == o.error,
        m matches OptMsg::Done { report, .. } ==> after_message(o, m).report == Some(report),
        m matches OptMsg::Done { dest, .. } ==> after_message(o, m).report_s3 == dest,
        m matches OptMsg::PublishedAsIs(d, n) ==> after_message(o, m).report_as_is == Some((d, n)),
        m matches OptMsg::Progress(f, s) ==> after_message(o, m).progress == f && after_message(
            o,
            m,
        ).progress_text == s,
        m matches OptMsg::Cardinalities(id, c) ==> if id == o.layer_id {
            after_message(o, m).cardinalities == Some(c) && !after_message(o, m).card_pending
        } else {
            after_message(o, m) == o
        },
        !(opened_by(o, m) is Nothing) <==> m is Done && o.open_result,
        opened_by(o, m) matches OpenAfter::Remote(d) ==> (m matches OptMsg::Done { dest, .. }
            && dest == Some(d)),
        opened_by(o, m) matches OpenAfter::Local(p) ==> (m matches OptMsg::Done { path, dest, .. }
            && dest is None && path == p),
{
}

/// The columns offered for partitioning are those whose values can name a
/// folder, in order; neither the geometry nor the boxes are among them.
pub proof fn partition_columns_name_folders(fields: Seq<Field>, geom_col: int)
    ensures
        lists(
            partition_names(fields, geom_col),
            fields.len(),
            |i: int| i != geom_col && fields[i].name@ != "bbox"@ && !(fields[i].kind is Other),
            |i: int| fields[i].name@,
        ),
        lists(
            text_names(fields),
            fields.len(),
            |i: int|
                fields[i].kind is Utf8 || fields[i].kind is LargeUtf8 || fields[i].kind is Utf8View,
            |i: int| fields[i].name@,
        ),
    decreases fields.len(),
{
    let has = |i: int| i != geom_col && fields[i].name@ != "bbox"@ && !(fields[i].kind is Other);
    let text = |i: int|
        fields[i].kind is Utf8 || fields[i].kind is LargeUtf8 || fields[i].kind is Utf8View;
    let of = |i: int| fields[i].name@;
    if fields.len() > 0 {
        let init = fields.drop_last();
        let m = init.len();
        partition_columns_name_folders(init, geom_col);
        let has_init = |i: int| i != geom_col && init[i].name@ != "bbox"@ && !(init[i].kind is Other);
        let text_init = |i: int|
            init[i].kind is Utf8 || init[i].kind is LargeUtf8 || init[i].kind is Utf8View;
        let of_init = |i: int| init[i].name@;
        lists_alike(partition_names(init, geom_col), m, has_init, of_init, has, of);
        lists_alike(text_names(init), m, text_init, of_init, text, of);
        lists_one_more(partition_names(init, geom_col), partition_names(fields, geom_col), m, has, of);
        lists_one_more(text_names(init), text_names(fields), m, text, of);
    }
}

/// Columns two layers share, by name: each of ours that they have is counted
/// once, as of the same type or as in conflict.
pub proof fn shared_columns_are_counted(ours: Seq<Field>, theirs: Seq<Field>)
    ensures
        overlap(ours, theirs).0 == tally(
            |i: int|
                exists|k: int| is_first_named(theirs, k, ours[i].name@) && theirs[k].type_code
                    == ours[i].type_code,
            ours.len(),
        ),
        overlap(ours, theirs).1 == tally(
            |i: int|
                exists|k: int| is_first_named(theirs, k, ours[i].name@) && theirs[k].type_code
                    != ours[i].type_code,
            ours.len(),
        ),
    decreases ours.len(),
{
    let alike = |i: int|
        exists|k: int| is_first_named(theirs, k, ours[i].name@) && theirs[k].type_code
            == ours[i].type_code;
    let unlike = |i: int|
        exists|k: int| is_first_named(theirs, k, ours[i].name@) && theirs[k].type_code
            != ours[i].type_code;
    if ours.len() > 0 {
        let init = ours.drop_last();
        let m = init.len();
        shared_columns_are_counted(init, theirs);
        same_tally(
            alike,
            |i: int|
                exists|k: int| is_first_named(theirs, k, init[i].name@) && theirs[k].type_code
                    == init[i].type_code,
            m,
        );
        same_tally(
            unlike,
            |i: int|
                exists|k: int| is_first_named(theirs, k, init[i].name@) && theirs[k].type_code
                    != init[i].type_code,
            m,
        );
        let name = ours.last().name@;
        let at = column_at(theirs, name, 0);
        column_is_first(theirs, name, 0);
        if at < theirs.len() {
            assert(is_first_named(theirs, at, name));
            assert forall|k: int| is_first_named(theirs, k, name) implies k == at by {
                if k < at {
                    assert(theirs[k].name@ != name);
                }
            }
        } else {
            assert forall|k: int| !is_first_named(theirs, k, name) by {
                if 0 <= k < theirs.len() {
                    assert(theirs[k].name@ != name);
                }
            }
        }
        assert(alike(m as int) <==> at < theirs.len() && theirs[at].type_code == ours.last().type_code);
        assert(unlike(m as int) <==> at < theirs.len() && theirs[at].type_code != ours.last().type_code);
    }
}

/// Column `k` is the first of this name.
pub open spec fn is_first_named(fields: Seq<Field>, k: int, name: Seq<char>) -> bool {
    &&& 0 <= k < fields.len()
    &&& fields[k].name@ == name
    &&& forall|j: int| 0 <= j < k ==> (#[trigger] fields[j]).name@ != name
}

proof fn column_is_first(fields: Seq<Field>, name: Seq<char>, i: int)
    requires
        0 <= i <= fields.len(),
    ensures
        i <= column_at(fields, name, i) <= fields.len(),
        column_at(fields, name, i) < fields.len() ==> fields[column_at(fields, name, i)].name@ == name,
        forall|j: int| i <= j < column_at(fields, name, i) ==> (#[trigger] fields[j]).name@ != name,
    decreases fields.len() - i,
{
    if i < fields.len() && fields[i].name@ != name {
        column_is_first(fields, name, i + 1);
    }
}

/// An export does what the dialog says: each option is the one that was set,
/// boundaries and destination only where they were asked for, and a split into
/// cells goes down to resolution 10.
pub proof fn an_export_is_planned_as_asked(s: Session, o: OptimizeState, p: ExportPlan)
    requires
        plan_of(s, o, p),
    ensures
        p.version == o.version && p.covering == o.covering && p.geoarrow_aux == o.geoarrow_aux,
        p.h3_resolution == o.h3_resolution && p.viewport_only == o.viewport_only,
        p.replace_remote == o.replace_remote && p.merge_source_col == o.merge_source_col,
        p.partitioning is Single <==> o.part_mode == PartMode::Single,
        p.partitioning is Fields <==> o.part_mode == PartMode::Fields,
        p.partitioning is AdaptiveH3 <==> o.part_mode == PartMode::AdaptiveH3,
        p.partitioning matches Partitioning::AdaptiveH3 { target_rows, max_res } ==> target_rows
            == o.adaptive_target && max_res == 10,
        p.partitioning matches Partitioning::Fields(f) ==> f@ == o.part_fields@,
        p.dest is Some <==> o.dest_s3,
        p.dest matches Some(d) ==> d.uri@ == trimmed(o.s3_uri@) && d.profile == o.s3_profile,
        p.stac <==> o.dest_s3 && o.stac,
        o.admin_layer is None ==> p.admin is None,
        o.admin_layer matches Some(id) ==> (s.has_layer(id) <==> p.admin is Some),
        p.admin matches Some(a) ==> a.column == o.admin_column && o.admin_layer == Some(a.layer_id)
            && a.out_name@ == admin_name(o.admin_out@),
        o.merge_with@.len() == 0 ==> p.merge@.len() == 0,
{
}

/// The values of a column are as many as were counted for it, under its name.
pub proof fn counts_go_by_the_name(counts: Seq<FieldCount>, name: Seq<char>, i: int, k: int)
    requires
        0 <= i,
    ensures
        i <= k < counts.len() && counts[k].name@ == name && (forall|j: int|
            i <= j < k ==> (#[trigger] counts[j]).name@ != name) ==> counted(counts, name, i) == Some(
            counts[k].distinct,
        ),
        (forall|j: int| i <= j < counts.len() ==> (#[trigger] counts[j]).name@ != name) ==> counted(
            counts,
            name,
            i,
        ) is None,
    decreases counts.len() - i,
{
    if i < counts.len() {
        counts_go_by_the_name(counts, name, i + 1, k);
    }
}

/// The report of an export says what became of rows, size and row groups: what
/// it was before and what it is after, in that order.
pub proof fn a_report_compares_before_and_after(f: ReportFacts)
    ensures
        report_facts(f)[0] == (Fact { key: "format"@, value: f.version_label@ }),
        report_facts(f)[1] == (Fact { key: "rows"@, value: count_text(f.rows as nat) }),
        report_facts(f).contains(
            Fact { key: "size"@, value: f.size_before@ + " ➡ "@ + f.size_after@ },
        ),
        report_facts(f).contains(
            Fact {
                key: "row groups"@,
                value: decimal(f.rg_before as nat) + " ➡ "@ + decimal(f.rg_after as nat),
            },
        ),
        report_facts(f)[report_facts(f).len() - 2].value == (if f.bloom_columns@.len() > 0 {
            joined(texts(f.bloom_columns@), ", "@)
        } else {
            "none"@
        }),
        report_facts(f).len() == if f.files > 1 {
            8int
        } else {
            7
        },
        f.files > 1 ==> report_facts(f)[2] == (Fact {
            key: "files"@,
            value: decimal(f.files as nat) + " (partitioned)"@,
        }),
        report_facts(f).last() == (Fact {
            key: "elapsed"@,
            value: decimal(f.elapsed_ms as nat) + " ms"@,
        }),
{
    let a = if f.files > 1 {
        3int
    } else {
        2
    };
    let r = report_facts(f);
    assert(r[a] == (Fact { key: "size"@, value: f.size_before@ + " ➡ "@ + f.size_after@ }));
    assert(r[a + 1] == (Fact {
        key: "row groups"@,
        value: decimal(f.rg_before as nat) + " ➡ "@ + decimal(f.rg_after as nat),
    }));
}

/// The columns an export adds are the cell column, named after its resolution,
/// and the boundary column, each where it was asked for.
pub proof fn added_columns_are_those_asked_for(o: OptimizeState)
    ensures
        o.h3_resolution matches Some(r) ==> derived_names(o).len() > 0 && derived_names(o)[0] == "h3_r"@
            + decimal(r as nat),
        o.admin_layer is Some ==> derived_names(o).len() > 0 && derived_names(o).last() == admin_name(
            o.admin_out@,
        ),
        derived_names(o).len() == (if o.h3_resolution is Some { 1int } else { 0 }) + (
        if o.admin_layer is Some { 1int } else { 0 }),
{
}

} // verus!
