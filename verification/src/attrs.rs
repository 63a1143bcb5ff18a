//! The attributes of the picked feature: which columns are fetched, and what
//! the panel shows of the row that comes back.
use arrow::array::Array;
use arrow::array::Int64Array;
use arrow::record_batch::RecordBatch;
use arrow::util::display::{ArrayFormatter, FormatOptions};
use vstd::prelude::*;
use crate::joins::JoinAnswer;
use crate::session::Capped;
use crate::tally::{lists, lists_one_more};
use crate::text::{
    cat2, cat3, cat4, cat5, contains, dec, decimal, occurs, push_text, same, texts,
};

verus! {

/// Most columns fetched for one feature, beside its geometry.
pub const ATTR_COLS_CAP: usize = 256;

// --- record batches ----------------------------------------------------------------------

/// A batch of rows of an Arrow table, which fetches and queries hand over.
#[verifier::external_body]
pub struct Rows {
    pub batch: RecordBatch,
}

/// How many rows a batch holds.
pub uninterp spec fn row_total(b: Rows) -> nat;

/// The names of its columns, in order.
pub uninterp spec fn names(b: Rows) -> Seq<Seq<char>>;

/// The first row as text, column by column, times with a zone written in the
/// given format, if one is given; nothing where the column's type has no text
/// form.
pub uninterp spec fn cells(b: Rows, zoned: Option<Seq<char>>) -> Seq<Option<Seq<char>>>;

/// The format of a time with its offset, as `chrono` spells it.
pub open spec fn with_offset() -> Seq<char> {
    "%+"@
}

/// A text with a time of the day after the last one, or before the first one,
/// that `chrono` can hold: its zone takes it there.
pub open spec fn past_the_end(t: Seq<char>) -> bool {
    occurs("+262143-01-01T"@, t) || occurs("-262144-12-31T"@, t)
}

/// The first value of a column is, or holds, such a time.
pub open spec fn out_of_time(b: Rows, i: int) -> bool {
    cells(b, Some(with_offset()))[i] matches Some(t) && past_the_end(t)
}

/// The first row as whole numbers of 64 bits, column by column; nothing where
/// the column holds something else.
pub uninterp spec fn whole_numbers(b: Rows) -> Seq<Option<i64>>;

/// `RecordBatch::num_rows`: the number of rows.
#[verifier::external_body]
fn row_count(b: &Rows) -> (r: usize)
    ensures
        r == row_total(*b),
{
    b.batch.num_rows()
}

/// `Schema::fields` of the batch's schema: there is one field per column.
#[verifier::external_body]
fn column_count(b: &Rows) -> (r: usize)
    ensures
        r == names(*b).len(),
{
    b.batch.schema_ref().fields().len()
}

/// `Field::name` of a field of the batch's schema: the column's name.
#[verifier::external_body]
fn column_name(b: &Rows, i: usize) -> (r: String)
    requires
        i < names(*b).len(),
    ensures
        r@ == names(*b)[i as int],
{
    b.batch.schema_ref().field(i).name().clone()
}

/// `ArrayFormatter` with errors shown, and with the given format for times
/// with a zone, the default one where none is given: the first value of a
/// column as text. A column of a type that has no text form gives nothing. A
/// batch without a row has no first value. The default format panics on a time
/// whose zone takes it past the last day `chrono` can hold; spelled with its
/// offset such a time has the day after.
#[verifier::external_body]
fn cell_text(b: &Rows, i: usize, zoned: Option<&str>) -> (r: Option<String>)
    requires
        i < names(*b).len(),
        row_total(*b) > 0,
        zoned is None ==> !out_of_time(*b, i as int),
        zoned matches Some(f) ==> f@ == with_offset(),
    ensures
        text_of(r) == cells(*b, slice_of(zoned))[i as int],
{
    let opts = FormatOptions::default().with_display_error(true).with_timestamp_tz_format(zoned);
    ArrayFormatter::try_new(b.batch.column(i).as_ref(), &opts).map(|f| f.value(0).to_string()).ok()
}

/// `Int64Array::value`: the first value of a column of whole numbers of 64
/// bits; a column of another type gives nothing. A batch without a row has no
/// first value.
#[verifier::external_body]
fn first_number(b: &Rows, i: usize) -> (r: Option<i64>)
    requires
        i < names(*b).len(),
        row_total(*b) > 0,
    ensures
        r == whole_numbers(*b)[i as int],
{
    b.batch.column(i).as_any().downcast_ref::<Int64Array>().map(|a| a.value(0))
}

/// The text that may be in an option.
pub open spec fn text_of(o: Option<String>) -> Option<Seq<char>> {
    match o {
        Some(t) => Some(t@),
        None => None,
    }
}

/// The text that may be given.
pub open spec fn slice_of(o: Option<&str>) -> Option<Seq<char>> {
    match o {
        Some(t) => Some(t@),
        None => None,
    }
}

/// What is shown of the first row, column by column: times in their usual
/// form, and those past the end of time with their offset.
pub open spec fn shown_cells(b: Rows) -> Seq<Option<Seq<char>>> {
    Seq::new(
        names(b).len(),
        |i: int|
            if out_of_time(b, i) {
                cells(b, Some(with_offset()))[i]
            } else {
                cells(b, None)[i]
            },
    )
}

/// See [`shown_cells`], of one column.
fn shown_cell(b: &Rows, i: usize) -> (r: Option<String>)
    requires
        i < names(*b).len(),
        row_total(*b) > 0,
    ensures
        text_of(r) == shown_cells(*b)[i as int],
{
    let spelled = cell_text(b, i, Some("%+"));
    let past = match &spelled {
        Some(t) => contains(t.as_str(), "+262143-01-01T") || contains(t.as_str(), "-262144-12-31T"),
        None => false,
    };
    if past {
        spelled
    } else {
        cell_text(b, i, None)
    }
}

/// The texts of a list of options.
pub open spec fn texts_of(v: Seq<Option<String>>) -> Seq<Option<Seq<char>>> {
    v.map_values(|o: Option<String>| text_of(o))
}

/// The answer to a count of matches: the first two columns of its one row.
/// Nothing where there is no row or no second column.
pub fn match_counts(b: &Rows) -> (r: Option<JoinAnswer>)
    ensures
        r == if row_total(*b) > 0 && names(*b).len() >= 2 {
            Some(JoinAnswer::Counted(whole_numbers(*b)[0], whole_numbers(*b)[1]))
        } else {
            None
        },
{
    if row_count(b) == 0 || column_count(b) < 2 {
        return None;
    }
    Some(JoinAnswer::Counted(first_number(b, 0), first_number(b, 1)))
}

// --- what is fetched ------------------------------------------------------------------------

/// The columns fetched of a table with `total` columns: all of them, or the
/// first of a very wide one, with its geometry.
pub open spec fn wanted_columns(total: nat, geom_col: nat) -> Option<Seq<usize>> {
    if total > ATTR_COLS_CAP {
        let first = Seq::new(ATTR_COLS_CAP as nat, |i: int| i as usize);
        Some(
            if geom_col >= ATTR_COLS_CAP {
                first.push(geom_col as usize)
            } else {
                first
            },
        )
    } else {
        None
    }
}

/// See [`wanted_columns`].
pub fn attr_columns(total: usize, geom_col: usize) -> (r: Option<Vec<usize>>)
    ensures
        match r {
            Some(v) => wanted_columns(total as nat, geom_col as nat) == Some(v@),
            None => wanted_columns(total as nat, geom_col as nat) is None,
        },
{
    if total <= ATTR_COLS_CAP {
        return None;
    }
    let mut cols: Vec<usize> = Vec::new();
    let mut i: usize = 0;
    while i < ATTR_COLS_CAP
        invariant
            i <= ATTR_COLS_CAP,
            cols@ =~= Seq::new(i as nat, |k: int| k as usize),
        decreases ATTR_COLS_CAP - i,
    {
        cols.push(i);
        i += 1;
    }
    if geom_col >= ATTR_COLS_CAP {
        cols.push(geom_col);
    }
    Some(cols)
}

/// What is said of a fetch that left columns out; a failed one says nothing.
pub fn attrs_capped(fetched: &Option<Vec<usize>>, total: usize, ok: bool) -> (r: Option<Capped>)
    ensures
        r == match *fetched {
            Some(v) => if ok {
                Some(Capped { shown: v@.len() as usize, total })
            } else {
                None
            },
            None => None,
        },
{
    match fetched {
        Some(v) => if ok {
            Some(Capped { shown: v.len(), total })
        } else {
            None
        },
        None => None,
    }
}

/// The note on a fetch that left columns out.
pub fn capped_note(c: Capped) -> (r: String)
    ensures
        r@ == "showing "@ + decimal(c.shown as nat) + " of "@ + decimal(c.total as nat)
            + " columns"@,
{
    let shown = dec(c.shown as u64);
    let total = dec(c.total as u64);
    cat5("showing ", shown.as_str(), " of ", total.as_str(), " columns")
}

// --- what is shown ----------------------------------------------------------------------------

/// A line of the panel.
#[derive(Debug)]
pub struct AttrRow {
    pub name: String,
    pub text: String,
    /// It describes the geometry, and is shown faintly.
    pub geometry: bool,
}

/// A line of the panel, as contracts speak of it.
pub struct Line {
    pub name: Seq<char>,
    pub text: Seq<char>,
    pub geometry: bool,
}

/// The lines a list of rows stands for.
pub open spec fn lines(v: Seq<AttrRow>) -> Seq<Line> {
    v.map_values(|r: AttrRow| Line { name: r.name@, text: r.text@, geometry: r.geometry })
}

/// The lines shown of the first `n` columns: all but the hidden one, in
/// order, the geometry by its summary.
pub open spec fn shown_lines(
    columns: Seq<Seq<char>>,
    values: Seq<Option<Seq<char>>>,
    hidden: Option<Seq<char>>,
    geom: Seq<char>,
    summary: Seq<char>,
    n: nat,
) -> Seq<Line>
    decreases n,
{
    if n == 0 {
        Seq::empty()
    } else {
        let before = shown_lines(columns, values, hidden, geom, summary, (n - 1) as nat);
        let c = columns[n - 1];
        if hidden == Some(c) {
            before
        } else {
            before.push(
                Line {
                    name: c,
                    text: if c == geom {
                        summary
                    } else {
                        match values[n - 1] {
                            Some(t) => t,
                            None => "<?>"@,
                        }
                    },
                    geometry: c == geom,
                },
            )
        }
    }
}

/// See [`shown_lines`], of every column.
pub fn attr_lines(
    columns: &Vec<String>,
    values: &Vec<Option<String>>,
    hidden: &Option<String>,
    geom: &str,
    summary: &str,
) -> (r: Vec<AttrRow>)
    requires
        columns@.len() == values@.len(),
    ensures
        lines(r@) == shown_lines(
            texts(columns@),
            texts_of(values@),
            text_of(*hidden),
            geom@,
            summary@,
            columns@.len(),
        ),
{
    let mut out: Vec<AttrRow> = Vec::new();
    let mut i: usize = 0;
    assert(lines(out@) =~= Seq::empty());
    while i < columns.len()
        invariant
            i <= columns@.len(),
            columns@.len() == values@.len(),
            lines(out@) == shown_lines(
                texts(columns@),
                texts_of(values@),
                text_of(*hidden),
                geom@,
                summary@,
                i as nat,
            ),
        decreases columns@.len() - i,
    {
        let ghost before = out@;
        let name = columns[i].as_str();
        let skip = match hidden {
            Some(h) => same(h.as_str(), name),
            None => false,
        };
        assert(texts(columns@)[i as int] == name@);
        assert(texts_of(values@)[i as int] == text_of(values@[i as int]));
        if !skip {
            let geometry = same(name, geom);
            let text = if geometry {
                summary.to_owned()
            } else {
                match &values[i] {
                    Some(t) => t.as_str().to_owned(),
                    None => "<?>".to_owned(),
                }
            };
            out.push(AttrRow { name: name.to_owned(), text, geometry });
            assert(lines(out@) =~= lines(before).push(
                Line { name: name@, text: text@, geometry },
            ));
        }
        i += 1;
    }
    out
}

/// Only the columns shown matter.
proof fn same_lines(
    columns: Seq<Seq<char>>,
    a: Seq<Option<Seq<char>>>,
    b: Seq<Option<Seq<char>>>,
    hidden: Option<Seq<char>>,
    geom: Seq<char>,
    summary: Seq<char>,
    n: nat,
)
    requires
        forall|k: int| 0 <= k < n ==> #[trigger] a[k] == b[k],
    ensures
        shown_lines(columns, a, hidden, geom, summary, n) == shown_lines(
            columns,
            b,
            hidden,
            geom,
            summary,
            n,
        ),
    decreases n,
{
    if n > 0 {
        same_lines(columns, a, b, hidden, geom, summary, (n - 1) as nat);
        assert(a[n - 1] == b[n - 1]);
    }
}

/// What the panel shows of a fetched row; nothing where no row came back.
pub fn attr_rows(b: &Rows, hidden: &Option<String>, geom: &str, summary: &str) -> (r: Option<
    Vec<AttrRow>,
>)
    ensures
        match r {
            Some(v) => row_total(*b) > 0 && lines(v@) == shown_lines(
                names(*b),
                shown_cells(*b),
                text_of(*hidden),
                geom@,
                summary@,
                names(*b).len(),
            ),
            None => row_total(*b) == 0,
        },
{
    if row_count(b) == 0 {
        return None;
    }
    let n: usize = column_count(b);
    let mut columns: Vec<String> = Vec::new();
    let mut values: Vec<Option<String>> = Vec::new();
    let mut i: usize = 0;
    while i < n
        invariant
            i <= n,
            n == names(*b).len(),
            row_total(*b) > 0,
            columns@.len() == i,
            values@.len() == i,
            forall|k: int| 0 <= k < i ==> (#[trigger] texts(columns@)[k]) == names(*b)[k],
            forall|k: int| 0 <= k < i ==> (#[trigger] texts_of(values@)[k]) == shown_cells(*b)[k],
        decreases n - i,
    {
        push_text(&mut columns, column_name(b, i));
        let ghost before = values@;
        values.push(shown_cell(b, i));
        assert(texts_of(values@) =~= texts_of(before).push(shown_cells(*b)[i as int]));
        i += 1;
    }
    assert(texts(columns@) =~= names(*b));
    let r = attr_lines(&columns, &values, hidden, geom, summary);
    proof {
        same_lines(
            names(*b),
            texts_of(values@),
            shown_cells(*b),
            text_of(*hidden),
            geom@,
            summary@,
            names(*b).len(),
        );
    }
    Some(r)
}

/// The kind of a feature's geometry.
#[derive(Clone, Copy, PartialEq, Eq, Structural, Debug)]
pub enum GeomType {
    Point,
    MultiPoint,
    LineString,
    MultiLineString,
    Polygon,
    MultiPolygon,
    Other,
}

/// The name of a kind of geometry.
pub open spec fn geom_type_name(t: GeomType) -> Seq<char> {
    match t {
        GeomType::Point => "Point"@,
        GeomType::MultiPoint => "MultiPoint"@,
        GeomType::LineString => "LineString"@,
        GeomType::MultiLineString => "MultiLineString"@,
        GeomType::Polygon => "Polygon"@,
        GeomType::MultiPolygon => "MultiPolygon"@,
        GeomType::Other => "Geometry"@,
    }
}

/// A geometry in a line: its kind and how many vertices it has.
pub fn geom_summary(found: Option<(GeomType, usize)>) -> (r: String)
    ensures
        r@ == match found {
            Some((t, n)) => geom_type_name(t) + " · "@ + decimal(n as nat) + " vertices"@,
            None => "<invalid>"@,
        },
{
    match found {
        Some((t, n)) => {
            let name = match t {
                GeomType::Point => "Point",
                GeomType::MultiPoint => "MultiPoint",
                GeomType::LineString => "LineString",
                GeomType::MultiLineString => "MultiLineString",
                GeomType::Polygon => "Polygon",
                GeomType::MultiPolygon => "MultiPolygon",
                GeomType::Other => "Geometry",
            };
            let count = dec(n as u64);
            cat4(name, " · ", count.as_str(), " vertices")
        },
        None => "<invalid>".to_owned(),
    }
}

/// The heading of the panel: which row of which layer.
pub fn feature_title(layer: &str, row: u64) -> (r: String)
    ensures
        r@ == layer@ + " · row "@ + decimal(row as nat),
{
    let n = dec(row);
    cat3(layer, " · row ", n.as_str())
}

/// What was measured of the feature, its numbers already in words.
#[derive(Debug)]
pub enum Measured {
    Length(String),
    Area { area: String, perimeter: String },
}

/// The line on the feature's size.
pub fn measure_text(m: &Measured) -> (r: String)
    ensures
        r@ == match *m {
            Measured::Length(l) => "length "@ + l@,
            Measured::Area { area, perimeter } => "area "@ + area@ + " · perimeter "@
                + perimeter@,
        },
{
    match m {
        Measured::Length(l) => cat2("length ", l.as_str()),
        Measured::Area { area, perimeter } => cat4(
            "area ",
            area.as_str(),
            " · perimeter ",
            perimeter.as_str(),
        ),
    }
}

/// How the size was measured.
pub fn measure_hint(latlong: bool) -> (r: &'static str)
    ensures
        r@ == if latlong {
            "geodesic on the WGS84 ellipsoid"@
        } else {
            "planar, in the layer's CRS units (assumed meters)"@
        },
{
    if latlong {
        "geodesic on the WGS84 ellipsoid"
    } else {
        "planar, in the layer's CRS units (assumed meters)"
    }
}

/// The columns fetched of a wide table are distinct and exist, and its
/// geometry is among them.
pub proof fn the_geometry_is_always_fetched(total: nat, geom_col: nat)
    requires
        geom_col < total <= usize::MAX,
        wanted_columns(total, geom_col) is Some,
    ensures
        wanted_columns(total, geom_col).unwrap().contains(geom_col as usize),
        wanted_columns(total, geom_col).unwrap().no_duplicates(),
        forall|i: int|
            0 <= i < wanted_columns(total, geom_col).unwrap().len()
                ==> #[trigger] wanted_columns(total, geom_col).unwrap()[i] < total,
        wanted_columns(total, geom_col).unwrap().len() <= ATTR_COLS_CAP + 1,
{
    let w = wanted_columns(total, geom_col).unwrap();
    if geom_col < ATTR_COLS_CAP {
        assert(w[geom_col as int] == geom_col);
    } else {
        assert(w[ATTR_COLS_CAP as int] == geom_col);
    }
}

/// Of a table with at most 256 columns all are fetched; of a wider one the
/// first 256, in order, and its geometry where it comes later.
pub proof fn wide_tables_are_cut(total: nat, geom_col: nat, k: int)
    requires
        total <= usize::MAX,
        geom_col < total,
    ensures
        wanted_columns(total, geom_col) is None <==> total <= 256,
        total > 256 && 0 <= k < 256 ==> wanted_columns(total, geom_col)->0[k] == k,
        total > 256 && geom_col < 256 ==> wanted_columns(total, geom_col)->0.len() == 256,
        total > 256 && geom_col >= 256 ==> wanted_columns(total, geom_col)->0.len() == 257
            && wanted_columns(total, geom_col)->0[256] == geom_col,
{
}

/// A kind of geometry goes by its own name.
pub proof fn geometries_are_told_apart(t: GeomType)
    ensures
        t is Point ==> geom_type_name(t) == "Point"@,
        t is MultiPoint ==> geom_type_name(t) == "MultiPoint"@,
        t is LineString ==> geom_type_name(t) == "LineString"@,
        t is MultiLineString ==> geom_type_name(t) == "MultiLineString"@,
        t is Polygon ==> geom_type_name(t) == "Polygon"@,
        t is MultiPolygon ==> geom_type_name(t) == "MultiPolygon"@,
        t is Other ==> geom_type_name(t) == "Geometry"@,
{
}

/// Every column but the hidden one has a line, in order, with its name and its
/// value; the geometry shows its summary instead.
pub proof fn every_column_has_its_line(
    columns: Seq<Seq<char>>,
    values: Seq<Option<Seq<char>>>,
    hidden: Option<Seq<char>>,
    geom: Seq<char>,
    summary: Seq<char>,
    n: nat,
)
    requires
        n <= columns.len(),
    ensures
        lists(
            shown_lines(columns, values, hidden, geom, summary, n),
            n,
            |i: int| hidden is None || hidden->0 != columns[i],
            |i: int| Line { name: columns[i], text: if columns[i] == geom { summary } else if values[i] is Some { values[i]->0 } else { "<?>"@ }, geometry: columns[i] == geom },
        ),
    decreases n,
{
    if n > 0 {
        every_column_has_its_line(columns, values, hidden, geom, summary, (n - 1) as nat);
        lists_one_more(
            shown_lines(columns, values, hidden, geom, summary, (n - 1) as nat),
            shown_lines(columns, values, hidden, geom, summary, n),
            (n - 1) as nat,
            |i: int| hidden is None || hidden->0 != columns[i],
            |i: int| Line { name: columns[i], text: if columns[i] == geom { summary } else if values[i] is Some { values[i]->0 } else { "<?>"@ }, geometry: columns[i] == geom },
        );
    }
}

/// A value is shown in its usual form, except a time that its zone takes past
/// the last or the first day there is: that one keeps its offset.
pub proof fn times_past_the_end_keep_their_offset(b: Rows, i: int, t: Seq<char>)
    requires
        0 <= i < names(b).len(),
        cells(b, Some("%+"@))[i] == Some(t),
    ensures
        shown_cells(b).len() == names(b).len(),
        occurs("+262143-01-01T"@, t) || occurs("-262144-12-31T"@, t) ==> shown_cells(b)[i] == Some(t),
        !occurs("+262143-01-01T"@, t) && !occurs("-262144-12-31T"@, t) ==> shown_cells(b)[i] == cells(
            b,
            None,
        )[i],
{
}

} // verus!
