//! Exporting the view as a vector drawing: which features go in, and what is
//! said about those that do not.
use std::collections::{BTreeMap, HashSet};
use vstd::prelude::*;
use crate::layers::{count_preview, GroupLoad};
use crate::map::{coastline_style, graticule_style, DrawStyle};
use crate::session::{Session, ViewerApp};
use crate::tally::{lists, lists_one_more, tally};
use crate::text::{
    cat2, cat3, cat4, cat5, chars_of, dec, decimal, letter_or_digit, list_has, push_text, text_of,
    texts, texts_with, trim_suffixes, without_suffixes, without_trailing,
};

verus! {

broadcast use {
    vstd::laws_cmp::group_laws_cmp,
    vstd::std_specs::btree::group_btree_axioms,
    vstd::std_specs::hash::group_hash_axioms,
};

// --- file names -----------------------------------------------------------------------

/// The part of a text after its last slash or backslash.
pub open spec fn last_part(s: Seq<char>) -> Seq<char>
    decreases s.len(),
{
    if s.len() == 0 || s.last() == '/' || s.last() == '\\' {
        Seq::empty()
    } else {
        last_part(s.drop_last()).push(s.last())
    }
}

/// A character a file name may have.
pub open spec fn safe(c: char) -> bool {
    letter_or_digit(c) || c == '-' || c == '_' || c == '.'
}

/// A text with an underscore for each character a file name may not have.
pub open spec fn made_safe(s: Seq<char>) -> Seq<char> {
    s.map_values(
        |c: char|
            if safe(c) {
                c
            } else {
                '_'
            },
    )
}

/// A text without the characters `c` it starts with.
pub open spec fn without_leading(s: Seq<char>, c: char) -> Seq<char>
    decreases s.len(),
{
    if s.len() > 0 && s[0] == c {
        without_leading(s.subrange(1, s.len() as int), c)
    } else {
        s
    }
}

/// The stem of the file a layer is drawn to.
pub open spec fn svg_stem(layer: Seq<char>) -> Seq<char> {
    without_trailing(
        without_leading(made_safe(without_suffixes(last_part(layer), ".parquet"@)), '_'),
        '_',
    )
}

/// The name of the file a layer is drawn to.
pub open spec fn svg_name(layer: Seq<char>) -> Seq<char> {
    if svg_stem(layer).len() == 0 {
        "geopq-map.svg"@
    } else {
        svg_stem(layer) + ".svg"@
    }
}

proof fn last_part_from(s: Seq<char>, i: int)
    requires
        0 <= i <= s.len(),
        i == 0 || s[i - 1] == '/' || s[i - 1] == '\\',
        forall|k: int| i <= k < s.len() ==> s[k] != '/' && s[k] != '\\',
    ensures
        last_part(s) == s.subrange(i, s.len() as int),
    decreases s.len(),
{
    if i < s.len() {
        last_part_from(s.drop_last(), i);
        assert(s.drop_last().subrange(i, s.len() - 1).push(s.last()) =~= s.subrange(
            i,
            s.len() as int,
        ));
    } else {
        assert(s.subrange(i, s.len() as int) =~= Seq::empty());
    }
}

/// See [`svg_name`].
pub fn svg_file_name(layer: &str) -> (r: String)
    ensures
        r@ == svg_name(layer@),
{
    let all = chars_of(layer);
    let mut from: usize = all.len();
    while from > 0 && all[from - 1] != '/' && all[from - 1] != '\\'
        invariant
            from <= all@.len(),
            forall|k: int| from <= k < all@.len() ==> all@[k] != '/' && all@[k] != '\\',
        decreases from,
    {
        from -= 1;
    }
    let part = text_of(&all, from, all.len());
    proof {
        last_part_from(layer@, from as int);
        reveal_strlit(".parquet");
    }
    let base = trim_suffixes(part.as_str(), ".parquet");
    let v = chars_of(base.as_str());
    let ghost clean = made_safe(base@);
    let mut w: Vec<char> = Vec::new();
    let mut i: usize = 0;
    while i < v.len()
        invariant
            i <= v@.len(),
            v@ == base@,
            clean == made_safe(base@),
            w@ =~= clean.subrange(0, i as int),
        decreases v@.len() - i,
    {
        let c = v[i];
        if c.is_alphanumeric() || c == '-' || c == '_' || c == '.' {
            w.push(c);
        } else {
            w.push('_');
        }
        i += 1;
    }
    assert(w@ =~= clean);
    let mut a: usize = 0;
    assert(w@.subrange(0, w@.len() as int) =~= clean);
    while a < w.len() && w[a] == '_'
        invariant
            a <= w@.len(),
            w@ == clean,
            without_leading(clean, '_') == without_leading(
                w@.subrange(a as int, w@.len() as int),
                '_',
            ),
        decreases w@.len() - a,
    {
        assert(w@.subrange(a as int, w@.len() as int).subrange(
            1,
            w@.subrange(a as int, w@.len() as int).len() as int,
        ) =~= w@.subrange(a + 1, w@.len() as int));
        a += 1;
    }
    let ghost led = w@.subrange(a as int, w@.len() as int);
    let mut b: usize = w.len();
    while b > a && w[b - 1] == '_'
        invariant
            a <= b <= w@.len(),
            w@ == clean,
            led == w@.subrange(a as int, w@.len() as int),
            without_trailing(led, '_') == without_trailing(w@.subrange(a as int, b as int), '_'),
        decreases b,
    {
        assert(w@.subrange(a as int, b as int).drop_last() =~= w@.subrange(a as int, b - 1));
        b -= 1;
    }
    assert(without_trailing(led, '_') =~= w@.subrange(a as int, b as int));
    if a == b {
        "geopq-map.svg".to_owned()
    } else {
        let stem = text_of(&w, a, b);
        cat2(stem.as_str(), ".svg")
    }
}

proof fn trimming_keeps_safe(s: Seq<char>, c: char)
    requires
        forall|k: int| 0 <= k < s.len() ==> safe(#[trigger] s[k]),
    ensures
        forall|k: int|
            0 <= k < without_leading(s, c).len() ==> safe(#[trigger] without_leading(s, c)[k]),
        forall|k: int|
            0 <= k < without_trailing(s, c).len() ==> safe(#[trigger] without_trailing(s, c)[k]),
    decreases s.len(),
{
    if s.len() > 0 {
        let tail = s.subrange(1, s.len() as int);
        let init = s.drop_last();
        trimming_keeps_safe(tail, c);
        trimming_keeps_safe(init, c);
        assert forall|k: int| 0 <= k < without_leading(s, c).len() implies safe(
            #[trigger] without_leading(s, c)[k],
        ) by {
            if s[0] == c {
                assert(safe(without_leading(tail, c)[k]));
            }
        }
        assert forall|k: int| 0 <= k < without_trailing(s, c).len() implies safe(
            #[trigger] without_trailing(s, c)[k],
        ) by {
            if s.last() == c {
                assert(safe(without_trailing(init, c)[k]));
            }
        }
    }
}

/// The stem of a drawing's name has only letters, digits, dashes, underscores
/// and dots, whatever the layer is called.
pub proof fn drawing_names_are_safe(layer: Seq<char>, k: int)
    requires
        0 <= k < svg_stem(layer).len(),
    ensures
        safe(svg_stem(layer)[k]),
{
    let clean = made_safe(without_suffixes(last_part(layer), ".parquet"@));
    assert(forall|i: int| 0 <= i < clean.len() ==> safe(#[trigger] clean[i]));
    trimming_keeps_safe(clean, '_');
    trimming_keeps_safe(without_leading(clean, '_'), '_');
}

// --- features in view ---------------------------------------------------------------------

/// A feature found in view: its row, and the number of its box.
#[derive(Clone, Copy, PartialEq, Eq, Structural, Debug)]
pub struct Found {
    pub row: u32,
    pub bbox: u64,
}

/// The first of these features with this row, from `i` on, or the end.
pub open spec fn found_at(items: Seq<Found>, row: u32, i: int) -> int
    decreases items.len() - i,
{
    if i >= items.len() {
        items.len() as int
    } else if items[i].row == row {
        i
    } else {
        found_at(items, row, i + 1)
    }
}

/// The features in view: every row found once, as it was found first, in row
/// order.
pub open spec fn in_view(items: Seq<Found>, r: Seq<Found>) -> bool {
    &&& forall|i: int, j: int| 0 <= i < j < r.len() ==> (#[trigger] r[i]).row < (#[trigger] r[j]).row
    &&& forall|i: int|
        0 <= i < r.len() ==> found_at(items, (#[trigger] r[i]).row, 0) < items.len() && r[i]
            == items[found_at(items, r[i].row, 0)]
    &&& forall|i: int| 0 <= i < items.len() ==> has_row(r, (#[trigger] items[i]).row)
}

/// Some of these features has this row.
pub open spec fn has_row(r: Seq<Found>, row: u32) -> bool {
    exists|k: int| 0 <= k < r.len() && (#[trigger] r[k]).row == row
}

proof fn found_is_past(items: Seq<Found>, row: u32, i: int)
    requires
        0 <= i <= items.len(),
    ensures
        i <= found_at(items, row, i) <= items.len(),
        found_at(items, row, i) < items.len() ==> items[found_at(items, row, i)].row == row,
    decreases items.len() - i,
{
    if i < items.len() && items[i].row != row {
        found_is_past(items, row, i + 1);
    }
}

proof fn found_at_bound(items: Seq<Found>, row: u32, i: int, k: int)
    requires
        0 <= i <= k < items.len(),
        items[k].row == row,
    ensures
        found_at(items, row, i) <= k,
    decreases k - i,
{
    if items[i].row != row {
        found_at_bound(items, row, i + 1, k);
    }
}

/// The boxes by row, the first found of each.
fn by_row(items: &Vec<Found>) -> (m: BTreeMap<u32, u64>)
    ensures
        forall|row: u32| #[trigger]
            m@.contains_key(row) <==> found_at(items@, row, 0) < items@.len(),
        forall|row: u32| #[trigger]
            m@.contains_key(row) ==> m@[row] == items@[found_at(items@, row, 0)].bbox,
{
    let mut m: BTreeMap<u32, u64> = BTreeMap::new();
    let mut i: usize = 0;
    assert forall|row: u32| found_at(items@, row, 0) >= 0 by {
        found_is_past(items@, row, 0);
    }
    while i < items.len()
        invariant
            i <= items@.len(),
            forall|row: u32| #[trigger] m@.contains_key(row) <==> found_at(items@, row, 0) < i,
            forall|row: u32| #[trigger]
                m@.contains_key(row) ==> m@[row] == items@[found_at(items@, row, 0)].bbox,
        decreases items@.len() - i,
    {
        let f = items[i];
        let there = m.contains_key(&f.row);
        proof {
            found_at_bound(items@, f.row, 0, i as int);
            assert forall|row: u32| row != f.row implies (found_at(items@, row, 0) < i) == (
            found_at(items@, row, 0) < i + 1) by {
                found_is_past(items@, row, 0);
            }
        }
        if !there {
            m.insert(f.row, f.bbox);
        }
        i += 1;
    }
    m
}

/// See [`in_view`].
pub fn visible_features(items: &Vec<Found>) -> (r: Vec<Found>)
    ensures
        in_view(items@, r@),
{
    let m = by_row(items);
    let mut out: Vec<Found> = Vec::new();
    let entries = m.iter();
    let ghost v = vstd::std_specs::iter::IteratorSpec::remaining(&entries);
    let ghost keys = v.map_values(|kv: (&u32, &u64)| *kv.0);
    assert(vstd::laws_cmp::obeys_cmp::<u32>());
    assert(vstd::std_specs::btree::increasing_seq(keys));
    assert forall|i: int, j: int| 0 <= i < j < keys.len() implies #[trigger] keys[i]
        < #[trigger] keys[j] by {
        assert(vstd::std_specs::cmp::OrdSpec::cmp_spec(&keys[i], &keys[j]) is Less);
    }
    for kv in it: entries
        invariant
            it.seq() == v,
            out@.len() == it.index(),
            forall|k: int|
                0 <= k < out@.len() ==> (#[trigger] out@[k]).row == *it.seq()[k].0 && out@[k].bbox
                    == *it.seq()[k].1,
    {
        out.push(Found { row: *kv.0, bbox: *kv.1 });
    }
    proof {
        assert forall|i: int, j: int| 0 <= i < j < out@.len() implies (#[trigger] out@[i]).row < (
        #[trigger] out@[j]).row by {
            assert(keys[i] < keys[j]);
        }
        assert forall|i: int| 0 <= i < out@.len() implies found_at(
            items@,
            (#[trigger] out@[i]).row,
            0,
        ) < items@.len() && out@[i] == items@[found_at(items@, out@[i].row, 0)] by {
            assert(m@.contains_key(out@[i].row));
            found_is_past(items@, out@[i].row, 0);
        }
        assert forall|i: int| 0 <= i < items@.len() implies has_row(
            out@,
            (#[trigger] items@[i]).row,
        ) by {
            let row = items@[i].row;
            found_at_bound(items@, row, 0, i);
            assert(m@.contains_key(row));
            let k = choose|k: int| 0 <= k < v.len() && v[k] == (&row, &m@[row]);
            assert(out@[k].row == row);
        }
    }
    out
}

// --- which features are boxes -----------------------------------------------------------

/// Row groups in the order of their first rows.
pub open spec fn ascending_starts(starts: Seq<u64>) -> bool {
    forall|i: int, j: int| 0 <= i <= j < starts.len() ==> starts[i] <= starts[j]
}

/// How many row groups start at or before a row.
pub open spec fn starts_upto(starts: Seq<u64>, row: u64) -> nat
    decreases starts.len(),
{
    if starts.len() == 0 {
        0
    } else {
        starts_upto(starts.drop_last(), row) + if starts.last() <= row {
            1nat
        } else {
            0
        }
    }
}

/// The row group a row is in.
pub open spec fn group_of(starts: Seq<u64>, row: u64) -> int {
    if starts_upto(starts, row) == 0 {
        0
    } else {
        starts_upto(starts, row) - 1
    }
}

proof fn starts_split(starts: Seq<u64>, row: u64, p: int)
    requires
        0 <= p <= starts.len(),
        forall|i: int| 0 <= i < p ==> #[trigger] starts[i] <= row,
        forall|i: int| p <= i < starts.len() ==> #[trigger] starts[i] > row,
    ensures
        starts_upto(starts, row) == p,
    decreases starts.len(),
{
    if starts.len() > 0 {
        let init = starts.drop_last();
        if p == starts.len() {
            starts_split(init, row, p - 1);
        } else {
            starts_split(init, row, p);
        }
    }
}

/// The row group a row is in, by halving.
pub fn row_group(starts: &Vec<u64>, row: u64) -> (g: usize)
    requires
        ascending_starts(starts@),
    ensures
        g == group_of(starts@, row),
{
    let mut lo: usize = 0;
    let mut hi: usize = starts.len();
    while lo < hi
        invariant
            lo <= hi <= starts@.len(),
            ascending_starts(starts@),
            forall|i: int| 0 <= i < lo ==> #[trigger] starts@[i] <= row,
            forall|i: int| hi <= i < starts@.len() ==> #[trigger] starts@[i] > row,
        decreases hi - lo,
    {
        let mid: usize = lo + (hi - lo) / 2;
        if starts[mid] <= row {
            lo = mid + 1;
        } else {
            hi = mid;
        }
    }
    proof {
        starts_split(starts@, row, lo as int);
    }
    if lo == 0 {
        0
    } else {
        lo - 1
    }
}

/// The feature is on screen as its bounding box.
pub open spec fn drawn_as_box(starts: Seq<u64>, loaded: Seq<GroupLoad>, row: u32) -> bool {
    let g = group_of(starts, row as u64);
    g < loaded.len() && loaded[g] is Boxes
}

/// Which of the features are on screen as bounding boxes.
pub fn boxed_features(items: &Vec<Found>, starts: &Vec<u64>, loaded: &Vec<GroupLoad>) -> (r: Vec<bool>)
    requires
        ascending_starts(starts@),
    ensures
        r@ == items@.map_values(|f: Found| drawn_as_box(starts@, loaded@, f.row)),
{
    let mut out: Vec<bool> = Vec::new();
    let ghost all = items@.map_values(|f: Found| drawn_as_box(starts@, loaded@, f.row));
    let mut i: usize = 0;
    while i < items.len()
        invariant
            i <= items@.len(),
            ascending_starts(starts@),
            all == items@.map_values(|f: Found| drawn_as_box(starts@, loaded@, f.row)),
            out@ =~= all.subrange(0, i as int),
        decreases items@.len() - i,
    {
        let g = row_group(starts, items[i].row as u64);
        let b = g < loaded.len() && matches!(loaded[g], GroupLoad::Boxes);
        out.push(b);
        i += 1;
    }
    assert(out@ =~= all);
    out
}

/// The rows of the first `n` features that need their geometry.
pub open spec fn rows_to_read(items: Seq<Found>, boxed: Seq<bool>, n: nat) -> Seq<u32>
    decreases n,
{
    if n == 0 {
        Seq::empty()
    } else if boxed[n - 1] {
        rows_to_read(items, boxed, (n - 1) as nat)
    } else {
        rows_to_read(items, boxed, (n - 1) as nat).push(items[n - 1].row)
    }
}

/// The rows whose geometry has to be read.
pub fn geometry_rows(items: &Vec<Found>, boxed: &Vec<bool>) -> (r: Vec<u32>)
    requires
        items@.len() == boxed@.len(),
    ensures
        r@ == rows_to_read(items@, boxed@, items@.len()),
{
    let mut out: Vec<u32> = Vec::new();
    let mut i: usize = 0;
    while i < items.len()
        invariant
            i <= items@.len(),
            items@.len() == boxed@.len(),
            out@ == rows_to_read(items@, boxed@, i as nat),
        decreases items@.len() - i,
    {
        if !boxed[i] {
            out.push(items[i].row);
        }
        i += 1;
    }
    out
}

/// A feature of the drawing: its box or its geometry, and its class.
#[derive(Clone, Copy, PartialEq, Eq, Structural, Debug)]
pub enum SvgFeature {
    Box { bbox: u64, bin: u8 },
    Geometry { row: u32, bbox: u64, bin: u8 },
}

/// The class of feature `i`; 0 where the layer is not styled by value.
pub open spec fn bin_of(bins: Option<Vec<u8>>, i: int) -> u8 {
    match bins {
        Some(b) => b@[i],
        None => 0,
    }
}

/// The drawing of the first `n` features: boxes as boxes, the others where
/// their geometry could be read.
pub open spec fn features_first(
    items: Seq<Found>,
    boxed: Seq<bool>,
    read: Set<u32>,
    bins: Option<Vec<u8>>,
    n: nat,
) -> Seq<SvgFeature>
    decreases n,
{
    if n == 0 {
        Seq::empty()
    } else {
        let before = features_first(items, boxed, read, bins, (n - 1) as nat);
        let f = items[n - 1];
        let bin = bin_of(bins, n - 1);
        if boxed[n - 1] {
            before.push(SvgFeature::Box { bbox: f.bbox, bin })
        } else if read.contains(f.row) {
            before.push(SvgFeature::Geometry { row: f.row, bbox: f.bbox, bin })
        } else {
            before
        }
    }
}

/// See [`features_first`].
pub fn collect_features(
    items: &Vec<Found>,
    boxed: &Vec<bool>,
    read: &HashSet<u32>,
    bins: &Option<Vec<u8>>,
) -> (r: Vec<SvgFeature>)
    requires
        items@.len() == boxed@.len(),
        *bins matches Some(b) ==> b@.len() == items@.len(),
    ensures
        r@ == features_first(items@, boxed@, read@, *bins, items@.len()),
{
    let mut out: Vec<SvgFeature> = Vec::new();
    let mut i: usize = 0;
    while i < items.len()
        invariant
            i <= items@.len(),
            items@.len() == boxed@.len(),
            *bins matches Some(b) ==> b@.len() == items@.len(),
            out@ == features_first(items@, boxed@, read@, *bins, i as nat),
        decreases items@.len() - i,
    {
        let f = items[i];
        let bin: u8 = match bins {
            Some(b) => b[i],
            None => 0,
        };
        if boxed[i] {
            out.push(SvgFeature::Box { bbox: f.bbox, bin });
        } else if read.contains(&f.row) {
            out.push(SvgFeature::Geometry { row: f.row, bbox: f.bbox, bin });
        }
        i += 1;
    }
    out
}

/// A feature drawn as a box on screen is a box in the file too: the drawing
/// shows what the screen shows.
pub proof fn boxes_stay_boxes(
    items: Seq<Found>,
    boxed: Seq<bool>,
    read: Set<u32>,
    bins: Option<Vec<u8>>,
    n: nat,
    k: int,
)
    requires
        n <= items.len(),
        0 <= k < features_first(items, boxed, read, bins, n).len(),
    ensures
        exists|i: int|
            #![trigger items[i]]
            0 <= i < n && match features_first(items, boxed, read, bins, n)[k] {
                SvgFeature::Box { bbox, .. } => boxed[i] && items[i].bbox == bbox,
                SvgFeature::Geometry { row, .. } => !boxed[i] && items[i].row == row && read.contains(
                    row,
                ),
            },
    decreases n,
{
    let before = features_first(items, boxed, read, bins, (n - 1) as nat);
    if k < before.len() {
        boxes_stay_boxes(items, boxed, read, bins, (n - 1) as nat, k);
    } else {
        assert(items[n - 1] == items[n - 1]);
    }
}

// --- classes ------------------------------------------------------------------------------

/// Whether classes are needed, and from what.
#[derive(Clone, Copy, PartialEq, Eq, Structural, Debug)]
pub enum BinStep {
    /// The layer is not styled by value.
    Plain,
    /// No feature to classify.
    Empty,
    /// Read the style column of the rows.
    Read,
}

/// Whether classes are needed: `styled` says that the layer has a style by
/// value, `resolved` that its column is there.
pub fn bin_step(styled: bool, resolved: bool, rows: usize) -> (r: BinStep)
    ensures
        r == if !styled || !resolved {
            BinStep::Plain
        } else if rows == 0 {
            BinStep::Empty
        } else {
            BinStep::Read
        },
{
    if !styled || !resolved {
        BinStep::Plain
    } else if rows == 0 {
        BinStep::Empty
    } else {
        BinStep::Read
    }
}

/// Why classes do not fit the rows they are of, if they do not: there has to
/// be one for each. Classes by area are paired with their rows one by one,
/// and one row too few is noticed then.
pub open spec fn bins_error(bins: nat, rows: nat, per_area: bool) -> Option<Seq<char>> {
    if per_area && bins > rows {
        Some("row/batch count mismatch"@)
    } else if bins != rows {
        Some("style column returned "@ + decimal(bins) + " values for "@ + decimal(rows) + " rows"@)
    } else {
        None
    }
}

/// The classes of the rows; see [`bins_error`].
pub fn svg_bins(bins: Vec<u8>, rows: usize, per_area: bool) -> (r: Result<Vec<u8>, String>)
    ensures
        match r {
            Ok(b) => b == bins && bins_error(bins@.len(), rows as nat, per_area) is None,
            Err(e) => bins_error(bins@.len(), rows as nat, per_area) == Some(e@),
        },
{
    if per_area && bins.len() > rows {
        return Err("row/batch count mismatch".to_owned());
    }
    if bins.len() != rows {
        let a = dec(bins.len() as u64);
        let b = dec(rows as u64);
        Err(cat5("style column returned ", a.as_str(), " values for ", b.as_str(), " rows"))
    } else {
        Ok(bins)
    }
}

// --- the document -------------------------------------------------------------------------

/// A layer of the drawing, and what came of collecting it.
#[derive(Debug)]
pub struct SvgLayer {
    pub name: String,
    pub credit: Option<String>,
    /// Drawn from a preview on screen.
    pub decimated: bool,
    pub failed: Option<String>,
}

/// What is said in and about a drawing.
#[derive(Debug)]
pub struct SvgTexts {
    pub notes: Vec<String>,
    /// To be shown to the user.
    pub warnings: Vec<String>,
    pub credits: Vec<String>,
    /// The file name proposed.
    pub name: String,
    /// The layers that made it into the drawing.
    pub drawn: Vec<usize>,
}

/// The notes about a layer.
pub open spec fn layer_notes(l: SvgLayer) -> Seq<Seq<char>> {
    (if l.decimated {
        seq![
            "Layer \""@ + l.name@
                + "\" was drawn from a decimated preview on screen; the export carries the same rows, not the whole dataset."@,
        ]
    } else {
        Seq::empty()
    }) + (match l.failed {
        Some(e) => seq!["Layer \""@ + l.name@ + "\" is missing from this file: "@ + e@],
        None => Seq::empty(),
    })
}

/// The note every drawing has.
pub open spec fn basemap_missing() -> Seq<char> {
    "The raster basemap is not part of this file: tiles are images, not vectors."@
}

/// Notes, warnings and credits of the first `n` layers.
pub open spec fn notes_first(ls: Seq<SvgLayer>, n: nat) -> Seq<Seq<char>>
    decreases n,
{
    if n == 0 {
        seq![basemap_missing()]
    } else {
        notes_first(ls, (n - 1) as nat) + layer_notes(ls[n - 1])
    }
}

pub open spec fn warnings_first(ls: Seq<SvgLayer>, n: nat) -> Seq<Seq<char>>
    decreases n,
{
    if n == 0 {
        Seq::empty()
    } else {
        let before = warnings_first(ls, (n - 1) as nat);
        match ls[n - 1].failed {
            Some(e) => before.push("SVG export, layer "@ + ls[n - 1].name@ + ": "@ + e@),
            None => before,
        }
    }
}

pub open spec fn credits_of(ls: Seq<SvgLayer>, n: nat) -> Seq<Seq<char>>
    decreases n,
{
    if n == 0 {
        Seq::empty()
    } else {
        let before = credits_of(ls, (n - 1) as nat);
        match ls[n - 1].credit {
            Some(c) => texts_with(before, c@),
            None => before,
        }
    }
}

pub open spec fn drawn_first(ls: Seq<SvgLayer>, n: nat) -> Seq<usize>
    decreases n,
{
    if n == 0 {
        Seq::empty()
    } else if ls[n - 1].failed is None {
        drawn_first(ls, (n - 1) as nat).push((n - 1) as usize)
    } else {
        drawn_first(ls, (n - 1) as nat)
    }
}

/// Gather what is said about a drawing of these layers.
pub fn build_svg(layers: &Vec<SvgLayer>) -> (r: SvgTexts)
    ensures
        texts(r.notes@) == notes_first(layers@, layers@.len()),
        texts(r.warnings@) == warnings_first(layers@, layers@.len()),
        texts(r.credits@) == credits_of(layers@, layers@.len()),
        r.drawn@ == drawn_first(layers@, layers@.len()),
        r.name@ == if layers@.len() == 0 {
            "geopq-map.svg"@
        } else {
            svg_name(layers@[0].name@)
        },
{
    let mut notes: Vec<String> = Vec::new();
    push_text(
        &mut notes,
        "The raster basemap is not part of this file: tiles are images, not vectors.".to_owned(),
    );
    let mut warnings: Vec<String> = Vec::new();
    let mut credits: Vec<String> = Vec::new();
    let mut drawn: Vec<usize> = Vec::new();
    let name = if layers.len() > 0 {
        svg_file_name(layers[0].name.as_str())
    } else {
        "geopq-map.svg".to_owned()
    };
    assert(texts(notes@) =~= seq![basemap_missing()]);
    assert(texts(warnings@) =~= Seq::empty());
    assert(texts(credits@) =~= Seq::empty());
    let mut i: usize = 0;
    while i < layers.len()
        invariant
            i <= layers@.len(),
            texts(notes@) == notes_first(layers@, i as nat),
            texts(warnings@) == warnings_first(layers@, i as nat),
            texts(credits@) == credits_of(layers@, i as nat),
            drawn@ == drawn_first(layers@, i as nat),
        decreases layers@.len() - i,
    {
        let l = &layers[i];
        let ghost before = texts(notes@);
        if let Some(c) = &l.credit {
            if !list_has(&credits, c.as_str()) {
                push_text(&mut credits, c.clone());
            }
        }
        if l.decimated {
            push_text(
                &mut notes,
                cat3(
                    "Layer \"",
                    l.name.as_str(),
                    "\" was drawn from a decimated preview on screen; the export carries the same rows, not the whole dataset.",
                ),
            );
        }
        match &l.failed {
            Some(e) => {
                push_text(
                    &mut warnings,
                    cat4("SVG export, layer ", l.name.as_str(), ": ", e.as_str()),
                );
                push_text(
                    &mut notes,
                    cat4("Layer \"", l.name.as_str(), "\" is missing from this file: ", e.as_str()),
                );
            },
            None => drawn.push(i),
        }
        assert(texts(notes@) =~= before + layer_notes(*l));
        i += 1;
    }
    SvgTexts { notes, warnings, credits, name, drawn }
}

/// A layer that could not be collected is reported, and the drawing says so.
pub proof fn a_missing_layer_is_reported(ls: Seq<SvgLayer>, n: nat, k: int)
    requires
        0 <= k < n <= ls.len(),
        ls[k].failed is Some,
    ensures
        warnings_first(ls, n).contains(
            "SVG export, layer "@ + ls[k].name@ + ": "@ + ls[k].failed->0@,
        ),
        notes_first(ls, n).contains(
            "Layer \""@ + ls[k].name@ + "\" is missing from this file: "@ + ls[k].failed->0@,
        ),
    decreases n,
{
    let w = warnings_first(ls, (n - 1) as nat);
    let t = notes_first(ls, (n - 1) as nat);
    let wk = "SVG export, layer "@ + ls[k].name@ + ": "@ + ls[k].failed->0@;
    let nk = "Layer \""@ + ls[k].name@ + "\" is missing from this file: "@ + ls[k].failed->0@;
    if k == n - 1 {
        assert(warnings_first(ls, n)[w.len() as int] == wk);
        let more = layer_notes(ls[k]);
        assert(more[more.len() - 1] == nk);
        assert(notes_first(ls, n)[t.len() + more.len() - 1] == nk);
    } else {
        a_missing_layer_is_reported(ls, (n - 1) as nat, k);
        let i = choose|i: int| 0 <= i < w.len() && w[i] == wk;
        assert(warnings_first(ls, n)[i] == wk);
        let j = choose|j: int| 0 <= j < t.len() && t[j] == nk;
        assert(notes_first(ls, n)[j] == nk);
    }
}

/// The overlays of a drawing, in order, with the styles of the map.
pub fn svg_overlays(graticule: bool, coastline: bool, dark: bool) -> (r: Vec<(&'static str, DrawStyle)>)
    ensures
        r@.len() == (if graticule {
            1int
        } else {
            0
        }) + (if coastline {
            1int
        } else {
            0
        }),
        graticule ==> r@[0].0@ == "graticule"@ && r@[0].1 == crate::map::lines_only(
            if dark {
                crate::map::ink(42, 42, 42, 45)
            } else {
                crate::map::ink(55, 55, 55, 45)
            },
            40,
        ),
        coastline ==> r@.last().0@ == "coastline"@ && r@.last().1 == crate::map::lines_only(
            if dark {
                crate::map::ink(62, 66, 70, 85)
            } else {
                crate::map::ink(35, 38, 42, 85)
            },
            50,
        ),
{
    let mut out: Vec<(&'static str, DrawStyle)> = Vec::new();
    if graticule {
        out.push(("graticule", graticule_style(dark)));
    }
    if coastline {
        out.push(("coastline", coastline_style(dark)));
    }
    out
}

// --- starting an export -------------------------------------------------------------------

/// The layers on the map among the first `n`.
pub open spec fn mapped_first(s: Session, n: nat) -> Seq<usize>
    decreases n,
{
    if n == 0 {
        Seq::empty()
    } else if s.on_map(s.layers[n - 1]) {
        mapped_first(s, (n - 1) as nat).push((n - 1) as usize)
    } else {
        mapped_first(s, (n - 1) as nat)
    }
}

impl ViewerApp {
    /// The layers an export draws: those on the map, an error where the map
    /// has no area.
    pub fn begin_svg_export(&self, has_area: bool) -> (r: Result<Vec<usize>, String>)
        ensures
            match r {
                Ok(v) => has_area && v@ == mapped_first(self@, self@.layers.len()),
                Err(e) => !has_area && e@ == "the map panel has no area to export"@,
            },
    {
        if !has_area {
            return Err("the map panel has no area to export".to_owned());
        }
        let mut out: Vec<usize> = Vec::new();
        let mut i: usize = 0;
        while i < self.layers.len()
            invariant
                i <= self.layers@.len(),
                out@ == mapped_first(self@, i as nat),
            decreases self.layers@.len() - i,
        {
            if self.is_on_map(i) {
                out.push(i);
            }
            i += 1;
        }
        Ok(out)
    }

    /// Whether layer `i` is drawn from a preview.
    pub fn is_decimated(&self, i: usize) -> (r: bool)
        requires
            i < self@.layers.len(),
        ensures
            r == (count_preview(self@.layers[i as int].loaded) > 0),
    {
        self.layers[i].group_counts().preview > 0
    }
}

// --- what a drawing holds -------------------------------------------------------------------

/// Every feature in view is in the drawing once, in order and with its class:
/// as its box where the screen shows that, and otherwise as its geometry where
/// that could be read. Only features whose geometry could not be read are left
/// out, whether or not the layer is styled.
pub proof fn every_feature_is_drawn(
    items: Seq<Found>,
    boxed: Seq<bool>,
    read: Set<u32>,
    bins: Option<Vec<u8>>,
    n: nat,
)
    requires
        n <= items.len(),
    ensures
        lists(
            features_first(items, boxed, read, bins, n),
            n,
            |i: int| boxed[i] || read.contains(items[i].row),
            |i: int|
                {
                    let bin = if bins is Some {
                        bins->0@[i]
                    } else {
                        0u8
                    };
                    if boxed[i] {
                        SvgFeature::Box { bbox: items[i].bbox, bin }
                    } else {
                        SvgFeature::Geometry { row: items[i].row, bbox: items[i].bbox, bin }
                    }
                },
        ),
    decreases n,
{
    let has = |i: int| boxed[i] || read.contains(items[i].row);
    let of = |i: int|
        {
            let bin = if bins is Some {
                bins->0@[i]
            } else {
                0u8
            };
            if boxed[i] {
                SvgFeature::Box { bbox: items[i].bbox, bin }
            } else {
                SvgFeature::Geometry { row: items[i].row, bbox: items[i].bbox, bin }
            }
        };
    if n > 0 {
        every_feature_is_drawn(items, boxed, read, bins, (n - 1) as nat);
        lists_one_more(
            features_first(items, boxed, read, bins, (n - 1) as nat),
            features_first(items, boxed, read, bins, n),
            (n - 1) as nat,
            has,
            of,
        );
    }
}

/// The geometry of every feature is read that is not drawn as a box, and of no
/// other, in order.
pub proof fn every_geometry_is_read(items: Seq<Found>, boxed: Seq<bool>, n: nat)
    requires
        n <= items.len(),
    ensures
        lists(
            rows_to_read(items, boxed, n),
            n,
            |i: int| !boxed[i],
            |i: int| items[i].row,
        ),
    decreases n,
{
    if n > 0 {
        every_geometry_is_read(items, boxed, (n - 1) as nat);
        lists_one_more(
            rows_to_read(items, boxed, (n - 1) as nat),
            rows_to_read(items, boxed, n),
            (n - 1) as nat,
            |i: int| !boxed[i],
            |i: int| items[i].row,
        );
    }
}

/// A row is in the last group that starts at or before it, so that with the
/// next group's start it is inside; a feature is a box in the drawing if and
/// only if its own group is drawn from boxes.
pub proof fn a_row_is_in_its_group(starts: Seq<u64>, loaded: Seq<GroupLoad>, row: u32, g: int)
    requires
        ascending_starts(starts),
        0 <= g < starts.len(),
        starts[g] <= row,
        g + 1 < starts.len() ==> row < starts[g + 1],
    ensures
        group_of(starts, row as u64) == g,
        drawn_as_box(starts, loaded, row) <==> g < loaded.len() && loaded[g] is Boxes,
{
    assert forall|i: int| 0 <= i < g + 1 implies #[trigger] starts[i] <= row as u64 by {
        assert(starts[i] <= starts[g]);
    }
    assert forall|i: int| g + 1 <= i < starts.len() implies #[trigger] starts[i] > row as u64 by {
        assert(starts[g + 1] <= starts[i]);
    }
    starts_split(starts, row as u64, g + 1);
}

/// The find `k` is this feature, and no earlier one has its row.
pub open spec fn first_find(items: Seq<Found>, k: int, f: Found) -> bool {
    &&& 0 <= k < items.len()
    &&& items[k] == f
    &&& forall|m: int| 0 <= m < k ==> (#[trigger] items[m]).row != f.row
}

/// What is in view is what was found: each feature was found, no earlier find
/// has its row, and every row found is there once, in row order.
pub proof fn what_is_found_is_in_view(items: Seq<Found>, r: Seq<Found>, i: int, k: int)
    requires
        in_view(items, r),
        0 <= i < r.len(),
        0 <= k < items.len(),
    ensures
        exists|m: int| first_find(items, m, r[i]),
        exists|m: int| 0 <= m < r.len() && (#[trigger] r[m]).row == items[k].row,
        forall|m: int| 0 <= m < i ==> (#[trigger] r[m]).row < r[i].row,
{
    let row = r[i].row;
    let m = found_at(items, row, 0);
    found_is_past(items, row, 0);
    assert forall|j: int| 0 <= j < m implies (#[trigger] items[j]).row != row by {
        if items[j].row == row {
            found_at_bound(items, row, 0, j);
        }
    }
    assert(items[m] == r[i]);
    assert(first_find(items, m, r[i]));
    assert(has_row(r, items[k].row));
}

/// Classes fit if there is one for each row, and only then.
pub proof fn classes_fit_one_to_one(bins: nat, rows: nat, per_area: bool)
    ensures
        bins_error(bins, rows, per_area) is None <==> bins == rows,
{
}

/// A drawing holds the layers that could be collected and warns of each of the
/// others, once, in order; it credits every source once, and none else.
pub proof fn a_drawing_accounts_for_its_layers(ls: Seq<SvgLayer>, n: nat)
    requires
        n <= ls.len() <= usize::MAX,
    ensures
        lists(drawn_first(ls, n), n, |i: int| ls[i].failed is None, |i: int| i as usize),
        lists(
            warnings_first(ls, n),
            n,
            |i: int| ls[i].failed is Some,
            |i: int| "SVG export, layer "@ + ls[i].name@ + ": "@ + ls[i].failed->0@,
        ),
        credits_of(ls, n).no_duplicates(),
        forall|c: Seq<char>| #[trigger]
            credits_of(ls, n).contains(c) <==> exists|i: int|
                0 <= i < n && (#[trigger] ls[i]).credit is Some && ls[i].credit->0@ == c,
    decreases n,
{
    if n > 0 {
        let m = (n - 1) as nat;
        a_drawing_accounts_for_its_layers(ls, m);
        lists_one_more(
            drawn_first(ls, m),
            drawn_first(ls, n),
            m,
            |i: int| ls[i].failed is None,
            |i: int| i as usize,
        );
        lists_one_more(
            warnings_first(ls, m),
            warnings_first(ls, n),
            m,
            |i: int| ls[i].failed is Some,
            |i: int| "SVG export, layer "@ + ls[i].name@ + ": "@ + ls[i].failed->0@,
        );
        let before = credits_of(ls, m);
        let after = credits_of(ls, n);
        if let Some(c) = ls[n - 1].credit {
            crate::text::inserted_contains(before, before.len() as int, c@);
            assert(before.insert(before.len() as int, c@) =~= before.push(c@));
        }
        assert forall|c: Seq<char>| #[trigger] after.contains(c) <==> exists|i: int|
            0 <= i < n && (#[trigger] ls[i]).credit is Some && ls[i].credit->0@ == c by {
            if before.contains(c) {
                let i = choose|i: int|
                    0 <= i < m && (#[trigger] ls[i]).credit is Some && ls[i].credit->0@ == c;
                assert(ls[i].credit is Some);
            }
            if exists|i: int| 0 <= i < n && (#[trigger] ls[i]).credit is Some && ls[i].credit->0@ == c {
                let i = choose|i: int|
                    0 <= i < n && (#[trigger] ls[i]).credit is Some && ls[i].credit->0@ == c;
                if i < m {
                    assert(before.contains(c));
                }
            }
            if after.contains(c) && !before.contains(c) {
                assert(ls[n - 1].credit is Some);
            }
        }
    }
}

/// Every drawing says that the basemap is missing, and of each layer drawn from
/// a preview that it was.
pub proof fn a_drawing_says_what_it_lacks(ls: Seq<SvgLayer>, n: nat, k: int)
    requires
        n <= ls.len(),
    ensures
        notes_first(ls, n)[0]
            == "The raster basemap is not part of this file: tiles are images, not vectors."@,
        notes_first(ls, n).len() == 1 + tally(|i: int| ls[i].decimated, n) + tally(
            |i: int| ls[i].failed is Some,
            n,
        ),
        0 <= k < n && ls[k].decimated ==> notes_first(ls, n).contains(
            "Layer \""@ + ls[k].name@
                + "\" was drawn from a decimated preview on screen; the export carries the same rows, not the whole dataset."@,
        ),
    decreases n,
{
    if n > 0 {
        let m = (n - 1) as nat;
        a_drawing_says_what_it_lacks(ls, m, k);
        let before = notes_first(ls, m);
        let after = notes_first(ls, n);
        assert(after[0] == before[0]);
        if 0 <= k < n && ls[k].decimated {
            let t = "Layer \""@ + ls[k].name@
                + "\" was drawn from a decimated preview on screen; the export carries the same rows, not the whole dataset."@;
            if k < m {
                let i = choose|i: int| 0 <= i < before.len() && before[i] == t;
                assert(after[i] == t);
            } else {
                assert(after[before.len() as int] == t);
            }
        }
    }
}

/// The layers of a drawing are those on the map, in draw order: shown, and not
/// being built anew unless they stay drawn meanwhile.
pub proof fn a_drawing_shows_the_map(s: Session, n: nat)
    requires
        n <= s.layers.len() <= usize::MAX,
    ensures
        lists(
            mapped_first(s, n),
            n,
            |i: int|
                s.layers[i].visible && (!s.work.rebuilding.contains(s.layers[i].id)
                    || s.work.consolidating.contains(s.layers[i].id)),
            |i: int| i as usize,
        ),
    decreases n,
{
    if n > 0 {
        a_drawing_shows_the_map(s, (n - 1) as nat);
        lists_one_more(
            mapped_first(s, (n - 1) as nat),
            mapped_first(s, n),
            (n - 1) as nat,
            |i: int|
                s.layers[i].visible && (!s.work.rebuilding.contains(s.layers[i].id)
                    || s.work.consolidating.contains(s.layers[i].id)),
            |i: int| i as usize,
        );
    }
}

} // verus!
