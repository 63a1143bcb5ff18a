//! Map layers: what is loaded of each row group, what a refinement still has
//! to read, and the order layers are drawn in.
use vstd::prelude::*;
use crate::tally::{lists, lists_one_more, nothing_to_tally, same_tally, tally, tally_grows};

verus! {

/// The family a layer's geometries belong to.
#[derive(Clone, Copy, PartialEq, Eq, Structural, Debug)]
pub enum GeomKind {
    Point,
    Line,
    Polygon,
    Mixed,
    Unknown,
}

/// Draw-order category of a geometry kind: polygons under lines under
/// points; mixed and unknown sink to the bottom with the polygons.
pub open spec fn rank(k: GeomKind) -> u8 {
    match k {
        GeomKind::Line => 1,
        GeomKind::Point => 2,
        _ => 0,
    }
}

/// See [`rank`].
pub fn kind_rank(k: GeomKind) -> (r: u8)
    ensures
        r == rank(k),
{
    match k {
        GeomKind::Line => 1,
        GeomKind::Point => 2,
        _ => 0,
    }
}

/// The rectangle rows of a group were selected for.
#[derive(Clone, Copy, PartialEq, Eq, Structural, Debug)]
pub enum CoverRect {
    /// Every viewport: rows chosen by a filter, which panning must not add to.
    Everywhere,
    /// A rectangle kept by the caller under this number.
    Kept(u64),
}

/// How much of a row group a layer has decoded.
#[derive(Debug)]
pub enum GroupLoad {
    /// Nothing.
    Unseen,
    /// Every row.
    Full,
    /// Every `stride`-th row.
    Preview { stride: u32 },
    /// Only bounding boxes of the features.
    Boxes,
    /// Some rows, as half-open ranges, chosen for `rect`.
    Rows { ranges: Vec<(u32, u32)>, rect: CoverRect },
}

/// What to read of a row group.
#[derive(Debug)]
pub enum GroupSel {
    /// The rows inside a rectangle the caller keeps under this number.
    Rect(u32, u64),
    /// These rows.
    Ranges(u32, Vec<(u32, u32)>),
    /// Every row.
    All(u32),
}

/// What [`GroupSel`] stands for.
#[verifier::ext_equal]
pub enum Sel {
    Rect(u32, u64),
    Ranges(u32, Seq<(u32, u32)>),
    All(u32),
}

impl View for GroupSel {
    type V = Sel;

    open spec fn view(&self) -> Sel {
        match self {
            GroupSel::Rect(g, r) => Sel::Rect(*g, *r),
            GroupSel::Ranges(g, v) => Sel::Ranges(*g, v@),
            GroupSel::All(g) => Sel::All(*g),
        }
    }
}

/// The meanings of a list of selections.
pub open spec fn sels(v: Seq<GroupSel>) -> Seq<Sel> {
    v.map_values(|s: GroupSel| s@)
}

// --- row ranges -------------------------------------------------------------

/// Whether row `r` lies in one of the half-open ranges.
pub open spec fn in_ranges(ranges: Seq<(u32, u32)>, r: int) -> bool {
    exists|k: int| 0 <= k < ranges.len() && (#[trigger] ranges[k]).0 <= r < ranges[k].1
}

/// Ranges in order of their first row.
pub open spec fn by_start(ranges: Seq<(u32, u32)>) -> bool {
    forall|i: int, j: int| 0 <= i <= j < ranges.len() ==> ranges[i].0 <= ranges[j].0
}

/// Where the uncovered rows begin once `ranges` have been passed.
pub open spec fn reach(ranges: Seq<(u32, u32)>) -> u32
    decreases ranges.len(),
{
    if ranges.len() == 0 {
        0
    } else {
        let before = reach(ranges.drop_last());
        if before < ranges.last().1 {
            ranges.last().1
        } else {
            before
        }
    }
}

/// The gaps `ranges` leave before the last of them, within the first `n` rows.
pub open spec fn gaps(ranges: Seq<(u32, u32)>, n: u32) -> Seq<(u32, u32)>
    decreases ranges.len(),
{
    if ranges.len() == 0 {
        Seq::empty()
    } else {
        let from = reach(ranges.drop_last());
        let to = if ranges.last().0 < n {
            ranges.last().0
        } else {
            n
        };
        let before = gaps(ranges.drop_last(), n);
        if from < to {
            before.push((from, to))
        } else {
            before
        }
    }
}

/// The rows of the first `n` that are in none of `ranges`, as ranges.
pub open spec fn complement(ranges: Seq<(u32, u32)>, n: u32) -> Seq<(u32, u32)> {
    if reach(ranges) < n {
        gaps(ranges, n).push((reach(ranges), n))
    } else {
        gaps(ranges, n)
    }
}

/// The rows of a group of `n` rows that `ranges` leave out.
pub fn complement_ranges(ranges: &Vec<(u32, u32)>, n: u32) -> (r: Vec<(u32, u32)>)
    ensures
        r@ == complement(ranges@, n),
{
    let mut out: Vec<(u32, u32)> = Vec::new();
    let mut from: u32 = 0;
    let mut i: usize = 0;
    while i < ranges.len()
        invariant
            i <= ranges@.len(),
            from == reach(ranges@.subrange(0, i as int)),
            out@ == gaps(ranges@.subrange(0, i as int), n),
        decreases ranges@.len() - i,
    {
        let (a, b) = ranges[i];
        let to: u32 = if a < n { a } else { n };
        assert(ranges@.subrange(0, i + 1).drop_last() =~= ranges@.subrange(0, i as int));
        if from < to {
            out.push((from, to));
        }
        if from < b {
            from = b;
        }
        i += 1;
    }
    assert(ranges@.subrange(0, i as int) =~= ranges@);
    if from < n {
        out.push((from, n));
    }
    out
}

proof fn reach_bounds_rows(ranges: Seq<(u32, u32)>, r: int)
    requires
        in_ranges(ranges, r),
    ensures
        r < reach(ranges),
    decreases ranges.len(),
{
    let k = choose|k: int| 0 <= k < ranges.len() && (#[trigger] ranges[k]).0 <= r < ranges[k].1;
    if k < ranges.len() - 1 {
        assert(ranges.drop_last()[k] == ranges[k]);
        reach_bounds_rows(ranges.drop_last(), r);
    }
}

proof fn gaps_are_uncovered(ranges: Seq<(u32, u32)>, n: u32, r: int)
    requires
        by_start(ranges),
    ensures
        in_ranges(gaps(ranges, n), r) <==> 0 <= r < n && r < (if ranges.len() == 0 {
            0
        } else {
            ranges.last().0 as int
        }) && !in_ranges(ranges.drop_last(), r) && ranges.len() > 0,
    decreases ranges.len(),
{
    if ranges.len() > 0 {
        let init = ranges.drop_last();
        gaps_are_uncovered(init, n, r);
        let from = reach(init);
        let to = if ranges.last().0 < n {
            ranges.last().0
        } else {
            n
        };
        let before = gaps(init, n);
        if in_ranges(init, r) {
            reach_bounds_rows(init, r);
        }
        reach_is_a_bound(init);
        let all = gaps(ranges, n);
        if in_ranges(all, r) {
            let k = choose|k: int| 0 <= k < all.len() && (#[trigger] all[k]).0 <= r < all[k].1;
            if k < before.len() {
                assert(before[k] == all[k]);
            }
        }
        if in_ranges(before, r) {
            let k = choose|k: int|
                0 <= k < before.len() && (#[trigger] before[k]).0 <= r < before[k].1;
            assert(all[k] == before[k]);
        }
        if from <= r < to {
            assert(all.last() == (from, to));
            assert(in_ranges(all, r)) by {
                assert(all[all.len() - 1] == (from, to));
            }
        }
        if init.len() > 0 {
            assert(init.last() == ranges[init.len() - 1]);
            // a row at or past the last start of `init`, short of the reach,
            // is inside one of its ranges
            if init.last().0 <= r && r < from {
                covered_up_to_reach(init, r);
            }
            if r < init.last().0 && !in_ranges(init, r) {
                assert(!in_ranges(init.drop_last(), r)) by {
                    if in_ranges(init.drop_last(), r) {
                        let k = choose|k: int|
                            0 <= k < init.drop_last().len() && (
                            #[trigger] init.drop_last()[k]).0 <= r < init.drop_last()[k].1;
                        assert(init[k] == init.drop_last()[k]);
                    }
                }
            }
            if in_ranges(init, r) && r < init.last().0 {
                let k = choose|k: int|
                    0 <= k < init.len() && (#[trigger] init[k]).0 <= r < init[k].1;
                assert(init.drop_last()[k] == init[k]);
            }
        }
    }
}

/// Rows from the last start up to the reach are covered.
proof fn covered_up_to_reach(ranges: Seq<(u32, u32)>, r: int)
    requires
        by_start(ranges),
        ranges.len() > 0,
        ranges.last().0 <= r < reach(ranges),
    ensures
        in_ranges(ranges, r),
    decreases ranges.len(),
{
    let init = ranges.drop_last();
    if r < ranges.last().1 {
        assert(ranges[ranges.len() - 1] == ranges.last());
    } else {
        assert(init.len() == 0 ==> reach(init) == 0);
        assert(init.last() == ranges[init.len() - 1]);
        covered_up_to_reach(init, r);
        let k = choose|k: int| 0 <= k < init.len() && (#[trigger] init[k]).0 <= r < init[k].1;
        assert(ranges[k] == init[k]);
    }
}

proof fn reach_is_a_bound(ranges: Seq<(u32, u32)>)
    ensures
        forall|k: int| 0 <= k < ranges.len() ==> (#[trigger] ranges[k]).1 <= reach(ranges),
    decreases ranges.len(),
{
    if ranges.len() > 0 {
        reach_is_a_bound(ranges.drop_last());
        assert forall|k: int| 0 <= k < ranges.len() implies (#[trigger] ranges[k]).1 <= reach(
            ranges,
        ) by {
            if k < ranges.len() - 1 {
                assert(ranges.drop_last()[k] == ranges[k]);
            }
        }
    }
}

/// Completing a group reads exactly the rows it lacks: of the first `n` rows,
/// each is in the complement or in the ranges already loaded, never in both.
pub proof fn complement_is_the_rest(ranges: Seq<(u32, u32)>, n: u32, r: int)
    requires
        by_start(ranges),
    ensures
        in_ranges(complement(ranges, n), r) <==> 0 <= r < n && !in_ranges(ranges, r),
{
    gaps_are_uncovered(ranges, n, r);
    let g = gaps(ranges, n);
    let c = complement(ranges, n);
    if in_ranges(ranges, r) {
        reach_bounds_rows(ranges, r);
    }
    if ranges.len() > 0 && ranges.last().0 <= r < reach(ranges) {
        covered_up_to_reach(ranges, r);
    }
    if in_ranges(ranges, r) && ranges.len() > 0 && r < ranges.last().0 {
        let k = choose|k: int| 0 <= k < ranges.len() && (#[trigger] ranges[k]).0 <= r < ranges[k].1;
        assert(ranges.drop_last()[k] == ranges[k]);
    }
    if in_ranges(ranges.drop_last(), r) && ranges.len() > 0 {
        let k = choose|k: int|
            0 <= k < ranges.drop_last().len() && (#[trigger] ranges.drop_last()[k]).0 <= r
                < ranges.drop_last()[k].1;
        assert(ranges[k] == ranges.drop_last()[k]);
    }
    if in_ranges(g, r) {
        let k = choose|k: int| 0 <= k < g.len() && (#[trigger] g[k]).0 <= r < g[k].1;
        assert(c[k] == g[k]);
    }
    if in_ranges(c, r) {
        let k = choose|k: int| 0 <= k < c.len() && (#[trigger] c[k]).0 <= r < c[k].1;
        if k < g.len() {
            assert(g[k] == c[k]);
        }
    }
    if reach(ranges) <= r < n {
        assert(c[c.len() - 1] == (reach(ranges), n));
    }
    reach_is_a_bound(ranges);
}

// --- layers -------------------------------------------------------------------

/// A persistent filter: its predicate and how many rows it keeps.
#[derive(Debug)]
pub struct LayerFilter {
    pub sql: String,
    pub matched: usize,
}

/// A layer on the map, as far as the session decides about it. The opened
/// file, its coordinate system, geometry and style live with the caller.
#[derive(Debug)]
pub struct Layer {
    pub id: u64,
    pub name: String,
    pub kind: GeomKind,
    /// Decoded whole: the file has no usable spatial index.
    pub direct: bool,
    pub visible: bool,
    /// Drawn from bounding boxes while features are tiny on screen.
    pub box_layer: bool,
    pub show_boxes: bool,
    /// Opened from a collection of part files.
    pub collection: bool,
    /// Build the layer's geometry belongs to.
    pub generation: u64,
    /// Bumped when the drawn sections are replaced.
    pub draw_gen: u64,
    /// How many sections of geometry are drawn.
    pub sections: usize,
    /// One entry per row group.
    pub loaded: Vec<GroupLoad>,
    /// First row of each row group, and the number of rows at the end.
    pub starts: Vec<u64>,
    /// How many row-group boxes are known, if they are.
    pub boxes: Option<usize>,
    pub feature_count: usize,
    pub filter: Option<LayerFilter>,
    pub build_ms: u64,
    pub bad_geoms: usize,
    pub files: usize,
    /// Number under which the caller keeps the layer's style.
    pub style: u64,
    pub credit: Option<String>,
}

/// What [`Layer`] stands for.
#[verifier::ext_equal]
pub struct LayerState {
    pub id: u64,
    pub name: Seq<char>,
    pub kind: GeomKind,
    pub direct: bool,
    pub visible: bool,
    pub box_layer: bool,
    pub show_boxes: bool,
    pub collection: bool,
    pub generation: u64,
    pub draw_gen: u64,
    pub sections: usize,
    pub loaded: Seq<GroupLoad>,
    pub starts: Seq<u64>,
    pub boxes: Option<usize>,
    pub feature_count: usize,
    pub filter: Option<LayerFilter>,
    pub build_ms: u64,
    pub bad_geoms: usize,
    pub files: usize,
    pub style: u64,
    pub credit: Option<String>,
}

impl View for Layer {
    type V = LayerState;

    open spec fn view(&self) -> LayerState {
        LayerState {
            id: self.id,
            name: self.name@,
            kind: self.kind,
            direct: self.direct,
            visible: self.visible,
            box_layer: self.box_layer,
            show_boxes: self.show_boxes,
            collection: self.collection,
            generation: self.generation,
            draw_gen: self.draw_gen,
            sections: self.sections,
            loaded: self.loaded@,
            starts: self.starts@,
            boxes: self.boxes,
            feature_count: self.feature_count,
            filter: self.filter,
            build_ms: self.build_ms,
            bad_geoms: self.bad_geoms,
            files: self.files,
            style: self.style,
            credit: self.credit,
        }
    }
}

/// The states of a list of layers.
pub open spec fn states(v: Seq<Layer>) -> Seq<LayerState> {
    v.map_values(|l: Layer| l@)
}

impl LayerState {
    /// The row-group table fits the load table, and every group is small
    /// enough for its rows to be numbered within it.
    pub open spec fn wf(self) -> bool {
        &&& self.starts.len() == self.loaded.len() + 1
        &&& self.loaded.len() <= u32::MAX
        &&& forall|g: int|
            0 <= g < self.loaded.len() ==> #[trigger] self.starts[g] <= self.starts[g + 1]
                && self.starts[g + 1] - self.starts[g] <= u32::MAX
    }

    /// Rows in group `g`.
    pub open spec fn group_rows(self, g: int) -> u32 {
        (self.starts[g + 1] - self.starts[g]) as u32
    }

    /// Whether some row group is not decoded whole.
    pub open spec fn partial(self) -> bool {
        exists|g: int| 0 <= g < self.loaded.len() && !(#[trigger] self.loaded[g] is Full)
    }

    /// The total number of rows in the file.
    pub open spec fn total_rows(self) -> u64 {
        if self.starts.len() == 0 {
            0
        } else {
            self.starts.last()
        }
    }
}

/// Row groups of each state among the first ones of a load table.
pub open spec fn count_full(loaded: Seq<GroupLoad>) -> nat
    decreases loaded.len(),
{
    if loaded.len() == 0 {
        0
    } else {
        count_full(loaded.drop_last()) + if loaded.last() is Full {
            1nat
        } else {
            0
        }
    }
}

pub open spec fn count_preview(loaded: Seq<GroupLoad>) -> nat
    decreases loaded.len(),
{
    if loaded.len() == 0 {
        0
    } else {
        count_preview(loaded.drop_last()) + if loaded.last() is Preview {
            1nat
        } else {
            0
        }
    }
}

pub open spec fn count_boxes(loaded: Seq<GroupLoad>) -> nat
    decreases loaded.len(),
{
    if loaded.len() == 0 {
        0
    } else {
        count_boxes(loaded.drop_last()) + if loaded.last() is Boxes {
            1nat
        } else {
            0
        }
    }
}

pub open spec fn count_rows(loaded: Seq<GroupLoad>) -> nat
    decreases loaded.len(),
{
    if loaded.len() == 0 {
        0
    } else {
        count_rows(loaded.drop_last()) + if loaded.last() is Rows {
            1nat
        } else {
            0
        }
    }
}

/// How many row groups are whole, decimated, boxes only, and row selections.
#[derive(Clone, Copy, Debug, PartialEq, Eq, Structural)]
pub struct GroupCounts {
    pub full: usize,
    pub preview: usize,
    pub boxes: usize,
    pub rows: usize,
    pub total: usize,
}

/// Whether a group the viewport touches still has rows to show: `covered`
/// says whether its row selection covers what the viewport needs of it.
pub open spec fn group_pending(st: GroupLoad, covered: bool) -> bool {
    match st {
        GroupLoad::Full => false,
        GroupLoad::Rows { .. } => !covered,
        _ => true,
    }
}

/// A row group the viewport touches.
#[derive(Clone, Copy, Debug, PartialEq, Eq, Structural)]
pub struct Hit {
    pub group: u32,
    /// The rows loaded of it cover the part of the viewport it can fill.
    pub covered: bool,
}

/// What refining one touched group reads, if anything: a rectangle selection
/// for a group not seen yet, the rest of the group where rows are loaded but
/// do not cover the viewport, except on a box layer, which asks for the
/// viewport alone.
pub open spec fn refine_one(l: LayerState, hit: Hit, rect: u64) -> Option<Sel> {
    let g = hit.group as int;
    match l.loaded[g] {
        GroupLoad::Full => None,
        GroupLoad::Rows { ranges, .. } => if hit.covered {
            None
        } else if l.box_layer {
            Some(Sel::Rect(hit.group, rect))
        } else {
            Some(Sel::Ranges(hit.group, complement(ranges@, l.group_rows(g))))
        },
        _ => Some(Sel::Rect(hit.group, rect)),
    }
}

/// The refinement of a viewport: [`refine_one`] over the touched groups.
pub open spec fn refine_all(l: LayerState, hits: Seq<Hit>, rect: u64) -> Seq<Sel>
    decreases hits.len(),
{
    if hits.len() == 0 {
        Seq::empty()
    } else {
        let before = refine_all(l, hits.drop_last(), rect);
        match refine_one(l, hits.last(), rect) {
            Some(s) => before.push(s),
            None => before,
        }
    }
}

/// What completing group `g` reads, if anything.
pub open spec fn missing_one(l: LayerState, g: int) -> Option<Sel> {
    match l.loaded[g] {
        GroupLoad::Full => None,
        GroupLoad::Rows { ranges, .. } => Some(
            Sel::Ranges(g as u32, complement(ranges@, l.group_rows(g))),
        ),
        _ => Some(Sel::All(g as u32)),
    }
}

/// What completing the first `n` groups reads.
pub open spec fn missing_first(l: LayerState, n: nat) -> Seq<Sel>
    decreases n,
{
    if n == 0 {
        Seq::empty()
    } else {
        let before = missing_first(l, (n - 1) as nat);
        match missing_one(l, n - 1) {
            Some(s) => before.push(s),
            None => before,
        }
    }
}

/// The load table a filter leaves: each group exactly the rows that match,
/// for every viewport.
pub open spec fn filtered_one(n: u32, ranges: Vec<(u32, u32)>) -> GroupLoad {
    if ranges@.len() == 1 && ranges@[0] == (0u32, n) {
        GroupLoad::Full
    } else {
        GroupLoad::Rows { ranges, rect: CoverRect::Everywhere }
    }
}

/// See [`filtered_one`].
pub open spec fn filtered_loads(l: LayerState, per_group: Seq<Vec<(u32, u32)>>) -> Seq<GroupLoad> {
    Seq::new(per_group.len(), |g: int| filtered_one(l.group_rows(g), per_group[g]))
}

impl Layer {
    /// See [`LayerState::wf`].
    pub fn well_formed(&self) -> (r: bool)
        ensures
            r == self@.wf(),
    {
        let n: usize = self.loaded.len();
        if n as u64 > u32::MAX as u64 || self.starts.len() == 0 || self.starts.len() - 1 != n {
            return false;
        }
        let mut g: usize = 0;
        while g < n
            invariant
                g <= n,
                n == self.loaded@.len(),
                self.starts@.len() == n + 1,
                forall|k: int|
                    0 <= k < g ==> #[trigger] self.starts@[k] <= self.starts@[k + 1]
                        && self.starts@[k + 1] - self.starts@[k] <= u32::MAX,
            decreases n - g,
        {
            let a: u64 = self.starts[g];
            let b: u64 = self.starts[g + 1];
            if a > b || b - a > u32::MAX as u64 {
                assert(self.starts@[g as int] == a);
                return false;
            }
            g += 1;
        }
        true
    }

    /// Whether some row group is not decoded whole.
    pub fn is_partial(&self) -> (r: bool)
        ensures
            r == self@.partial(),
    {
        let mut g: usize = 0;
        while g < self.loaded.len()
            invariant
                g <= self.loaded@.len(),
                forall|k: int| 0 <= k < g ==> #[trigger] self.loaded@[k] is Full,
            decreases self.loaded@.len() - g,
        {
            if !matches!(self.loaded[g], GroupLoad::Full) {
                return true;
            }
            g += 1;
        }
        false
    }

    /// How many row groups are in which state.
    pub fn group_counts(&self) -> (r: GroupCounts)
        ensures
            r.full == count_full(self@.loaded),
            r.preview == count_preview(self@.loaded),
            r.boxes == count_boxes(self@.loaded),
            r.rows == count_rows(self@.loaded),
            r.total == self@.loaded.len(),
    {
        let total: usize = self.loaded.len();
        let mut c = GroupCounts { full: 0, preview: 0, boxes: 0, rows: 0, total };
        let mut g: usize = 0;
        assert(self.loaded@.subrange(0, 0) =~= Seq::<GroupLoad>::empty());
        while g < total
            invariant
                g <= total,
                total == self.loaded@.len(),
                c.total == total,
                c.full <= g,
                c.preview <= g,
                c.boxes <= g,
                c.rows <= g,
                c.full == count_full(self.loaded@.subrange(0, g as int)),
                c.preview == count_preview(self.loaded@.subrange(0, g as int)),
                c.boxes == count_boxes(self.loaded@.subrange(0, g as int)),
                c.rows == count_rows(self.loaded@.subrange(0, g as int)),
            decreases total - g,
        {
            assert(self.loaded@.subrange(0, g + 1).drop_last() =~= self.loaded@.subrange(
                0,
                g as int,
            ));
            match &self.loaded[g] {
                GroupLoad::Full => c.full += 1,
                GroupLoad::Preview { .. } => c.preview += 1,
                GroupLoad::Boxes => c.boxes += 1,
                GroupLoad::Rows { .. } => c.rows += 1,
                GroupLoad::Unseen => {},
            }
            g += 1;
        }
        assert(self.loaded@.subrange(0, g as int) =~= self.loaded@);
        c
    }

    /// Whether the viewport still lacks rows of some group it touches.
    pub fn view_pending(&self, hits: &Vec<Hit>) -> (r: bool)
        requires
            forall|k: int| 0 <= k < hits@.len() ==> (#[trigger] hits@[k]).group < self@.loaded.len(),
        ensures
            r == exists|k: int|
                0 <= k < hits@.len() && group_pending(
                    self@.loaded[(#[trigger] hits@[k]).group as int],
                    hits@[k].covered,
                ),
    {
        let mut k: usize = 0;
        while k < hits.len()
            invariant
                k <= hits@.len(),
                forall|k: int|
                    0 <= k < hits@.len() ==> (#[trigger] hits@[k]).group < self@.loaded.len(),
                forall|j: int|
                    0 <= j < k ==> !group_pending(
                        self@.loaded[(#[trigger] hits@[j]).group as int],
                        hits@[j].covered,
                    ),
            decreases hits@.len() - k,
        {
            let hit = hits[k];
            let pending = match &self.loaded[hit.group as usize] {
                GroupLoad::Full => false,
                GroupLoad::Rows { .. } => !hit.covered,
                _ => true,
            };
            if pending {
                return true;
            }
            k += 1;
        }
        false
    }

    /// The selections that refine the groups a viewport touches.
    pub fn refine_jobs(&self, hits: &Vec<Hit>, rect: u64) -> (r: Vec<GroupSel>)
        requires
            self@.wf(),
            forall|k: int| 0 <= k < hits@.len() ==> (#[trigger] hits@[k]).group < self@.loaded.len(),
        ensures
            sels(r@) == refine_all(self@, hits@, rect),
    {
        let mut out: Vec<GroupSel> = Vec::new();
        let mut k: usize = 0;
        assert(hits@.subrange(0, 0) =~= Seq::<Hit>::empty());
        while k < hits.len()
            invariant
                k <= hits@.len(),
                self@.wf(),
                forall|k: int|
                    0 <= k < hits@.len() ==> (#[trigger] hits@[k]).group < self@.loaded.len(),
                sels(out@) =~= refine_all(self@, hits@.subrange(0, k as int), rect),
            decreases hits@.len() - k,
        {
            let hit = hits[k];
            let g: usize = hit.group as usize;
            assert(hits@.subrange(0, k + 1).drop_last() =~= hits@.subrange(0, k as int));
            let ghost before = out@;
            match &self.loaded[g] {
                GroupLoad::Full => {},
                GroupLoad::Rows { ranges, .. } => {
                    if !hit.covered {
                        if self.box_layer {
                            out.push(GroupSel::Rect(hit.group, rect));
                            assert(sels(out@) =~= sels(before).push(Sel::Rect(hit.group, rect)));
                        } else {
                            assert(self.starts@[g as int] <= self.starts@[g + 1]);
                            let n: u32 = (self.starts[g + 1] - self.starts[g]) as u32;
                            let rest = complement_ranges(ranges, n);
                            out.push(GroupSel::Ranges(hit.group, rest));
                            assert(sels(out@) =~= sels(before).push(
                                Sel::Ranges(hit.group, rest@),
                            ));
                        }
                    }
                },
                _ => {
                    out.push(GroupSel::Rect(hit.group, rect));
                    assert(sels(out@) =~= sels(before).push(Sel::Rect(hit.group, rect)));
                },
            }
            k += 1;
        }
        assert(hits@.subrange(0, k as int) =~= hits@);
        out
    }

    /// The selections that complete every row group.
    pub fn missing_jobs(&self) -> (r: Vec<GroupSel>)
        requires
            self@.wf(),
        ensures
            sels(r@) == missing_first(self@, self@.loaded.len()),
    {
        let mut out: Vec<GroupSel> = Vec::new();
        let total: usize = self.loaded.len();
        let mut g: usize = 0;
        while g < total
            invariant
                g <= total,
                total == self@.loaded.len(),
                self@.wf(),
                sels(out@) =~= missing_first(self@, g as nat),
            decreases total - g,
        {
            let ghost before = out@;
            match &self.loaded[g] {
                GroupLoad::Full => {},
                GroupLoad::Rows { ranges, .. } => {
                    assert(self.starts@[g as int] <= self.starts@[g + 1]);
                    let n: u32 = (self.starts[g + 1] - self.starts[g]) as u32;
                    let rest = complement_ranges(ranges, n);
                    out.push(GroupSel::Ranges(g as u32, rest));
                    assert(sels(out@) =~= sels(before).push(Sel::Ranges(g as u32, rest@)));
                },
                _ => {
                    out.push(GroupSel::All(g as u32));
                    assert(sels(out@) =~= sels(before).push(Sel::All(g as u32)));
                },
            }
            g += 1;
        }
        out
    }

    /// The load table that keeps exactly the rows a filter matched.
    pub fn filtered(&self, per_group: Vec<Vec<(u32, u32)>>) -> (r: Vec<GroupLoad>)
        requires
            self@.wf(),
            per_group@.len() <= self@.loaded.len(),
        ensures
            r@ == filtered_loads(self@, per_group@),
    {
        let ghost given = per_group@;
        let mut rest = per_group;
        let mut out: Vec<GroupLoad> = Vec::new();
        let total: usize = rest.len();
        while rest.len() > 0
            invariant
                self@.wf(),
                total == given.len(),
                given.len() <= self@.loaded.len(),
                rest@.len() + out@.len() == given.len(),
                rest@ =~= given.subrange(0, rest@.len() as int),
                forall|i: int|
                    0 <= i < out@.len() ==> #[trigger] out@[i] == filtered_one(
                        self@.group_rows(given.len() - 1 - i),
                        given[given.len() - 1 - i],
                    ),
            decreases rest@.len(),
        {
            let g: usize = rest.len() - 1;
            assert(self.starts@[g as int] <= self.starts@[g + 1]);
            let n: u32 = (self.starts[g + 1] - self.starts[g]) as u32;
            if let Some(ranges) = rest.pop() {
                assert(ranges == given[g as int]);
                let whole = if ranges.len() == 1 {
                    let (a, b) = ranges[0];
                    a == 0 && b == n
                } else {
                    false
                };
                if whole {
                    out.push(GroupLoad::Full);
                } else {
                    out.push(GroupLoad::Rows { ranges, rect: CoverRect::Everywhere });
                }
            }
        }
        let mut r: Vec<GroupLoad> = Vec::new();
        let ghost back = out@;
        while out.len() > 0
            invariant
                back.len() == given.len(),
                out@.len() + r@.len() == back.len(),
                out@ =~= back.subrange(0, out@.len() as int),
                forall|i: int| 0 <= i < r@.len() ==> #[trigger] r@[i] == back[back.len() - 1 - i],
            decreases out@.len(),
        {
            if let Some(x) = out.pop() {
                r.push(x);
            }
        }
        assert(r@ =~= filtered_loads(self@, given));
        r
    }
}

// --- what reading is for ------------------------------------------------------------

/// A row of a group is on the map: every row of a whole group, the rows
/// selected of a group of which some are.
pub open spec fn shows(st: GroupLoad, r: int) -> bool {
    match st {
        GroupLoad::Full => true,
        GroupLoad::Rows { ranges, .. } => in_ranges(ranges@, r),
        _ => false,
    }
}

/// The viewport lacks something of a group it touches: all of it but the rows
/// loaded, unless it is whole or they cover what the viewport needs.
pub open spec fn lacks(l: LayerState, hit: Hit) -> bool {
    let st = l.loaded[hit.group as int];
    !(st is Full) && !(st is Rows && hit.covered)
}

/// The rows selected of a group are those of it that are not on the map.
pub open spec fn reads_the_rest(l: LayerState, g: int, rows: Seq<(u32, u32)>) -> bool {
    forall|r: int|
        #![trigger in_ranges(rows, r)]
        in_ranges(rows, r) <==> 0 <= r < l.starts[g + 1] - l.starts[g] && !shows(l.loaded[g], r)
}

/// The rows loaded of each group are in order.
pub open spec fn rows_in_order(l: LayerState) -> bool {
    forall|g: int|
        0 <= g < l.loaded.len() ==> (#[trigger] l.loaded[g] matches GroupLoad::Rows { ranges, .. }
            ==> by_start(ranges@))
}

/// Refining reads, for each touched group the viewport lacks something of and
/// for no other, in the order they are given: what is inside the viewport, or
/// every row of the group that is not on the map yet, the latter where some of
/// its rows are loaded, and the layer is not drawn from boxes. So a viewport
/// that lacks something is always read for.
pub proof fn refining_reads_what_the_viewport_lacks(l: LayerState, hits: Seq<Hit>, rect: u64)
    requires
        l.wf(),
        rows_in_order(l),
        forall|k: int| 0 <= k < hits.len() ==> (#[trigger] hits[k]).group < l.loaded.len(),
    ensures
        ({
            let jobs = refine_all(l, hits, rect);
            let wanted = |k: int| lacks(l, hits[k]);
            &&& jobs.len() == tally(wanted, hits.len())
            &&& forall|k: int|
                0 <= k < hits.len() && lacks(l, #[trigger] hits[k]) ==> {
                    let g = hits[k].group;
                    match jobs[tally(wanted, k as nat) as int] {
                        Sel::Rect(h, v) => h == g && v == rect && (l.box_layer
                            || !(l.loaded[g as int] is Rows)),
                        Sel::Ranges(h, rows) => h == g && !l.box_layer
                            && l.loaded[g as int] is Rows && reads_the_rest(l, g as int, rows),
                        Sel::All(_) => false,
                    }
                }
            &&& (exists|k: int| 0 <= k < hits.len() && lacks(l, #[trigger] hits[k])) <==> jobs.len()
                > 0
        }),
    decreases hits.len(),
{
    let jobs = refine_all(l, hits, rect);
    let wanted = |k: int| lacks(l, hits[k]);
    if hits.len() > 0 {
        let init = hits.drop_last();
        let before = refine_all(l, init, rect);
        let wanted_before = |k: int| lacks(l, init[k]);
        assert forall|k: int| 0 <= k < init.len() implies (#[trigger] init[k]).group
            < l.loaded.len() by {
            assert(init[k] == hits[k]);
        }
        refining_reads_what_the_viewport_lacks(l, init, rect);
        same_tally(wanted, wanted_before, init.len());
        let last = hits.len() - 1;
        let g = hits[last].group as int;
        if let GroupLoad::Rows { ranges, .. } = l.loaded[g] {
            let rest = complement(ranges@, l.group_rows(g));
            assert forall|r: int| #[trigger] in_ranges(rest, r) <==> 0 <= r < l.starts[g + 1]
                - l.starts[g] && !shows(l.loaded[g], r) by {
                assert(l.starts[g] <= l.starts[g + 1]);
                complement_is_the_rest(ranges@, l.group_rows(g), r);
            }
        }
        assert forall|k: int| 0 <= k < hits.len() && lacks(l, #[trigger] hits[k]) implies {
            let h = hits[k].group;
            match jobs[tally(wanted, k as nat) as int] {
                Sel::Rect(x, v) => x == h && v == rect && (l.box_layer
                    || !(l.loaded[h as int] is Rows)),
                Sel::Ranges(x, rows) => x == h && !l.box_layer && l.loaded[h as int] is Rows
                    && reads_the_rest(l, h as int, rows),
                Sel::All(_) => false,
            }
        } by {
            same_tally(wanted, wanted_before, k as nat);
            if k < last {
                assert(init[k] == hits[k]);
                tally_grows(wanted_before, k as nat, init.len());
                assert(wanted_before(k));
                assert(jobs[tally(wanted, k as nat) as int] == before[tally(
                    wanted,
                    k as nat,
                ) as int]);
            }
        }
    }
    if exists|k: int| 0 <= k < hits.len() && lacks(l, #[trigger] hits[k]) {
        let k = choose|k: int| 0 <= k < hits.len() && lacks(l, #[trigger] hits[k]);
        assert(wanted(k));
        tally_grows(wanted, k as nat, hits.len());
    } else {
        nothing_to_tally(wanted, hits.len());
    }
}

/// Completing a layer reads, of every group that is not whole and of no other,
/// exactly the rows that are not on the map: after it every row is.
pub proof fn loading_all_leaves_no_row_out(l: LayerState)
    requires
        l.wf(),
        rows_in_order(l),
    ensures
        lists(
            missing_first(l, l.loaded.len()),
            l.loaded.len(),
            |g: int| !(l.loaded[g] is Full),
            |g: int| missing_one(l, g)->0,
        ),
        forall|g: int|
            0 <= g < l.loaded.len() && !(#[trigger] l.loaded[g] is Full) ==> match missing_one(l, g) {
                Some(Sel::All(h)) => h == g && !(l.loaded[g] is Rows),
                Some(Sel::Ranges(h, rows)) => h == g && l.loaded[g] is Rows && reads_the_rest(
                    l,
                    g,
                    rows,
                ),
                _ => false,
            },
        l.partial() <==> missing_first(l, l.loaded.len()).len() > 0,
        l.partial() <==> count_full(l.loaded) < l.loaded.len(),
{
    let has = |g: int| !(l.loaded[g] is Full);
    missing_lists(l, l.loaded.len());
    whole_groups_are_counted(l.loaded);
    assert forall|g: int| 0 <= g < l.loaded.len() && !(#[trigger] l.loaded[g] is Full) implies match missing_one(
        l,
        g,
    ) {
        Some(Sel::All(h)) => h == g && !(l.loaded[g] is Rows),
        Some(Sel::Ranges(h, rows)) => h == g && l.loaded[g] is Rows && reads_the_rest(l, g, rows),
        _ => false,
    } by {
        if let GroupLoad::Rows { ranges, .. } = l.loaded[g] {
            assert(l.starts[g] <= l.starts[g + 1]);
            let rest = complement(ranges@, l.group_rows(g));
            assert forall|r: int| #[trigger] in_ranges(rest, r) <==> 0 <= r < l.starts[g + 1]
                - l.starts[g] && !shows(l.loaded[g], r) by {
                complement_is_the_rest(ranges@, l.group_rows(g), r);
            }
        }
    }
    if l.partial() {
        let g = choose|g: int| 0 <= g < l.loaded.len() && !(#[trigger] l.loaded[g] is Full);
        assert(has(g));
        tally_grows(has, g as nat, l.loaded.len());
        whole_groups(l.loaded, g);
    } else {
        assert forall|g: int| 0 <= g < l.loaded.len() implies !#[trigger] has(g) by {
            assert(l.loaded[g] is Full);
        }
        nothing_to_tally(has, l.loaded.len());
        all_whole(l.loaded);
    }
}

proof fn missing_lists(l: LayerState, n: nat)
    requires
        n <= l.loaded.len() <= u32::MAX,
    ensures
        lists(
            missing_first(l, n),
            n,
            |g: int| !(l.loaded[g] is Full),
            |g: int| missing_one(l, g)->0,
        ),
    decreases n,
{
    let has = |g: int| !(l.loaded[g] is Full);
    let of = |g: int| missing_one(l, g)->0;
    if n > 0 {
        missing_lists(l, (n - 1) as nat);
        lists_one_more(missing_first(l, (n - 1) as nat), missing_first(l, n), (n - 1) as nat, has, of);
    }
}

/// Groups are counted by their states, each once.
pub proof fn whole_groups_are_counted(loaded: Seq<GroupLoad>)
    ensures
        count_full(loaded) == tally(|g: int| loaded[g] is Full, loaded.len()),
        count_preview(loaded) == tally(|g: int| loaded[g] is Preview, loaded.len()),
        count_boxes(loaded) == tally(|g: int| loaded[g] is Boxes, loaded.len()),
        count_rows(loaded) == tally(|g: int| loaded[g] is Rows, loaded.len()),
        count_full(loaded) + count_preview(loaded) + count_boxes(loaded) + count_rows(loaded) + tally(
            |g: int| loaded[g] is Unseen,
            loaded.len(),
        ) == loaded.len(),
    decreases loaded.len(),
{
    if loaded.len() > 0 {
        let init = loaded.drop_last();
        let n = init.len();
        whole_groups_are_counted(init);
        same_tally(|g: int| init[g] is Full, |g: int| loaded[g] is Full, n);
        same_tally(|g: int| init[g] is Preview, |g: int| loaded[g] is Preview, n);
        same_tally(|g: int| init[g] is Boxes, |g: int| loaded[g] is Boxes, n);
        same_tally(|g: int| init[g] is Rows, |g: int| loaded[g] is Rows, n);
        same_tally(|g: int| init[g] is Unseen, |g: int| loaded[g] is Unseen, n);
    }
}

proof fn whole_groups(loaded: Seq<GroupLoad>, g: int)
    requires
        0 <= g < loaded.len(),
        !(loaded[g] is Full),
    ensures
        count_full(loaded) < loaded.len(),
    decreases loaded.len(),
{
    whole_bound(loaded.drop_last());
    if g < loaded.len() - 1 {
        assert(loaded.drop_last()[g] == loaded[g]);
        whole_groups(loaded.drop_last(), g);
    }
}

proof fn whole_bound(loaded: Seq<GroupLoad>)
    ensures
        count_full(loaded) <= loaded.len(),
    decreases loaded.len(),
{
    if loaded.len() > 0 {
        whole_bound(loaded.drop_last());
    }
}

proof fn all_whole(loaded: Seq<GroupLoad>)
    requires
        forall|g: int| 0 <= g < loaded.len() ==> #[trigger] loaded[g] is Full,
    ensures
        count_full(loaded) == loaded.len(),
    decreases loaded.len(),
{
    if loaded.len() > 0 {
        assert(loaded[loaded.len() - 1] is Full);
        assert forall|g: int| 0 <= g < loaded.drop_last().len() implies #[trigger] loaded.drop_last()[g] is Full by {
            assert(loaded[g] is Full);
        }
        all_whole(loaded.drop_last());
    }
}

/// A filtered layer shows exactly the rows that match, in every viewport: a
/// row of a group is on the map if and only if the filter matched it, and
/// panning reads nothing more.
pub proof fn a_filter_shows_what_matches(l: LayerState, per_group: Seq<Vec<(u32, u32)>>)
    requires
        l.wf(),
        per_group.len() <= l.loaded.len(),
    ensures
        filtered_loads(l, per_group).len() == per_group.len(),
        forall|g: int, r: int|
            #![trigger shows(filtered_loads(l, per_group)[g], r)]
            0 <= g < per_group.len() && 0 <= r < l.starts[g + 1] - l.starts[g] ==> shows(
                filtered_loads(l, per_group)[g],
                r,
            ) == in_ranges(per_group[g]@, r),
        forall|g: int|
            0 <= g < per_group.len() ==> match #[trigger] filtered_loads(l, per_group)[g] {
                GroupLoad::Full => true,
                GroupLoad::Rows { ranges, rect } => ranges == per_group[g] && rect
                    == CoverRect::Everywhere,
                _ => false,
            },
{
    assert forall|g: int, r: int|
        #![trigger shows(filtered_loads(l, per_group)[g], r)]
        0 <= g < per_group.len() && 0 <= r < l.starts[g + 1] - l.starts[g] implies shows(
        filtered_loads(l, per_group)[g],
        r,
    ) == in_ranges(per_group[g]@, r) by {
        assert(l.starts[g] <= l.starts[g + 1]);
        if filtered_loads(l, per_group)[g] is Full {
            assert(per_group[g]@[0].0 <= r < per_group[g]@[0].1);
        }
    }
}

/// Cutting or extending a load table keeps what is known of its groups, and
/// knows nothing of the new ones.
pub proof fn a_resized_table_keeps_its_groups(loaded: Seq<GroupLoad>, n: nat, g: int)
    requires
        0 <= g < n,
    ensures
        resized(loaded, n).len() == n,
        g < loaded.len() ==> resized(loaded, n)[g] == loaded[g],
        g >= loaded.len() ==> resized(loaded, n)[g] is Unseen,
{
}

/// A load table of `n` groups in the same state.
pub fn all_full(n: usize) -> (r: Vec<GroupLoad>)
    ensures
        r@ == Seq::new(n as nat, |g: int| GroupLoad::Full),
{
    let mut out: Vec<GroupLoad> = Vec::new();
    let mut g: usize = 0;
    while g < n
        invariant
            g <= n,
            out@ =~= Seq::new(g as nat, |g: int| GroupLoad::Full),
        decreases n - g,
    {
        out.push(GroupLoad::Full);
        g += 1;
    }
    out
}

/// A load table of `n` groups nothing is decoded of.
pub fn all_unseen(n: usize) -> (r: Vec<GroupLoad>)
    ensures
        r@ == Seq::new(n as nat, |g: int| GroupLoad::Unseen),
{
    let mut out: Vec<GroupLoad> = Vec::new();
    let mut g: usize = 0;
    while g < n
        invariant
            g <= n,
            out@ =~= Seq::new(g as nat, |g: int| GroupLoad::Unseen),
        decreases n - g,
    {
        out.push(GroupLoad::Unseen);
        g += 1;
    }
    out
}

/// A load table cut or extended to `n` groups, new groups not decoded.
pub open spec fn resized(loaded: Seq<GroupLoad>, n: nat) -> Seq<GroupLoad> {
    Seq::new(
        n,
        |g: int|
            if g < loaded.len() {
                loaded[g]
            } else {
                GroupLoad::Unseen
            },
    )
}

/// See [`resized`].
pub fn resize_loads(loaded: &mut Vec<GroupLoad>, n: usize)
    ensures
        final(loaded)@ == resized(old(loaded)@, n as nat),
{
    let ghost before = loaded@;
    if loaded.len() > n {
        loaded.truncate(n);
    }
    while loaded.len() < n
        invariant
            loaded@.len() <= n,
            before.len() <= loaded@.len() || n == loaded@.len(),
            loaded@ =~= resized(before, loaded@.len()),
        decreases n - loaded@.len(),
    {
        loaded.push(GroupLoad::Unseen);
    }
}

// --- draw order ---------------------------------------------------------------

/// Where a layer of rank `r` lands: right above the top-most layer whose rank
/// is not higher, at the bottom where there is none.
pub open spec fn landing(layers: Seq<LayerState>, r: u8) -> int
    decreases layers.len(),
{
    if layers.len() == 0 {
        0
    } else if rank(layers.last().kind) <= r {
        layers.len() as int
    } else {
        landing(layers.drop_last(), r)
    }
}

/// See [`landing`].
pub fn landing_position(layers: &Vec<Layer>, r: u8) -> (pos: usize)
    ensures
        pos == landing(states(layers@), r),
        pos <= layers@.len(),
{
    let mut i: usize = layers.len();
    let ghost all = states(layers@);
    assert(all.subrange(0, all.len() as int) =~= all);
    while i > 0
        invariant
            i <= layers@.len(),
            all == states(layers@),
            landing(all, r) == landing(all.subrange(0, i as int), r),
        decreases i,
    {
        assert(all.subrange(0, i as int).drop_last() =~= all.subrange(0, i - 1));
        assert(all.subrange(0, i as int).last() == layers@[i - 1]@);
        if kind_rank(layers[i - 1].kind) <= r {
            return i;
        }
        i -= 1;
    }
    0
}

/// Layers in category order: polygons, then lines, then points.
pub open spec fn in_category_order(layers: Seq<LayerState>) -> bool {
    forall|i: int, j: int|
        0 <= i <= j < layers.len() ==> rank((#[trigger] layers[i]).kind) <= rank(
            (#[trigger] layers[j]).kind,
        )
}

proof fn landing_splits(layers: Seq<LayerState>, r: u8)
    ensures
        0 <= landing(layers, r) <= layers.len(),
        landing(layers, r) > 0 ==> rank(layers[landing(layers, r) - 1].kind) <= r,
        forall|i: int| landing(layers, r) <= i < layers.len() ==> rank((#[trigger] layers[i]).kind) > r,
    decreases layers.len(),
{
    if layers.len() > 0 && rank(layers.last().kind) > r {
        landing_splits(layers.drop_last(), r);
        assert forall|i: int| landing(layers, r) <= i < layers.len() implies rank(
            (#[trigger] layers[i]).kind,
        ) > r by {
            if i < layers.len() - 1 {
                assert(layers.drop_last()[i] == layers[i]);
            }
        }
    }
}

pub proof fn landing_in_range(layers: Seq<LayerState>, r: u8)
    ensures
        0 <= landing(layers, r) <= layers.len(),
{
    landing_splits(layers, r);
}

/// A layer that arrives keeps the category order, and lands on top of its own
/// category.
pub proof fn arrival_keeps_category_order(layers: Seq<LayerState>, new: LayerState)
    requires
        in_category_order(layers),
    ensures
        in_category_order(layers.insert(landing(layers, rank(new.kind)), new)),
        forall|i: int|
            0 <= i < layers.len() && rank((#[trigger] layers[i]).kind) == rank(new.kind) ==> i
                < landing(layers, rank(new.kind)),
{
    let r = rank(new.kind);
    landing_splits(layers, r);
    let p = landing(layers, r);
    let after = layers.insert(p, new);
    assert forall|i: int, j: int| 0 <= i <= j < after.len() implies rank(
        (#[trigger] after[i]).kind,
    ) <= rank((#[trigger] after[j]).kind) by {
        let a = if i < p {
            i
        } else {
            i - 1
        };
        let b = if j < p {
            j
        } else {
            j - 1
        };
        if i != p && j != p {
            assert(after[i] == layers[a] && after[j] == layers[b]);
        } else if i == p && j > p {
            assert(after[j] == layers[b]);
        } else if j == p && i < p {
            assert(rank(layers[i].kind) <= rank(layers[p - 1].kind));
        }
    }
}

/// What lies over what: points over everything else, lines over areas.
pub open spec fn lies_over(a: GeomKind, b: GeomKind) -> bool {
    ||| a is Point && !(b is Point)
    ||| a is Line && !(b is Point) && !(b is Line)
}

/// No layer is drawn under one it lies over.
pub open spec fn nothing_is_buried(layers: Seq<LayerState>) -> bool {
    forall|i: int, j: int|
        0 <= i < j < layers.len() ==> !lies_over(
            (#[trigger] layers[i]).kind,
            (#[trigger] layers[j]).kind,
        )
}

/// A layer that arrives buries nothing and is not buried: points stay over
/// lines and lines over areas, and it lies on top of those of its own kind.
pub proof fn an_arrival_buries_nothing(layers: Seq<LayerState>, new: LayerState)
    requires
        nothing_is_buried(layers),
    ensures
        ({
            let p = landing(layers, rank(new.kind));
            &&& 0 <= p <= layers.len()
            &&& nothing_is_buried(layers.insert(p, new))
            &&& forall|i: int|
                p <= i < layers.len() ==> lies_over((#[trigger] layers[i]).kind, new.kind)
            &&& forall|i: int| 0 <= i < p ==> !lies_over((#[trigger] layers[i]).kind, new.kind)
        }),
{
    let p = landing(layers, rank(new.kind));
    landing_splits(layers, rank(new.kind));
    let after = layers.insert(p, new);
    assert forall|i: int| 0 <= i < p implies !lies_over((#[trigger] layers[i]).kind, new.kind) by {
        if i < p - 1 {
            assert(!lies_over(layers[i].kind, layers[p - 1].kind));
        }
    }
    assert forall|i: int, j: int| 0 <= i < j < after.len() implies !lies_over(
        (#[trigger] after[i]).kind,
        (#[trigger] after[j]).kind,
    ) by {
        let a = if i < p { i } else { i - 1 };
        let b = if j < p { j } else { j - 1 };
        if i != p {
            assert(after[i] == layers[a]);
        }
        if j != p {
            assert(after[j] == layers[b]);
        }
    }
}

/// A group the viewport touches has rows left to show unless it is whole, or
/// the rows loaded cover what the viewport needs of it.
pub proof fn a_group_is_pending_while_it_lacks_rows(l: LayerState, hit: Hit)
    ensures
        group_pending(l.loaded[hit.group as int], hit.covered) <==> lacks(l, hit),
{
}

} // verus!
