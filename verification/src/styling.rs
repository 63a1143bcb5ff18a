//! Styling by value: the dialog, the classes and their legend.
use vstd::prelude::*;
use crate::grids::ValueColumn;
use crate::text::{
    cat2, cat3, cat4, contains, copy_texts, occurs, push_text, same, texts, trim_trailing,
    without_trailing,
};

verus! {

/// A classification method.
#[derive(Clone, Copy, PartialEq, Eq, Structural, Debug)]
pub struct ClassMethod {
    pub code: u32,
    /// It classifies by the values themselves, not by their bounds alone.
    pub needs_values: bool,
}

/// Rows sampled to classify by, and by value per area.
pub const SAMPLE_ROWS: usize = 50_000;

pub const SAMPLE_ROWS_PER_AREA: usize = 20_000;

/// The styling dialog of a layer. Bounds, breaks and widths are kept as the
/// bits of floating-point numbers, colour maps by the caller's number.
#[derive(Debug)]
pub struct StyleDialog {
    pub layer_id: u64,
    pub column: String,
    pub numeric: bool,
    pub ramp: u32,
    pub method: ClassMethod,
    pub classes: usize,
    pub per_area: bool,
    pub min: u64,
    pub max: u64,
    /// None while rows are being classified.
    pub breaks: Option<Result<Vec<u64>, String>>,
    /// None while values are being read.
    pub categories: Option<Result<Vec<String>, String>>,
    pub color_map: Option<u64>,
    pub use_color_map: bool,
    pub width_by: bool,
    pub width_min: u32,
    pub width_max: u32,
}

/// What selecting a column leaves to be done.
#[derive(Clone, Copy, PartialEq, Eq, Structural, Debug)]
pub enum StyleStep {
    Nothing,
    /// Classify a sample of the loaded rows, of at most this many.
    Classify { rows: usize },
    /// Compute the breaks from the bounds.
    Bounds,
}

/// What is known of the column selected.
#[derive(Clone, Copy, PartialEq, Eq, Structural, Debug)]
pub struct ColumnFacts {
    /// Whether it is numeric; none where the layer has no such column.
    pub numeric: Option<bool>,
    /// Its position is known.
    pub indexed: bool,
    /// The colour map its name stands for.
    pub map: Option<u64>,
}

// --- opening -------------------------------------------------------------------------------

/// The style by value a layer has.
#[derive(Debug)]
pub struct ActiveStyle {
    pub column: String,
    pub ramp: u32,
    pub per_area: bool,
    /// Method and number of breaks of a graduated style.
    pub graduated: Option<Graduation>,
    pub width: Option<(u32, u32)>,
}

/// The classes of a graduated style.
#[derive(Clone, Copy, PartialEq, Eq, Structural, Debug)]
pub struct Graduation {
    pub method: ClassMethod,
    pub breaks: usize,
}

/// What a style starts from: the first ramp, and classes of equal width.
#[derive(Clone, Copy, PartialEq, Eq, Structural, Debug)]
pub struct StyleDefaults {
    pub ramp: u32,
    pub method: ClassMethod,
}

/// Classes a style starts with.
pub const DEFAULT_CLASSES: usize = 8;

/// The bits of the double 1.
pub const ONE: u64 = 0x3ff0_0000_0000_0000;

/// Line widths a style starts with, 0.6 and 4 pixels, as the bits of
/// single-precision numbers.
pub const THIN: u32 = 0x3f19_999a;

pub const THICK: u32 = 0x4080_0000;

/// The first numeric column from `i` on, or the end.
pub open spec fn numeric_from(cols: Seq<ValueColumn>, i: int) -> int
    decreases cols.len() - i,
{
    if i >= cols.len() {
        cols.len() as int
    } else if cols[i].numeric {
        i
    } else {
        numeric_from(cols, i + 1)
    }
}

/// The column a dialog opens on: the one in use, else the first numeric one,
/// else the first.
pub open spec fn opening_column(cols: Seq<ValueColumn>, active: Option<ActiveStyle>) -> Seq<char> {
    match active {
        Some(a) => a.column@,
        None => if numeric_from(cols, 0) < cols.len() {
            cols[numeric_from(cols, 0)].name@
        } else {
            cols[0].name@
        },
    }
}

/// The dialog as it opens for a layer with these columns.
pub open spec fn opened_dialog(
    d: StyleDialog,
    layer_id: u64,
    cols: Seq<ValueColumn>,
    active: Option<ActiveStyle>,
    defaults: StyleDefaults,
) -> bool {
    &&& d.layer_id == layer_id
    &&& d.column@ == opening_column(cols, active)
    &&& d.numeric
    &&& d.ramp == match active {
        Some(a) => a.ramp,
        None => defaults.ramp,
    }
    &&& (d.method, d.classes) == match active {
        Some(a) => match a.graduated {
            Some(g) => (g.method, (g.breaks + 1) as usize),
            None => (defaults.method, DEFAULT_CLASSES),
        },
        None => (defaults.method, DEFAULT_CLASSES),
    }
    &&& d.per_area == (active matches Some(a) && a.per_area)
    &&& d.min == 0 && d.max == ONE
    &&& d.breaks is None && d.categories is None && d.color_map is None && d.use_color_map
    &&& (d.width_by, d.width_min, d.width_max) == match active {
        Some(a) => match a.width {
            Some((lo, hi)) => (true, lo, hi),
            None => (false, THIN, THICK),
        },
        None => (false, THIN, THICK),
    }
}

fn first_numeric(cols: &Vec<ValueColumn>) -> (r: usize)
    requires
        cols@.len() > 0,
    ensures
        r == if numeric_from(cols@, 0) < cols@.len() {
            numeric_from(cols@, 0)
        } else {
            0
        },
{
    let mut i: usize = 0;
    while i < cols.len()
        invariant
            i <= cols@.len(),
            numeric_from(cols@, 0) == numeric_from(cols@, i as int),
        decreases cols@.len() - i,
    {
        if cols[i].numeric {
            return i;
        }
        i += 1;
    }
    0
}

impl StyleDialog {
    /// Open the dialog of a layer; an error where nothing can be styled by.
    /// [`Self::select_column`] has to follow.
    pub fn open(
        layer_id: u64,
        layer_name: &str,
        cols: &Vec<ValueColumn>,
        active: &Option<ActiveStyle>,
        defaults: StyleDefaults,
    ) -> (r: Result<StyleDialog, String>)
        requires
            *active matches Some(a) ==> (a.graduated matches Some(g) ==> g.breaks < usize::MAX),
        ensures
            match r {
                Ok(d) => cols@.len() > 0 && opened_dialog(d, layer_id, cols@, *active, defaults),
                Err(e) => cols@.len() == 0 && e@ == layer_name@ + ": no styleable columns"@,
            },
    {
        if cols.len() == 0 {
            return Err(cat2(layer_name, ": no styleable columns"));
        }
        let mut d = StyleDialog {
            layer_id,
            column: String::new(),
            numeric: true,
            ramp: defaults.ramp,
            method: defaults.method,
            classes: DEFAULT_CLASSES,
            per_area: false,
            min: 0,
            max: ONE,
            breaks: None,
            categories: None,
            color_map: None,
            use_color_map: true,
            width_by: false,
            width_min: THIN,
            width_max: THICK,
        };
        match active {
            Some(a) => {
                d.column = a.column.as_str().to_owned();
                d.ramp = a.ramp;
                d.per_area = a.per_area;
                if let Some(g) = a.graduated {
                    d.method = g.method;
                    d.classes = g.breaks + 1;
                }
                if let Some((lo, hi)) = a.width {
                    d.width_by = true;
                    d.width_min = lo;
                    d.width_max = hi;
                }
            },
            None => {
                d.column = cols[first_numeric(cols)].name.as_str().to_owned();
            },
        }
        Ok(d)
    }
}

/// A colour-map file without classes.
pub fn no_classes_text(path: &str) -> (r: String)
    ensures
        r@ == path@ + ": no colour classes found"@,
{
    cat2(path, ": no colour classes found")
}

/// The columns whose values were asked for: each is read once.
#[derive(Debug)]
pub struct CategoryScans {
    pub started: Vec<(u64, String)>,
}

impl CategoryScans {
    /// The values of this column were asked for.
    pub open spec fn has(self, layer_id: u64, column: Seq<char>) -> bool {
        exists|k: int|
            0 <= k < self.started@.len() && (#[trigger] self.started@[k]).0 == layer_id
                && self.started@[k].1@ == column
    }

    pub fn new() -> (r: CategoryScans)
        ensures
            forall|id: u64, c: Seq<char>| !#[trigger] r.has(id, c),
    {
        CategoryScans { started: Vec::new() }
    }

    fn asked(&self, layer_id: u64, column: &str) -> (r: bool)
        ensures
            r == self.has(layer_id, column@),
    {
        let mut i: usize = 0;
        while i < self.started.len()
            invariant
                i <= self.started@.len(),
                forall|k: int|
                    0 <= k < i ==> !((#[trigger] self.started@[k]).0 == layer_id
                        && self.started@[k].1@ == column@),
            decreases self.started@.len() - i,
        {
            if self.started[i].0 == layer_id && same(self.started[i].1.as_str(), column) {
                assert(self.started@[i as int].0 == layer_id);
                return true;
            }
            i += 1;
        }
        false
    }

    /// Ask for the values of a column; says whether they have to be read.
    pub fn begin(&mut self, layer_id: u64, column: &str) -> (read: bool)
        ensures
            read == !old(self).has(layer_id, column@),
            forall|id: u64, c: Seq<char>| #[trigger]
                final(self).has(id, c) <==> old(self).has(id, c) || (id == layer_id && c == column@),
    {
        let ghost before = *self;
        if self.asked(layer_id, column) {
            return false;
        }
        self.started.push((layer_id, column.to_owned()));
        assert forall|id: u64, c: Seq<char>| #[trigger] self.has(id, c) <==> before.has(id, c) || (id
            == layer_id && c == column@) by {
            let n = before.started@.len() as int;
            assert(self.started@[n].0 == layer_id && self.started@[n].1@ == column@);
            if before.has(id, c) {
                let k = choose|k: int|
                    0 <= k < before.started@.len() && (#[trigger] before.started@[k]).0 == id
                        && before.started@[k].1@ == c;
                assert(self.started@[k] == before.started@[k]);
            }
            if self.has(id, c) {
                let k = choose|k: int|
                    0 <= k < self.started@.len() && (#[trigger] self.started@[k]).0 == id
                        && self.started@[k].1@ == c;
                if k < n {
                    assert(before.started@[k] == self.started@[k]);
                }
            }
        }
        true
    }
}

/// Rows to sample.
pub open spec fn sample_cap(per_area: bool) -> usize {
    if per_area {
        SAMPLE_ROWS_PER_AREA
    } else {
        SAMPLE_ROWS
    }
}

/// See [`sample_cap`].
pub fn sample_rows(per_area: bool) -> (r: usize)
    ensures
        r == sample_cap(per_area),
{
    if per_area {
        SAMPLE_ROWS_PER_AREA
    } else {
        SAMPLE_ROWS
    }
}

/// The step after a column was selected.
pub open spec fn step_of(d: StyleDialog, f: ColumnFacts) -> StyleStep {
    match f.numeric {
        Some(true) => if d.method.needs_values || d.per_area {
            if f.indexed {
                StyleStep::Classify { rows: sample_cap(d.per_area) }
            } else {
                StyleStep::Nothing
            }
        } else {
            StyleStep::Bounds
        },
        _ => StyleStep::Nothing,
    }
}

/// The dialog after a column was selected; `range` are the column's bounds.
pub open spec fn selected(d: StyleDialog, f: ColumnFacts, range: Option<(u64, u64)>) -> StyleDialog {
    match f.numeric {
        None => d,
        Some(numeric) => StyleDialog {
            numeric,
            categories: None,
            color_map: if numeric {
                None
            } else {
                f.map
            },
            use_color_map: true,
            breaks: None,
            min: match range {
                Some((lo, _)) => if numeric {
                    lo
                } else {
                    d.min
                },
                None => d.min,
            },
            max: match range {
                Some((_, hi)) => if numeric {
                    hi
                } else {
                    d.max
                },
                None => d.max,
            },
            ..d
        },
    }
}

impl StyleDialog {
    /// Settle what the column selected is; says what is left to be done.
    pub fn select_column(&mut self, f: ColumnFacts, range: Option<(u64, u64)>) -> (r: StyleStep)
        ensures
            *final(self) == selected(*old(self), f, range),
            r == step_of(*old(self), f),
    {
        let numeric = match f.numeric {
            Some(n) => n,
            None => return StyleStep::Nothing,
        };
        self.numeric = numeric;
        self.categories = None;
        self.color_map = None;
        self.use_color_map = true;
        self.breaks = None;
        if numeric {
            if let Some((lo, hi)) = range {
                self.min = lo;
                self.max = hi;
            }
            if self.method.needs_values || self.per_area {
                if f.indexed {
                    return StyleStep::Classify { rows: sample_rows(self.per_area) };
                }
                return StyleStep::Nothing;
            }
            return StyleStep::Bounds;
        }
        self.color_map = f.map;
        StyleStep::Nothing
    }

    /// Take in breaks that were computed, where the dialog still waits for
    /// them.
    pub fn on_classes(&mut self, layer_id: u64, column: &str, res: Result<Vec<u64>, String>)
        ensures
            *final(self) == if old(self).layer_id == layer_id && old(self).column@ == column@ && old(
                self,
            ).numeric && (old(self).method.needs_values || old(self).per_area) {
                StyleDialog { breaks: Some(res), ..*old(self) }
            } else {
                *old(self)
            },
    {
        if self.layer_id == layer_id && same(self.column.as_str(), column) && self.numeric && (
        self.method.needs_values || self.per_area) {
            self.breaks = Some(res);
        }
    }

    /// Take in the values of a text column, and the colour map they stand
    /// for, where the dialog still shows it.
    pub fn on_categories(
        &mut self,
        layer_id: u64,
        column: &str,
        res: Result<Vec<String>, String>,
        map: Option<u64>,
    )
        ensures
            *final(self) == if old(self).layer_id == layer_id && old(self).column@ == column@ && !old(
                self,
            ).numeric {
                StyleDialog {
                    color_map: if res is Ok {
                        map
                    } else {
                        None
                    },
                    categories: Some(res),
                    ..*old(self)
                }
            } else {
                *old(self)
            },
    {
        if self.layer_id == layer_id && same(self.column.as_str(), column) && !self.numeric {
            self.color_map = match &res {
                Ok(_) => map,
                Err(_) => None,
            };
            self.categories = Some(res);
        }
    }

    /// Use a colour map that was loaded.
    pub fn adopt_map(&mut self, map: u64)
        ensures
            *final(self) == (StyleDialog {
                color_map: Some(map),
                use_color_map: true,
                ..*old(self)
            }),
    {
        self.color_map = Some(map);
        self.use_color_map = true;
    }

    /// The colour map in use.
    pub open spec fn map_used(self) -> Option<u64> {
        if self.use_color_map {
            self.color_map
        } else {
            None
        }
    }

    /// Whether the values have to be read: the generic palette is shown and
    /// has nothing to show yet.
    pub fn wants_categories(&self) -> (r: bool)
        ensures
            r == (!self.numeric && self.map_used() is None && self.categories is None),
    {
        !self.numeric && !(self.use_color_map && self.color_map.is_some()) && self.categories.is_none()
    }

    /// The style can be applied: breaks are there, or classes are, from a
    /// colour map or from values that were read.
    pub open spec fn can_apply(self) -> bool {
        if self.numeric {
            self.breaks matches Some(Ok(_))
        } else {
            self.map_used() is Some || (self.categories matches Some(Ok(v)) && v@.len() > 0)
        }
    }

    /// See [`Self::can_apply`].
    pub fn ready(&self) -> (r: bool)
        ensures
            r == self.can_apply(),
    {
        if self.numeric {
            match &self.breaks {
                Some(Ok(_)) => true,
                _ => false,
            }
        } else {
            (self.use_color_map && self.color_map.is_some()) || match &self.categories {
                Some(Ok(v)) => v.len() > 0,
                _ => false,
            }
        }
    }

    /// Classes the preview shows: as many as will be drawn.
    pub fn preview_classes(&self) -> (r: usize)
        requires
            self.breaks matches Some(Ok(b)) ==> b@.len() < usize::MAX,
        ensures
            r == match self.breaks {
                Some(Ok(b)) => if b@.len() + 1 < 2 {
                    2
                } else {
                    b@.len() + 1
                },
                _ => if self.classes < 2 {
                    2
                } else {
                    self.classes as nat
                },
            },
    {
        let n: usize = match &self.breaks {
            Some(Ok(b)) => b.len() + 1,
            _ => self.classes,
        };
        if n < 2 {
            2
        } else {
            n
        }
    }
}

/// A style by value.
#[derive(Debug)]
pub struct StyleChoice {
    pub column: String,
    pub ramp: u32,
    pub per_area: bool,
    pub graduated: bool,
    pub method: ClassMethod,
    /// Breaks of a graduated style.
    pub breaks: Vec<u64>,
    /// Values of a categorical one, and the colour map it takes.
    pub values: Vec<String>,
    pub map: Option<u64>,
    /// Line widths of the first and the last class.
    pub width: Option<(u32, u32)>,
    /// Loaded rows the classes were computed from, where they were.
    pub classified_rows: Option<usize>,
    /// The classes not shown, one bit each.
    pub hidden_bins: u64,
}

fn copy_numbers(v: &Vec<u64>) -> (r: Vec<u64>)
    ensures
        r@ == v@,
{
    let mut out: Vec<u64> = Vec::new();
    let mut i: usize = 0;
    while i < v.len()
        invariant
            i <= v@.len(),
            out@ =~= v@.subrange(0, i as int),
        decreases v@.len() - i,
    {
        out.push(v[i]);
        i += 1;
    }
    assert(out@ =~= v@);
    out
}

impl StyleDialog {
    /// The style to apply, all of its classes shown; `loaded_rows` are the
    /// layer's rows right now.
    pub fn apply(&self, loaded_rows: usize) -> (r: StyleChoice)
        ensures
            r.column == self.column,
            r.ramp == self.ramp,
            r.hidden_bins == 0,
            r.per_area == (self.per_area && self.numeric),
            r.graduated == self.numeric,
            r.method == self.method,
            r.breaks@ == match self.breaks {
                Some(Ok(b)) => if self.numeric {
                    b@
                } else {
                    Seq::empty()
                },
                _ => Seq::empty(),
            },
            r.values@ == match self.categories {
                Some(Ok(v)) => if self.numeric {
                    Seq::empty()
                } else {
                    v@
                },
                _ => Seq::empty(),
            },
            r.map == if self.numeric {
                None
            } else {
                self.map_used()
            },
            r.width == if self.numeric && self.width_by {
                Some((self.width_min, self.width_max))
            } else {
                None
            },
            r.classified_rows == if self.numeric && (self.method.needs_values || self.per_area) {
                Some(loaded_rows)
            } else {
                None
            },
    {
        let breaks = match &self.breaks {
            Some(Ok(b)) => if self.numeric {
                copy_numbers(b)
            } else {
                Vec::new()
            },
            _ => Vec::new(),
        };
        let values = match &self.categories {
            Some(Ok(v)) => if self.numeric {
                Vec::new()
            } else {
                copy_texts(v)
            },
            _ => Vec::new(),
        };
        let map = if self.numeric || !self.use_color_map {
            None
        } else {
            self.color_map
        };
        let width = if self.numeric && self.width_by {
            Some((self.width_min, self.width_max))
        } else {
            None
        };
        let classified_rows = if self.numeric && (self.method.needs_values || self.per_area) {
            Some(loaded_rows)
        } else {
            None
        };
        StyleChoice {
            column: self.column.clone(),
            ramp: self.ramp,
            per_area: self.per_area && self.numeric,
            graduated: self.numeric,
            method: self.method,
            breaks,
            values,
            map,
            width,
            classified_rows,
            hidden_bins: 0,
        }
    }
}

/// Whether applying a style needs new meshes: not where column and classes
/// stay, so that swapping a ramp is free. `same_classes` compares the classes
/// of a style in use.
pub fn needs_rebuild(current: Option<&str>, column: &str, same_classes: bool) -> (r: bool)
    ensures
        r == match current {
            Some(c) => c@ != column@ || !same_classes,
            None => true,
        },
{
    match current {
        Some(c) => !same(c, column) || !same_classes,
        None => true,
    }
}

// --- reclassifying from the viewport --------------------------------------------------

/// What the caller knows of a layer to reclassify.
#[derive(Clone, Copy, PartialEq, Eq, Structural, Debug)]
pub struct ReclassFacts {
    /// It has a graduated style on a column it has.
    pub graduated: bool,
    pub per_area: bool,
    /// The viewport has a place in its coordinate system.
    pub mapped: bool,
    /// Its row groups have boxes.
    pub boxed: bool,
    /// Some row group lies under the viewport.
    pub touched: bool,
}

/// How a reclassification goes on.
#[derive(Debug)]
pub enum ReclassStep {
    Nothing,
    Error(String),
    Sample { rows: usize },
}

/// Decide whether a layer can be classified from the viewport.
pub fn reclassify_step(name: &str, f: ReclassFacts) -> (r: ReclassStep)
    ensures
        match r {
            ReclassStep::Nothing => !f.graduated,
            ReclassStep::Error(e) => f.graduated && if !f.mapped {
                e@ == name@ + ": viewport does not map into the layer's CRS"@
            } else if !f.boxed {
                e@ == name@
                    + ": no row-group spatial extents — viewport reclassification needs a spatially indexed file"@
            } else {
                !f.touched && e@ == name@ + ": no data under the current viewport"@
            },
            ReclassStep::Sample { rows } => f.graduated && f.mapped && f.boxed && f.touched && rows
                == sample_cap(f.per_area),
        },
{
    if !f.graduated {
        return ReclassStep::Nothing;
    }
    if !f.mapped {
        return ReclassStep::Error(cat2(name, ": viewport does not map into the layer's CRS"));
    }
    if !f.boxed {
        return ReclassStep::Error(
            cat2(
                name,
                ": no row-group spatial extents — viewport reclassification needs a spatially indexed file",
            ),
        );
    }
    if !f.touched {
        return ReclassStep::Error(cat2(name, ": no data under the current viewport"));
    }
    ReclassStep::Sample { rows: sample_rows(f.per_area) }
}

// --- the legend -------------------------------------------------------------------------

/// Whether class `bin` is hidden.
pub open spec fn bin_hidden(mask: u64, bin: u8) -> bool {
    mask & (1u64 << bin) != 0
}

/// See [`bin_hidden`].
pub fn is_hidden(mask: u64, bin: u8) -> (r: bool)
    requires
        bin < 64,
    ensures
        r == bin_hidden(mask, bin),
{
    mask & (1u64 << bin) != 0
}

/// Hide a class that is shown, show one that is hidden.
pub fn toggle_bin(mask: u64, bin: u8) -> (r: u64)
    requires
        bin < 64,
    ensures
        r == mask ^ (1u64 << bin),
        bin_hidden(r, bin) == !bin_hidden(mask, bin),
        forall|b: u8| b < 64 && b != bin ==> #[trigger] bin_hidden(r, b) == bin_hidden(mask, b),
{
    let r: u64 = mask ^ (1u64 << bin);
    proof {
        assert((mask ^ (1u64 << bin)) & (1u64 << bin) != 0 <==> mask & (1u64 << bin) == 0) by (
        bit_vector)
            requires
                bin < 64,
        ;
        assert forall|b: u8| b < 64 && b != bin implies #[trigger] bin_hidden(r, b) == bin_hidden(
            mask,
            b,
        ) by {
            assert((mask ^ (1u64 << bin)) & (1u64 << b) == mask & (1u64 << b)) by (bit_vector)
                requires
                    bin < 64,
                    b < 64,
                    b != bin,
            ;
        }
    }
    r
}

/// A class hidden and shown again leaves the legend as it was.
pub proof fn toggling_twice_changes_nothing(mask: u64, bin: u8)
    requires
        bin < 64,
    ensures
        (mask ^ (1u64 << bin)) ^ (1u64 << bin) == mask,
{
    assert((mask ^ (1u64 << bin)) ^ (1u64 << bin) == mask) by (bit_vector)
        requires
            bin < 64,
    ;
}

/// The labels of the classes between breaks with these labels.
pub open spec fn class_labels(breaks: Seq<Seq<char>>) -> Seq<Seq<char>> {
    if breaks.len() == 0 {
        Seq::empty()
    } else {
        Seq::new(
            breaks.len() + 1,
            |i: int|
                if i == 0 {
                    "< "@ + breaks[0]
                } else if i == breaks.len() {
                    "≥ "@ + breaks.last()
                } else {
                    breaks[i - 1] + " – "@ + breaks[i]
                },
        )
    }
}

/// See [`class_labels`].
pub fn graduated_labels(breaks: &Vec<String>) -> (r: Vec<String>)
    ensures
        texts(r@) == class_labels(texts(breaks@)),
{
    let mut out: Vec<String> = Vec::new();
    let n: usize = breaks.len();
    let ghost b = texts(breaks@);
    let ghost all = class_labels(b);
    if n == 0 {
        assert(texts(out@) =~= all);
        return out;
    }
    push_text(&mut out, cat2("< ", breaks[0].as_str()));
    let mut i: usize = 1;
    assert(texts(out@) =~= all.subrange(0, 1));
    while i < n
        invariant
            1 <= i <= n,
            n == breaks@.len(),
            b == texts(breaks@),
            all == class_labels(b),
            texts(out@) == all.subrange(0, i as int),
        decreases n - i,
    {
        push_text(&mut out, cat3(breaks[i - 1].as_str(), " – ", breaks[i].as_str()));
        assert(all.subrange(0, i + 1) =~= all.subrange(0, i as int).push(all[i as int]));
        assert(b[i - 1] == breaks@[i - 1]@ && b[i as int] == breaks@[i as int]@);
        i += 1;
    }
    push_text(&mut out, cat2("≥ ", breaks[n - 1].as_str()));
    assert(b.last() == breaks@[n - 1]@);
    assert(texts(out@) =~= all);
    out
}

/// The labels of categories: the names given for them, the values themselves
/// where there are none, and "(other)" at the end.
pub fn categorical_labels(values: &Vec<String>, names: &Option<Vec<String>>) -> (r: Vec<String>)
    ensures
        texts(r@).len() == values@.len() + 1,
        texts(r@).last() == "(other)"@,
        forall|i: int|
            0 <= i < values@.len() ==> #[trigger] texts(r@)[i] == match *names {
                Some(l) => if i < l@.len() {
                    l@[i]@
                } else {
                    values@[i]@
                },
                None => values@[i]@,
            },
{
    let mut out: Vec<String> = Vec::new();
    let mut i: usize = 0;
    while i < values.len()
        invariant
            i <= values@.len(),
            texts(out@).len() == i,
            forall|k: int|
                0 <= k < i ==> #[trigger] texts(out@)[k] == match *names {
                    Some(l) => if k < l@.len() {
                        l@[k]@
                    } else {
                        values@[k]@
                    },
                    None => values@[k]@,
                },
        decreases values@.len() - i,
    {
        let label = match names {
            Some(l) => if i < l.len() {
                l[i].clone()
            } else {
                values[i].clone()
            },
            None => values[i].clone(),
        };
        push_text(&mut out, label);
        i += 1;
    }
    push_text(&mut out, "(other)".to_owned());
    out
}

/// "legend — pop / km²".
pub fn legend_title(column: &str, per_area: bool, unit: &str) -> (r: String)
    ensures
        r@ == if per_area {
            "legend — "@ + column@ + " / "@ + unit@
        } else {
            "legend — "@ + column@
        },
{
    if per_area {
        cat4("legend — ", column, " / ", unit)
    } else {
        cat2("legend — ", column)
    }
}

// --- numbers in labels --------------------------------------------------------------------

/// A number printed with a fixed number of decimals, without the zeros at its
/// end, and with its scale's suffix.
pub open spec fn tidied(printed: Seq<char>, suffix: Seq<char>) -> Seq<char> {
    (if occurs("."@, printed) {
        without_trailing(without_trailing(printed, '0'), '.')
    } else {
        printed
    }) + suffix
}

/// See [`tidied`].
pub fn tidy_number(printed: &str, suffix: &str) -> (r: String)
    ensures
        r@ == tidied(printed@, suffix@),
{
    let base = if contains(printed, ".") {
        let t = trim_trailing(printed, '0');
        trim_trailing(t.as_str(), '.')
    } else {
        printed.to_owned()
    };
    cat2(base.as_str(), suffix)
}

/// Neighbouring labels differ wherever the breaks do; `equal[i]` says that
/// breaks `i` and `i + 1` are the same.
pub open spec fn tells_apart(labels: Seq<Seq<char>>, equal: Seq<bool>) -> bool {
    forall|i: int|
        0 <= i < labels.len() - 1 && i < equal.len() ==> equal[i] || #[trigger] labels[i]
            != labels[i + 1]
}

/// See [`tells_apart`].
fn labels_tell_apart(labels: &Vec<String>, equal: &Vec<bool>) -> (r: bool)
    ensures
        r == tells_apart(texts(labels@), equal@),
{
    let ghost t = texts(labels@);
    let mut i: usize = 0;
    while i < labels.len() && i < equal.len()
        invariant
            i <= labels@.len(),
            i <= equal@.len(),
            t == texts(labels@),
            forall|k: int|
                0 <= k < i && k < t.len() - 1 ==> equal@[k] || #[trigger] t[k] != t[k + 1],
        decreases labels@.len() - i,
    {
        if i < labels.len() - 1 && !equal[i] && same(labels[i].as_str(), labels[i + 1].as_str()) {
            assert(t[i as int] == labels@[i as int]@ && t[i + 1] == labels@[i + 1]@);
            assert(!tells_apart(t, equal@));
            return false;
        }
        assert(i < t.len() - 1 ==> t[i as int] == labels@[i as int]@ && t[i + 1] == labels@[i + 1]@);
        i += 1;
    }
    true
}

/// Choose the labels of breaks from lists of growing precision: the first
/// list that tells all distinct neighbours apart, the most precise one where
/// none does. Its position is returned.
pub fn choose_labels(lists: &Vec<Vec<String>>, equal: &Vec<bool>) -> (at: usize)
    requires
        lists@.len() > 0,
    ensures
        at < lists@.len(),
        tells_apart(texts(lists@[at as int]@), equal@) || (at == lists@.len() - 1 && forall|k: int|
            0 <= k < lists@.len() ==> !tells_apart(texts((#[trigger] lists@[k])@), equal@)),
        forall|k: int| 0 <= k < at ==> !tells_apart(texts((#[trigger] lists@[k])@), equal@),
{
    let mut i: usize = 0;
    while i < lists.len()
        invariant
            i <= lists@.len(),
            forall|k: int| 0 <= k < i ==> !tells_apart(texts((#[trigger] lists@[k])@), equal@),
        decreases lists@.len() - i,
    {
        if labels_tell_apart(&lists[i], equal) {
            return i;
        }
        i += 1;
    }
    lists.len() - 1
}

/// The dialog opens on the column in use; where none is, on the first numeric
/// one, or the first.
pub proof fn a_style_opens_on_its_column(cols: Seq<ValueColumn>, active: Option<ActiveStyle>, k: int)
    requires
        0 <= k < cols.len(),
    ensures
        active matches Some(a) ==> opening_column(cols, active) == a.column@,
        active is None && cols[k].numeric && (forall|j: int|
            0 <= j < k ==> !(#[trigger] cols[j]).numeric) ==> opening_column(cols, active)
            == cols[k].name@,
        active is None && (forall|j: int| 0 <= j < cols.len() ==> !(#[trigger] cols[j]).numeric)
            ==> opening_column(cols, active) == cols[0].name@,
{
    numeric_comes_first(cols, 0, k);
}

proof fn numeric_comes_first(cols: Seq<ValueColumn>, i: int, k: int)
    requires
        0 <= i <= cols.len(),
    ensures
        i <= numeric_from(cols, i) <= cols.len(),
        numeric_from(cols, i) < cols.len() ==> cols[numeric_from(cols, i)].numeric,
        i <= k < cols.len() && cols[k].numeric ==> numeric_from(cols, i) <= k,
    decreases cols.len() - i,
{
    if i < cols.len() && !cols[i].numeric {
        numeric_comes_first(cols, i + 1, k);
    }
}

/// Selecting a column forgets the classes of the one before, and takes the
/// colour map and the bounds it has. Values are sampled where the classes need
/// them, from an indexed file; otherwise the bounds do.
pub proof fn a_column_brings_its_own_classes(d: StyleDialog, f: ColumnFacts, range: Option<(u64, u64)>)
    ensures
        f.numeric is None ==> selected(d, f, range) == d && step_of(d, f) is Nothing,
        f.numeric matches Some(n) ==> {
            let s = selected(d, f, range);
            &&& s.numeric == n
            &&& s.breaks is None && s.categories is None && s.use_color_map
            &&& n ==> s.color_map is None
            &&& !n ==> s.color_map == f.map
            &&& n ==> (range matches Some((lo, hi)) ==> s.min == lo && s.max == hi)
            &&& !n || range is None ==> s.min == d.min && s.max == d.max
            &&& s.column == d.column && s.method == d.method && s.classes == d.classes && s.ramp
                == d.ramp && s.per_area == d.per_area && s.layer_id == d.layer_id
        },
        step_of(d, f) is Classify <==> f.numeric == Some(true) && (d.method.needs_values || d.per_area)
            && f.indexed,
        step_of(d, f) is Bounds <==> f.numeric == Some(true) && !d.method.needs_values
            && !d.per_area,
        step_of(d, f) matches StyleStep::Classify { rows } ==> rows == (if d.per_area {
            20_000usize
        } else {
            50_000
        }),
{
}

/// A style can be applied once its classes are known: breaks of numbers,
/// values of the others or a colour map in use.
pub proof fn a_style_needs_classes(d: StyleDialog)
    ensures
        d.can_apply() <==> if d.numeric {
            d.breaks is Some && d.breaks->0 is Ok
        } else {
            (d.use_color_map && d.color_map is Some) || (d.categories is Some && d.categories->0 is Ok
                && d.categories->0->Ok_0@.len() > 0)
        },
        d.map_used() is Some <==> d.use_color_map && d.color_map is Some,
        d.map_used() is Some ==> d.map_used() == d.color_map,
{
}

/// Between n breaks there are n + 1 classes; each label names the break it
/// starts at, and the break it ends at.
pub proof fn every_class_has_its_label(breaks: Seq<Seq<char>>, i: int)
    requires
        breaks.len() > 0,
        0 <= i <= breaks.len(),
    ensures
        class_labels(breaks).len() == breaks.len() + 1,
        i == 0 ==> class_labels(breaks)[i] == "< "@ + breaks[0],
        i == breaks.len() ==> class_labels(breaks)[i] == "≥ "@ + breaks[breaks.len() - 1],
        0 < i < breaks.len() ==> class_labels(breaks)[i] == breaks[i - 1] + " – "@ + breaks[i],
{
}

/// A class is hidden by its own bit: hiding or showing one changes no other.
pub proof fn classes_are_hidden_one_by_one(mask: u64, a: u8, b: u8)
    requires
        a < 64,
        b < 64,
    ensures
        bin_hidden(mask ^ (1u64 << a), a) == !bin_hidden(mask, a),
        a != b ==> bin_hidden(mask ^ (1u64 << a), b) == bin_hidden(mask, b),
        !bin_hidden(0, a),
{
    assert(((mask ^ (1u64 << a)) & (1u64 << a) != 0) == !(mask & (1u64 << a) != 0)) by (bit_vector)
        requires
            a < 64,
    ;
    assert(a != b ==> ((mask ^ (1u64 << a)) & (1u64 << b) != 0) == (mask & (1u64 << b) != 0))
        by (bit_vector)
        requires
            a < 64,
            b < 64,
    ;
    assert(0u64 & (1u64 << a) == 0) by (bit_vector);
}

/// A printed number loses the zeros after its point and nothing before it; its
/// scale's suffix follows.
pub proof fn only_needless_zeros_go(whole: Seq<char>, fraction: Seq<char>, zeros: Seq<char>, suffix: Seq<char>)
    requires
        !whole.contains('.'),
        fraction.len() > 0 ==> fraction.last() != '0' && !fraction.contains('.'),
        whole.len() > 0,
        forall|k: int| 0 <= k < zeros.len() ==> #[trigger] zeros[k] == '0',
    ensures
        fraction.len() > 0 ==> tidied(whole + "."@ + fraction + zeros, suffix) == whole + "."@
            + fraction + suffix,
        fraction.len() == 0 ==> tidied(whole + "."@ + zeros, suffix) == whole + suffix,
        tidied(whole, suffix) == whole + suffix,
{
    reveal_strlit(".");
    let dot = "."@;
    let empty = Seq::<char>::empty();
    assert(!occurs(dot, whole)) by {
        if occurs(dot, whole) {
            let i = choose|i: int| crate::text::occurs_at(dot, whole, i);
            assert(whole[i] == whole.subrange(i, i + 1)[0]);
            assert(whole.contains('.'));
        }
    }
    let a = whole + dot + fraction + zeros;
    assert(crate::text::occurs_at(dot, a, whole.len() as int)) by {
        assert(a.subrange(whole.len() as int, whole.len() as int + 1) =~= dot);
    }
    let b = whole + dot + zeros;
    assert(crate::text::occurs_at(dot, b, whole.len() as int)) by {
        assert(b.subrange(whole.len() as int, whole.len() as int + 1) =~= dot);
    }
    if fraction.len() > 0 {
        let base = whole + dot + fraction;
        assert(base.last() == fraction.last());
        crate::text::a_tail_is_taken_off(base, zeros, '0');
        assert(fraction.last() != '.') by {
            assert(fraction.contains(fraction.last()));
        }
        crate::text::a_tail_is_taken_off(base, empty, '.');
        assert(base + empty =~= base);
    } else {
        let base = whole + dot;
        assert(base.last() == '.');
        crate::text::a_tail_is_taken_off(base, zeros, '0');
        assert(whole.last() != '.') by {
            assert(whole.contains(whole.last()));
        }
        crate::text::a_tail_is_taken_off(whole, dot, '.');
    }
}

/// A style dialog opens on what the layer's style is made of: its column, ramp,
/// method, number of classes and widths; without one, on 8 classes of the usual
/// method, and widths from 0x3f19999a to 0x40800000 as bits, 0.6 and 4. Nothing
/// is classified yet.
pub proof fn a_dialog_opens_on_the_style_there_is(
    d: StyleDialog,
    layer_id: u64,
    cols: Seq<ValueColumn>,
    active: Option<ActiveStyle>,
    defaults: StyleDefaults,
)
    requires
        opened_dialog(d, layer_id, cols, active, defaults),
    ensures
        d.layer_id == layer_id,
        d.breaks is None && d.categories is None && d.color_map is None && d.use_color_map,
        active is None ==> d.ramp == defaults.ramp && d.method == defaults.method && d.classes == 8
            && !d.per_area && !d.width_by && d.width_min == 0x3f19_999a && d.width_max == 0x4080_0000,
        active matches Some(a) ==> d.ramp == a.ramp && d.per_area == a.per_area && (d.width_by
            <==> a.width is Some),
        active matches Some(a) ==> (a.width matches Some((lo, hi)) ==> d.width_min == lo && d.width_max
            == hi),
        active matches Some(a) ==> (a.graduated matches Some(g) ==> d.method == g.method && (g.breaks
            < usize::MAX ==> d.classes == g.breaks + 1)),
        active matches Some(a) ==> (a.graduated is None ==> d.method == defaults.method && d.classes == 8),
        d.min == 0 && d.max == 0x3ff0_0000_0000_0000,
{
}

/// Values are sampled from 50 000 rows, and from 20 000 where the area of each
/// has to be measured too.
pub proof fn samples_are_bounded(per_area: bool)
    ensures
        per_area ==> sample_cap(per_area) == 20_000,
        !per_area ==> sample_cap(per_area) == 50_000,
{
}

/// The labels of two neighbouring classes are told apart wherever the breaks
/// between them are.
pub proof fn neighbours_are_told_apart(labels: Seq<Seq<char>>, equal: Seq<bool>, i: int)
    requires
        tells_apart(labels, equal),
        0 <= i < labels.len() - 1,
        i < equal.len(),
        !equal[i],
    ensures
        labels[i] != labels[i + 1],
{
}

} // verus!
