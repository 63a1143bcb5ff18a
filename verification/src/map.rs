//! What the map draws, in which order and under which keys, and what it says
//! beside it.
use vstd::prelude::*;
use crate::layers::{Layer, LayerState};
use crate::session::{Session, ViewSettings, ViewerApp};
use crate::tally::{lists, lists_one_more};
use crate::text::{cat2, dec, decimal, list_has, push_text, texts, texts_with};

verus! {

broadcast use vstd::std_specs::hash::group_hash_axioms;

/// Keys of what is drawn besides layers.
pub const HIGHLIGHT_KEY: u64 = 0xffff_ffff_ffff_ffff;

pub const SQL_HIGHLIGHT_KEY: u64 = 0xffff_ffff_ffff_fffe;

pub const GRATICULE_KEY: u64 = 0xffff_ffff_ffff_fffd;

pub const COASTLINE_KEY: u64 = 0xffff_ffff_ffff_fffc;

/// Row-group boxes of a layer: this, with the layer's id in the low bits.
pub const RG_OVERLAY_BASE: u64 = 0x4000_0000_0000_0000;

/// The key of a layer's section.
pub open spec fn key_of_section(layer_id: u64, section: u64) -> u64 {
    layer_id | (((section + 1) as u64) << 40u64)
}

/// Stable key of a layer's section.
pub fn section_key(layer_id: u64, section: usize) -> (r: u64)
    requires
        section < u64::MAX,
    ensures
        r == key_of_section(layer_id, section as u64),
{
    layer_id | ((section as u64 + 1) << 40u64)
}

/// The key of a layer's row-group boxes.
pub open spec fn key_of_boxes(layer_id: u64) -> u64 {
    RG_OVERLAY_BASE | layer_id
}

/// Ids and sections that keys have room for: 2^40 layers of 2^22 - 1 sections.
pub open spec fn keyable(layer_id: u64, section: u64) -> bool {
    layer_id < 0x100_0000_0000 && section < 0x3f_ffff
}

/// Sections have different keys, which are none of the overlays'.
pub proof fn section_keys_do_not_collide(a: u64, s: u64, b: u64, t: u64)
    requires
        keyable(a, s),
        keyable(b, t),
    ensures
        key_of_section(a, s) == key_of_section(b, t) ==> a == b && s == t,
        key_of_section(a, s) != key_of_boxes(b),
        key_of_section(a, s) < COASTLINE_KEY,
{
    let x: u64 = (s + 1) as u64;
    let y: u64 = (t + 1) as u64;
    assert(a | (x << 40u64) == b | (y << 40u64) ==> a == b && x == y) by (bit_vector)
        requires
            a < 0x100_0000_0000,
            b < 0x100_0000_0000,
            x <= 0x3f_ffff,
            y <= 0x3f_ffff,
    ;
    assert(a | (x << 40u64) != 0x4000_0000_0000_0000u64 | b) by (bit_vector)
        requires
            a < 0x100_0000_0000,
            b < 0x100_0000_0000,
            x <= 0x3f_ffff,
    ;
    assert(a | (x << 40u64) < 0xffff_ffff_ffff_fffcu64) by (bit_vector)
        requires
            a < 0x100_0000_0000,
            x <= 0x3f_ffff,
    ;
}

/// Row-group boxes of different layers have different keys, which are none of
/// the overlays'.
pub proof fn box_keys_do_not_collide(a: u64, b: u64)
    requires
        keyable(a, 0),
        keyable(b, 0),
    ensures
        key_of_boxes(a) == key_of_boxes(b) ==> a == b,
        key_of_boxes(a) < COASTLINE_KEY,
{
    assert(0x4000_0000_0000_0000u64 | a == 0x4000_0000_0000_0000u64 | b ==> a == b) by (bit_vector)
        requires
            a < 0x100_0000_0000,
            b < 0x100_0000_0000,
    ;
    assert(0x4000_0000_0000_0000u64 | a < 0xffff_ffff_ffff_fffcu64) by (bit_vector)
        requires
            a < 0x100_0000_0000,
    ;
}

// --- styles ---------------------------------------------------------------------------

/// A colour with opacity, each part in hundredths.
#[derive(Clone, Copy, PartialEq, Eq, Structural, Debug)]
pub struct Ink {
    pub r: u8,
    pub g: u8,
    pub b: u8,
    pub a: u8,
}

/// How something is drawn besides layers; widths in hundredths of a pixel.
#[derive(Clone, Copy, PartialEq, Eq, Structural, Debug)]
pub struct DrawStyle {
    pub fill: Ink,
    pub line: Ink,
    pub point: Ink,
    pub line_half_width: u16,
    pub point_radius: u16,
}

pub open spec fn ink(r: u8, g: u8, b: u8, a: u8) -> Ink {
    Ink { r, g, b, a }
}

/// Lines alone, of this colour and half width.
pub open spec fn lines_only(line: Ink, half_width: u16) -> DrawStyle {
    DrawStyle {
        fill: ink(0, 0, 0, 0),
        line,
        point: ink(0, 0, 0, 0),
        line_half_width: half_width,
        point_radius: 0,
    }
}

fn line_style(line: Ink, half_width: u16) -> (r: DrawStyle)
    ensures
        r == lines_only(line, half_width),
{
    let clear = Ink { r: 0, g: 0, b: 0, a: 0 };
    DrawStyle { fill: clear, line, point: clear, line_half_width: half_width, point_radius: 0 }
}

/// The graticule: thin grey lines.
pub fn graticule_style(dark: bool) -> (r: DrawStyle)
    ensures
        r == lines_only(
            if dark {
                ink(42, 42, 42, 45)
            } else {
                ink(55, 55, 55, 45)
            },
            40,
        ),
{
    let g: u8 = if dark {
        42
    } else {
        55
    };
    line_style(Ink { r: g, g, b: g, a: 45 }, 40)
}

/// The coastline: a little heavier, bluish.
pub fn coastline_style(dark: bool) -> (r: DrawStyle)
    ensures
        r == lines_only(
            if dark {
                ink(62, 66, 70, 85)
            } else {
                ink(35, 38, 42, 85)
            },
            50,
        ),
{
    let c = if dark {
        Ink { r: 62, g: 66, b: 70, a: 85 }
    } else {
        Ink { r: 35, g: 38, b: 42, a: 85 }
    };
    line_style(c, 50)
}

/// Row-group boxes: orange outlines.
pub fn boxes_style() -> (r: DrawStyle)
    ensures
        r == lines_only(ink(95, 55, 10, 90), 80),
{
    line_style(Ink { r: 95, g: 55, b: 10, a: 90 }, 80)
}

/// The rows checked in the SQL console: cyan.
pub fn sql_highlight_style() -> (r: DrawStyle)
    ensures
        r == (DrawStyle {
            fill: ink(5, 75, 95, 35),
            line: ink(10, 85, 100, 100),
            point: ink(10, 85, 100, 100),
            line_half_width: 180,
            point_radius: 600,
        }),
{
    let line = Ink { r: 10, g: 85, b: 100, a: 100 };
    DrawStyle {
        fill: Ink { r: 5, g: 75, b: 95, a: 35 },
        line,
        point: line,
        line_half_width: 180,
        point_radius: 600,
    }
}

/// The picked feature: amber.
pub fn highlight_style() -> (r: DrawStyle)
    ensures
        r == (DrawStyle {
            fill: ink(100, 75, 5, 40),
            line: ink(100, 80, 10, 100),
            point: ink(100, 80, 10, 100),
            line_half_width: 180,
            point_radius: 600,
        }),
{
    let line = Ink { r: 100, g: 80, b: 10, a: 100 };
    DrawStyle {
        fill: Ink { r: 100, g: 75, b: 5, a: 40 },
        line,
        point: line,
        line_half_width: 180,
        point_radius: 600,
    }
}

/// A colour in bytes, its parts scaled by its opacity.
#[derive(Clone, Copy, PartialEq, Eq, Structural, Debug)]
pub struct Rgba8 {
    pub r: u8,
    pub g: u8,
    pub b: u8,
    pub a: u8,
}

/// Black of this opacity.
pub open spec fn black(a: u8) -> Rgba8 {
    Rgba8 { r: 0, g: 0, b: 0, a }
}

/// White of this opacity.
pub open spec fn white(a: u8) -> Rgba8 {
    Rgba8 { r: a, g: a, b: a, a }
}

/// Text and plate of the credits, which have to be legible over any map.
pub fn credit_colors(dark: bool) -> (r: (Rgba8, Rgba8))
    ensures
        r == if dark {
            (white(200), black(180))
        } else {
            (black(200), white(200))
        },
{
    if dark {
        (Rgba8 { r: 200, g: 200, b: 200, a: 200 }, Rgba8 { r: 0, g: 0, b: 0, a: 180 })
    } else {
        (Rgba8 { r: 0, g: 0, b: 0, a: 200 }, Rgba8 { r: 200, g: 200, b: 200, a: 200 })
    }
}

/// The map's background, and that of a saved drawing.
pub fn map_background(dark: bool) -> (r: Rgba8)
    ensures
        r == if dark {
            (Rgba8 { r: 24, g: 24, b: 28, a: 255 })
        } else {
            (Rgba8 { r: 244, g: 243, b: 240, a: 255 })
        },
{
    if dark {
        Rgba8 { r: 24, g: 24, b: 28, a: 255 }
    } else {
        Rgba8 { r: 244, g: 243, b: 240, a: 255 }
    }
}

// --- the draw list ----------------------------------------------------------------------

/// Something drawn.
#[derive(Clone, Copy, PartialEq, Eq, Structural, Debug)]
pub enum DrawItem {
    Graticule,
    Coastline,
    /// A section of a layer.
    Section { layer_id: u64, section: usize },
    RowGroupBoxes { layer_id: u64 },
    SqlHighlight,
    Highlight,
}

/// A draw call: what, the key and generation it is cached under, and the
/// group it is composited in.
#[derive(Clone, Copy, PartialEq, Eq, Structural, Debug)]
pub struct Draw {
    pub item: DrawItem,
    pub key: u64,
    pub generation: u64,
    pub group: u64,
}

impl Session {
    /// The layer is on the map: shown, and in the current projection. One
    /// whose sections are merged only keeps its place on screen.
    pub open spec fn on_map(self, l: LayerState) -> bool {
        l.visible && (!self.work.rebuilding.contains(l.id) || self.work.consolidating.contains(l.id))
    }

    /// The layer's row-group boxes are on the map.
    pub open spec fn boxes_on_map(self, l: LayerState) -> bool {
        l.visible && l.show_boxes && !self.work.rebuilding.contains(l.id) && l.boxes is Some
    }
}

/// The sections of a layer.
pub open spec fn section_draws(l: LayerState) -> Seq<Draw> {
    Seq::new(
        l.sections as nat,
        |k: int|
            Draw {
                item: DrawItem::Section { layer_id: l.id, section: k as usize },
                key: key_of_section(l.id, k as u64),
                generation: l.draw_gen,
                group: l.id,
            },
    )
}

/// The sections of the first `n` layers on the map, bottom-most first.
pub open spec fn layer_draws(s: Session, n: nat) -> Seq<Draw>
    decreases n,
{
    if n == 0 {
        Seq::empty()
    } else {
        let before = layer_draws(s, (n - 1) as nat);
        if s.on_map(s.layers[n - 1]) {
            before + section_draws(s.layers[n - 1])
        } else {
            before
        }
    }
}

/// The row-group boxes of the first `n` layers.
pub open spec fn box_draws(s: Session, n: nat) -> Seq<Draw>
    decreases n,
{
    if n == 0 {
        Seq::empty()
    } else {
        let before = box_draws(s, (n - 1) as nat);
        let l = s.layers[n - 1];
        if s.boxes_on_map(l) {
            before.push(
                Draw {
                    item: DrawItem::RowGroupBoxes { layer_id: l.id },
                    key: key_of_boxes(l.id),
                    generation: l.generation,
                    group: key_of_boxes(l.id),
                },
            )
        } else {
            before
        }
    }
}

/// One draw call or none.
pub open spec fn draw_if(on: bool, d: Draw) -> Seq<Draw> {
    if on {
        seq![d]
    } else {
        Seq::empty()
    }
}

/// Everything drawn, in order: graticule and coastline, the layers, the
/// row-group boxes above them, and the highlights on top.
pub open spec fn drawn(s: Session, graticule: bool, coastline: bool) -> Seq<Draw> {
    let grid = Draw {
        item: DrawItem::Graticule,
        key: GRATICULE_KEY,
        generation: s.cam.graticule_generation,
        group: GRATICULE_KEY,
    };
    let coast = Draw {
        item: DrawItem::Coastline,
        key: COASTLINE_KEY,
        generation: s.cam.graticule_generation,
        group: COASTLINE_KEY,
    };
    let sql = Draw {
        item: DrawItem::SqlHighlight,
        key: SQL_HIGHLIGHT_KEY,
        generation: s.pick.sql_highlight_generation,
        group: SQL_HIGHLIGHT_KEY,
    };
    let picked = Draw {
        item: DrawItem::Highlight,
        key: HIGHLIGHT_KEY,
        generation: s.pick.selection_generation,
        group: HIGHLIGHT_KEY,
    };
    draw_if(s.view.show_graticule && graticule, grid) + draw_if(
        s.view.show_coastline && coastline,
        coast,
    ) + layer_draws(s, s.layers.len()) + box_draws(s, s.layers.len()) + draw_if(
        s.pick.sql_highlight,
        sql,
    ) + draw_if(s.pick.highlight, picked)
}

fn push_sections(out: &mut Vec<Draw>, l: &Layer)
    ensures
        final(out)@ == old(out)@ + section_draws(l@),
{
    let mut k: usize = 0;
    let ghost all = section_draws(l@);
    let ghost before = out@;
    while k < l.sections
        invariant
            k <= l.sections,
            all == section_draws(l@),
            out@ =~= before + all.subrange(0, k as int),
        decreases l.sections - k,
    {
        out.push(
            Draw {
                item: DrawItem::Section { layer_id: l.id, section: k },
                key: section_key(l.id, k),
                generation: l.draw_gen,
                group: l.id,
            },
        );
        assert(all.subrange(0, k + 1) =~= all.subrange(0, k as int).push(all[k as int]));
        k += 1;
    }
    assert(all.subrange(0, k as int) =~= all);
}

impl ViewerApp {
    /// Whether layer `i` is on the map.
    pub fn is_on_map(&self, i: usize) -> (r: bool)
        requires
            i < self@.layers.len(),
        ensures
            r == self@.on_map(self@.layers[i as int]),
    {
        let l = &self.layers[i];
        l.visible && (!self.work.rebuilding.contains(&l.id) || self.work.consolidating.contains(
            &l.id,
        ))
    }

    fn push_layers(&self, out: &mut Vec<Draw>)
        ensures
            final(out)@ == old(out)@ + layer_draws(self@, self@.layers.len()),
    {
        let ghost before = out@;
        let mut i: usize = 0;
        assert(before + layer_draws(self@, 0) =~= before);
        while i < self.layers.len()
            invariant
                i <= self.layers@.len(),
                out@ =~= before + layer_draws(self@, i as nat),
            decreases self.layers@.len() - i,
        {
            if self.is_on_map(i) {
                push_sections(out, &self.layers[i]);
            }
            i += 1;
        }
    }

    fn push_boxes(&self, out: &mut Vec<Draw>)
        ensures
            final(out)@ == old(out)@ + box_draws(self@, self@.layers.len()),
    {
        let ghost before = out@;
        let mut i: usize = 0;
        assert(before + box_draws(self@, 0) =~= before);
        while i < self.layers.len()
            invariant
                i <= self.layers@.len(),
                out@ =~= before + box_draws(self@, i as nat),
            decreases self.layers@.len() - i,
        {
            let l = &self.layers[i];
            if l.visible && l.show_boxes && !self.work.rebuilding.contains(&l.id) && l.boxes.is_some() {
                let key: u64 = RG_OVERLAY_BASE | l.id;
                out.push(
                    Draw {
                        item: DrawItem::RowGroupBoxes { layer_id: l.id },
                        key,
                        generation: l.generation,
                        group: key,
                    },
                );
            }
            i += 1;
        }
    }

    /// What to draw this frame, in order; `graticule` and `coastline` say
    /// that those overlays have lines to draw.
    pub fn draw_list(&self, graticule: bool, coastline: bool) -> (r: Vec<Draw>)
        ensures
            r@ == drawn(self@, graticule, coastline),
    {
        let mut out: Vec<Draw> = Vec::new();
        let generation: u64 = self.cam.graticule_generation;
        if self.view.show_graticule && graticule {
            out.push(
                Draw { item: DrawItem::Graticule, key: GRATICULE_KEY, generation, group: GRATICULE_KEY },
            );
        }
        if self.view.show_coastline && coastline {
            out.push(
                Draw { item: DrawItem::Coastline, key: COASTLINE_KEY, generation, group: COASTLINE_KEY },
            );
        }
        self.push_layers(&mut out);
        self.push_boxes(&mut out);
        if self.pick.sql_highlight {
            out.push(
                Draw {
                    item: DrawItem::SqlHighlight,
                    key: SQL_HIGHLIGHT_KEY,
                    generation: self.pick.sql_highlight_generation,
                    group: SQL_HIGHLIGHT_KEY,
                },
            );
        }
        if self.pick.highlight {
            out.push(
                Draw {
                    item: DrawItem::Highlight,
                    key: HIGHLIGHT_KEY,
                    generation: self.pick.selection_generation,
                    group: HIGHLIGHT_KEY,
                },
            );
        }
        assert(out@ =~= drawn(self@, graticule, coastline));
        out
    }

    /// Whether the cached boxes of a layer are kept: it is there and shows
    /// them.
    pub fn keeps_overlay(&self, id: u64) -> (r: bool)
        ensures
            r == exists|k: int|
                0 <= k < self@.layers.len() && (#[trigger] self@.layers[k]).id == id
                    && self@.layers[k].show_boxes,
    {
        let mut i: usize = 0;
        while i < self.layers.len()
            invariant
                i <= self.layers@.len(),
                forall|k: int|
                    0 <= k < i ==> !((#[trigger] self@.layers[k]).id == id && self@.layers[k].show_boxes),
            decreases self.layers@.len() - i,
        {
            assert(self@.layers[i as int] == self.layers@[i as int]@);
            if self.layers[i].id == id && self.layers[i].show_boxes {
                return true;
            }
            i += 1;
        }
        false
    }
}

/// What is cached for a layer that exists: its sections and its boxes.
pub open spec fn alive_of(l: LayerState) -> Seq<(u64, u64)> {
    Seq::new(l.sections as nat, |k: int| (key_of_section(l.id, k as u64), l.draw_gen)).push(
        (key_of_boxes(l.id), l.generation),
    )
}

/// What is cached for the first `n` layers.
pub open spec fn alive_first(layers: Seq<LayerState>, n: nat) -> Seq<(u64, u64)>
    decreases n,
{
    if n == 0 {
        Seq::empty()
    } else {
        alive_first(layers, (n - 1) as nat) + alive_of(layers[n - 1])
    }
}

impl ViewerApp {
    /// Keys and generations the renderer must keep.
    pub fn alive_keys(&self) -> (r: Vec<(u64, u64)>)
        ensures
            r@ == alive_first(self@.layers, self@.layers.len()),
    {
        let mut out: Vec<(u64, u64)> = Vec::new();
        let mut i: usize = 0;
        while i < self.layers.len()
            invariant
                i <= self.layers@.len(),
                out@ =~= alive_first(self@.layers, i as nat),
            decreases self.layers@.len() - i,
        {
            let l = &self.layers[i];
            let ghost before = out@;
            let ghost all = Seq::new(
                l.sections as nat,
                |k: int| (key_of_section(l.id, k as u64), l.draw_gen),
            );
            let mut k: usize = 0;
            while k < l.sections
                invariant
                    k <= l.sections,
                    all == Seq::new(
                        l.sections as nat,
                        |k: int| (key_of_section(l.id, k as u64), l.draw_gen),
                    ),
                    out@ =~= before + all.subrange(0, k as int),
                decreases l.sections - k,
            {
                out.push((section_key(l.id, k), l.draw_gen));
                assert(all.subrange(0, k + 1) =~= all.subrange(0, k as int).push(all[k as int]));
                k += 1;
            }
            assert(all.subrange(0, k as int) =~= all);
            out.push((RG_OVERLAY_BASE | l.id, l.generation));
            assert(out@ =~= before + alive_of(self@.layers[i as int]));
            i += 1;
        }
        out
    }
}

/// Whatever of a layer is drawn is also kept.
pub proof fn drawn_sections_are_kept(l: LayerState, k: int)
    requires
        0 <= k < l.sections,
    ensures
        alive_of(l).contains((section_draws(l)[k].key, section_draws(l)[k].generation)),
{
    assert(alive_of(l)[k] == (section_draws(l)[k].key, section_draws(l)[k].generation));
}

/// A section's copy can be freed: it was uploaded, and not freed before.
pub open spec fn freeable(l: LayerState, k: int, uploaded: Seq<bool>, freed: Seq<(u64, u64)>) -> bool {
    uploaded[k] && !freed.contains((key_of_section(l.id, k as u64), l.draw_gen))
}

/// The sections of a layer among the first `n` whose copies can be freed.
pub open spec fn freeable_first(
    l: LayerState,
    uploaded: Seq<bool>,
    freed: Seq<(u64, u64)>,
    n: nat,
) -> Seq<usize>
    decreases n,
{
    if n == 0 {
        Seq::empty()
    } else {
        let before = freeable_first(l, uploaded, freed, (n - 1) as nat);
        if freeable(l, n - 1, uploaded, freed) {
            before.push((n - 1) as usize)
        } else {
            before
        }
    }
}

fn has_key(v: &Vec<(u64, u64)>, key: u64, generation: u64) -> (r: bool)
    ensures
        r == v@.contains((key, generation)),
{
    let mut i: usize = 0;
    while i < v.len()
        invariant
            i <= v@.len(),
            forall|k: int| 0 <= k < i ==> #[trigger] v@[k] != (key, generation),
        decreases v@.len() - i,
    {
        if v[i].0 == key && v[i].1 == generation {
            assert(v@[i as int] == (key, generation));
            return true;
        }
        i += 1;
    }
    false
}

impl ViewerApp {
    /// The sections of layer `i` whose copies in memory can be freed now:
    /// those the renderer has `uploaded`, which were not `freed` before. A
    /// layer being rebuilt keeps its own.
    pub fn strip_uploaded(&self, i: usize, uploaded: &Vec<bool>, freed: &Vec<(u64, u64)>) -> (r: Vec<usize>)
        requires
            i < self@.layers.len(),
            uploaded@.len() == self@.layers[i as int].sections,
        ensures
            r@ == if self@.work.rebuilding.contains(self@.layers[i as int].id) {
                Seq::empty()
            } else {
                freeable_first(self@.layers[i as int], uploaded@, freed@, uploaded@.len())
            },
    {
        let l = &self.layers[i];
        let mut out: Vec<usize> = Vec::new();
        if self.work.rebuilding.contains(&l.id) {
            assert(out@ =~= Seq::empty());
            return out;
        }
        let ghost state = self@.layers[i as int];
        assert(state == l@);
        let mut k: usize = 0;
        while k < uploaded.len()
            invariant
                k <= uploaded@.len(),
                state == l@,
                out@ == freeable_first(state, uploaded@, freed@, k as nat),
            decreases uploaded@.len() - k,
        {
            if uploaded[k] && !has_key(freed, section_key(l.id, k), l.draw_gen) {
                out.push(k);
            }
            k += 1;
        }
        out
    }
}

/// Whether row-group boxes are numbered on the map: not when there are many.
pub fn boxes_numbered(n: usize) -> (r: bool)
    ensures
        r == (n <= 64),
{
    n <= 64
}

/// "rg 7".
pub fn box_label(i: usize) -> (r: String)
    ensures
        r@ == "rg "@ + decimal(i as nat),
{
    let d = dec(i as u64);
    cat2("rg ", d.as_str())
}

// --- credits ------------------------------------------------------------------------------

/// The credits of the first `n` layers after those of `base`, each once.
pub open spec fn credits_first(base: Seq<Seq<char>>, layers: Seq<LayerState>, n: nat) -> Seq<Seq<char>>
    decreases n,
{
    if n == 0 {
        base
    } else {
        let before = credits_first(base, layers, (n - 1) as nat);
        match layers[n - 1].credit {
            Some(c) => if layers[n - 1].visible {
                texts_with(before, c@)
            } else {
                before
            },
            None => before,
        }
    }
}

impl ViewerApp {
    /// The credits to show: the basemap's, where one is drawn, then one per
    /// visible layer that asks for one.
    pub fn credits(&self, basemap: Option<&str>) -> (r: Vec<String>)
        ensures
            texts(r@) == credits_first(
                match basemap {
                    Some(b) => seq![b@],
                    None => Seq::empty(),
                },
                self@.layers,
                self@.layers.len(),
            ),
    {
        let mut out: Vec<String> = Vec::new();
        if let Some(b) = basemap {
            push_text(&mut out, b.to_owned());
        }
        let ghost base = texts(out@);
        assert(base =~= match basemap {
            Some(b) => seq![b@],
            None => Seq::empty(),
        });
        let mut i: usize = 0;
        while i < self.layers.len()
            invariant
                i <= self.layers@.len(),
                texts(out@) == credits_first(base, self@.layers, i as nat),
            decreases self.layers@.len() - i,
        {
            assert(self@.layers[i as int] == self.layers@[i as int]@);
            if self.layers[i].visible {
                if let Some(c) = &self.layers[i].credit {
                    if !list_has(&out, c.as_str()) {
                        push_text(&mut out, c.clone());
                    }
                }
            }
            i += 1;
        }
        out
    }
}

/// Every visible layer that asks for a credit gets it, whatever else is shown.
pub proof fn every_credit_is_given(base: Seq<Seq<char>>, layers: Seq<LayerState>, n: nat, k: int)
    requires
        0 <= k < n <= layers.len(),
        layers[k].visible,
        layers[k].credit is Some,
    ensures
        credits_first(base, layers, n).contains(layers[k].credit->0@),
    decreases n,
{
    let before = credits_first(base, layers, (n - 1) as nat);
    let c = layers[k].credit->0@;
    if k == n - 1 {
        if !before.contains(c) {
            assert(before.push(c)[before.len() as int] == c);
        }
    } else {
        every_credit_is_given(base, layers, (n - 1) as nat, k);
        let at = choose|i: int| 0 <= i < before.len() && before[i] == c;
        assert(credits_first(base, layers, n)[at] == c);
    }
}

// --- the basemap -----------------------------------------------------------------------------

/// How the raster basemap meets the display projection.
#[derive(Debug)]
pub enum BasemapPlan {
    /// Drawn as it is.
    Mercator(usize),
    /// Reprojected, by the plan the caller keeps under the number. The source
    /// may be the label-free twin of the one selected.
    Warped(usize, u64),
    /// No tiles, with the reason where there is one to show.
    Off(Option<String>),
}

impl BasemapPlan {
    /// The tile source on screen.
    pub fn drawn_source(&self) -> (r: Option<usize>)
        ensures
            r == match *self {
                BasemapPlan::Mercator(s) => Some(s),
                BasemapPlan::Warped(s, _) => Some(s),
                BasemapPlan::Off(_) => None,
            },
    {
        match self {
            BasemapPlan::Mercator(s) => Some(*s),
            BasemapPlan::Warped(s, _) => Some(*s),
            BasemapPlan::Off(_) => None,
        }
    }
}

/// A way to reproject tiles, and whether place names survive it.
#[derive(Debug)]
pub struct WarpPlan {
    pub handle: u64,
    pub labels_survive: bool,
}

/// Why a source with place names is not drawn.
pub open spec fn sheared_labels() -> Seq<char> {
    "no tiles: this source draws its place names into the pixels, which this projection would shear. Pick a \"no labels\" source."@
}

/// Decide how the basemap is drawn: `warp` is the way to reproject it, or why
/// there is none; `labels` says that the source draws place names, `twin` is
/// the same source without them.
pub fn basemap_plan(
    selected: Option<usize>,
    mercator: bool,
    warp: Result<WarpPlan, String>,
    labels: bool,
    twin: Option<usize>,
) -> (r: BasemapPlan)
    ensures
        match selected {
            None => r == BasemapPlan::Off(None),
            Some(src) => if mercator {
                r == BasemapPlan::Mercator(src)
            } else {
                match warp {
                    Err(e) => r == BasemapPlan::Off(Some(e)),
                    Ok(w) => if !labels || w.labels_survive {
                        r == BasemapPlan::Warped(src, w.handle)
                    } else {
                        match twin {
                            Some(t) => r == BasemapPlan::Warped(t, w.handle),
                            None => r matches BasemapPlan::Off(Some(e)) && e@ == sheared_labels(),
                        }
                    },
                }
            },
        },
{
    let src: usize = match selected {
        Some(s) => s,
        None => return BasemapPlan::Off(None),
    };
    if mercator {
        return BasemapPlan::Mercator(src);
    }
    match warp {
        Err(e) => BasemapPlan::Off(Some(e)),
        Ok(w) => {
            if !labels || w.labels_survive {
                return BasemapPlan::Warped(src, w.handle);
            }
            match twin {
                Some(t) => BasemapPlan::Warped(t, w.handle),
                None => BasemapPlan::Off(
                    Some(
                        "no tiles: this source draws its place names into the pixels, which this projection would shear. Pick a \"no labels\" source.".to_owned(),
                    ),
                ),
            }
        },
    }
}

/// Why the map may not match the basemap selected; `drawn_name` is the name
/// of the source drawn.
pub fn basemap_note(plan: &BasemapPlan, selected: Option<usize>, drawn_name: &str) -> (r: Option<String>)
    ensures
        match (*plan, selected) {
            (BasemapPlan::Off(Some(why)), _) => r == Some(why),
            (BasemapPlan::Warped(drawn, _), Some(picked)) => if drawn != picked {
                r matches Some(t) && t@ == "drawn as "@ + drawn_name@
            } else {
                r is None
            },
            _ => r is None,
        },
{
    match plan {
        BasemapPlan::Off(Some(why)) => Some(why.clone()),
        BasemapPlan::Warped(drawn, _) => match selected {
            Some(picked) => if *drawn != picked {
                Some(cat2("drawn as ", drawn_name))
            } else {
                None
            },
            None => None,
        },
        _ => None,
    }
}

impl ViewSettings {
    /// Switch the basemap off, or on to the source last chosen.
    pub fn toggle_basemap(&mut self, on: bool)
        ensures
            *final(self) == (ViewSettings {
                basemap: if on {
                    Some(old(self).last_basemap)
                } else {
                    None
                },
                ..*old(self)
            }),
    {
        self.basemap = if on {
            Some(self.last_basemap)
        } else {
            None
        };
    }

    /// Choose a basemap, or none.
    pub fn select_basemap(&mut self, source: Option<usize>)
        ensures
            *final(self) == (ViewSettings {
                basemap: source,
                last_basemap: match source {
                    Some(s) => s,
                    None => old(self).last_basemap,
                },
                ..*old(self)
            }),
    {
        self.basemap = source;
        if let Some(s) = source {
            self.last_basemap = s;
        }
    }
}

/// A section of a layer is drawn if and only if the layer is shown and in the
/// current projection, or only being merged; so every section of a layer on
/// the map is drawn, and nothing of one that is not.
pub proof fn what_is_on_the_map_is_drawn(s: Session, n: nat, i: int, k: int)
    requires
        n <= s.layers.len(),
    ensures
        0 <= i < n && 0 <= k < s.layers[i].sections && s.layers[i].visible && (
        !s.work.rebuilding.contains(s.layers[i].id) || s.work.consolidating.contains(s.layers[i].id))
            ==> exists|d: Draw| #[trigger]
            layer_draws(s, n).contains(d) && d.item == (DrawItem::Section {
                layer_id: s.layers[i].id,
                section: k as usize,
            }) && d.generation == s.layers[i].draw_gen && d.group == s.layers[i].id,
        forall|d: Draw| #[trigger]
            layer_draws(s, n).contains(d) ==> exists|j: int|
                0 <= j < n && drawn_section_of(s, #[trigger] s.layers[j], d),
    decreases n,
{
    if n > 0 {
        let m = (n - 1) as nat;
        what_is_on_the_map_is_drawn(s, m, i, k);
        let before = layer_draws(s, m);
        let after = layer_draws(s, n);
        let l = s.layers[n - 1];
        assert forall|d: Draw| before.contains(d) implies #[trigger] after.contains(d) by {
            let x = before.index_of(d);
            assert(after[x] == d);
        }
        assert forall|d: Draw| #[trigger] after.contains(d) implies exists|j: int|
            0 <= j < n && drawn_section_of(s, #[trigger] s.layers[j], d) by {
            let x = after.index_of(d);
            if x < before.len() {
                assert(before[x] == d);
                assert(before.contains(d));
                let j = choose|j: int| 0 <= j < m && drawn_section_of(s, #[trigger] s.layers[j], d);
                assert(drawn_section_of(s, s.layers[j], d));
            } else {
                assert(d == section_draws(l)[x - before.len()]);
                assert(drawn_section_of(s, s.layers[n - 1], d));
            }
        }
        if 0 <= i < m && 0 <= k < s.layers[i].sections && s.layers[i].visible && (
        !s.work.rebuilding.contains(s.layers[i].id) || s.work.consolidating.contains(
            s.layers[i].id,
        )) {
            let d = choose|d: Draw| #[trigger]
                before.contains(d) && d.item == (DrawItem::Section {
                    layer_id: s.layers[i].id,
                    section: k as usize,
                }) && d.generation == s.layers[i].draw_gen && d.group == s.layers[i].id;
            assert(after.contains(d));
        }
        if i == m && 0 <= k < l.sections && l.visible && (!s.work.rebuilding.contains(l.id)
            || s.work.consolidating.contains(l.id)) {
            let d = after[before.len() + k];
            assert(d == section_draws(l)[k]);
            assert(after.contains(d));
        }
    }
}

/// The draw call is of a section of this layer, which is on the map.
pub open spec fn drawn_section_of(s: Session, l: LayerState, d: Draw) -> bool {
    &&& l.visible
    &&& !s.work.rebuilding.contains(l.id) || s.work.consolidating.contains(l.id)
    &&& d.item matches DrawItem::Section { layer_id, section } && layer_id == l.id && section
        < l.sections
}

/// What is drawn below is what lies below: the sections of a layer come after
/// those of the layers under it, in the order of their numbers.
pub proof fn layers_are_drawn_in_order(s: Session, m: nat, n: nat)
    requires
        m <= n <= s.layers.len(),
    ensures
        layer_draws(s, m).is_prefix_of(layer_draws(s, n)),
    decreases n - m,
{
    if m < n {
        layers_are_drawn_in_order(s, m, (n - 1) as nat);
        let a = layer_draws(s, m);
        let b = layer_draws(s, (n - 1) as nat);
        let c = layer_draws(s, n);
        assert(c.subrange(0, b.len() as int) =~= b);
        assert(c.subrange(0, a.len() as int) =~= b.subrange(0, a.len() as int));
    } else {
        let a = layer_draws(s, m);
        assert(a.subrange(0, a.len() as int) =~= a);
    }
}

/// The map from the bottom up: graticule and coastline where they are switched
/// on and have lines, then layers, then row-group boxes, and on top the rows
/// checked in the console and the picked feature, while there are any.
pub proof fn the_map_is_stacked(s: Session, graticule: bool, coastline: bool)
    ensures
        ({
            let d = drawn(s, graticule, coastline);
            let g = if s.view.show_graticule && graticule { 1int } else { 0 };
            let c = if s.view.show_coastline && coastline { 1int } else { 0 };
            let q = if s.pick.sql_highlight { 1int } else { 0 };
            let p = if s.pick.highlight { 1int } else { 0 };
            let l = layer_draws(s, s.layers.len());
            let b = box_draws(s, s.layers.len());
            &&& d.len() == g + c + l.len() + b.len() + q + p
            &&& g == 1 ==> d[0].item is Graticule && d[0].generation == s.cam.graticule_generation
            &&& c == 1 ==> d[g].item is Coastline && d[g].generation == s.cam.graticule_generation
            &&& d.subrange(g + c, g + c + l.len()) == l
            &&& d.subrange(g + c + l.len(), g + c + l.len() + b.len()) == b
            &&& q == 1 ==> d[d.len() - 1 - p].item is SqlHighlight && d[d.len() - 1 - p].generation
                == s.pick.sql_highlight_generation
            &&& p == 1 ==> d.last().item is Highlight && d.last().generation
                == s.pick.selection_generation
        }),
{
    let d = drawn(s, graticule, coastline);
    let g = if s.view.show_graticule && graticule { 1int } else { 0 };
    let c = if s.view.show_coastline && coastline { 1int } else { 0 };
    let l = layer_draws(s, s.layers.len());
    let b = box_draws(s, s.layers.len());
    assert(d.subrange(g + c, g + c + l.len()) =~= l);
    assert(d.subrange(g + c + l.len(), g + c + l.len() + b.len()) =~= b);
}

/// Whatever a layer may draw is kept by the renderer, and nothing of a layer
/// that is gone: what is kept is a section of an existing layer at its current
/// generation, or its boxes.
pub proof fn only_what_exists_is_kept(layers: Seq<LayerState>, n: nat, e: (u64, u64))
    requires
        n <= layers.len(),
    ensures
        alive_first(layers, n).contains(e) <==> exists|i: int|
            0 <= i < n && belongs_to(#[trigger] layers[i], e),
    decreases n,
{
    if n > 0 {
        let m = (n - 1) as nat;
        only_what_exists_is_kept(layers, m, e);
        let before = alive_first(layers, m);
        let after = alive_first(layers, n);
        let l = layers[n - 1];
        let own = alive_of(l);
        if before.contains(e) {
            let x = before.index_of(e);
            assert(after[x] == e);
            let i = choose|i: int| 0 <= i < m && belongs_to(#[trigger] layers[i], e);
            assert(belongs_to(layers[i], e));
        }
        if belongs_to(l, e) {
            if e == (RG_OVERLAY_BASE | l.id, l.generation) {
                assert(own[own.len() - 1] == e);
                assert(after[after.len() - 1] == e);
            } else {
                let k = choose|k: int|
                    0 <= k < l.sections && e == (#[trigger] key_of_section(l.id, k as u64), l.draw_gen);
                assert(own[k] == e);
                assert(after[before.len() + k] == e);
            }
        }
        if after.contains(e) && !before.contains(e) {
            let x = after.index_of(e);
            if x < before.len() {
                assert(before[x] == e);
            }
            assert(own[x - before.len()] == e);
            let k = x - before.len();
            if k < l.sections {
                assert(e == (key_of_section(l.id, k as u64), l.draw_gen));
            }
            assert(belongs_to(layers[n - 1], e));
        }
        if exists|i: int| 0 <= i < n && belongs_to(#[trigger] layers[i], e) {
            let i = choose|i: int| 0 <= i < n && belongs_to(#[trigger] layers[i], e);
            if i < m {
                assert(before.contains(e));
            }
        }
    }
}

/// The entry is of a section of the layer as it is drawn now, or of its boxes.
pub open spec fn belongs_to(l: LayerState, e: (u64, u64)) -> bool {
    ||| e == (RG_OVERLAY_BASE | l.id, l.generation)
    ||| exists|k: int|
        0 <= k < l.sections && e == (#[trigger] key_of_section(l.id, k as u64), l.draw_gen)
}

/// Credits are given once each: what was given before, and those of the layers
/// shown.
pub proof fn credits_are_given_once(base: Seq<Seq<char>>, layers: Seq<LayerState>, n: nat)
    requires
        n <= layers.len(),
        base.no_duplicates(),
    ensures
        credits_first(base, layers, n).no_duplicates(),
        forall|c: Seq<char>| #[trigger]
            credits_first(base, layers, n).contains(c) <==> base.contains(c) || exists|i: int|
                0 <= i < n && (#[trigger] layers[i]).visible && layers[i].credit is Some
                    && layers[i].credit->0@ == c,
    decreases n,
{
    if n > 0 {
        let m = (n - 1) as nat;
        credits_are_given_once(base, layers, m);
        let before = credits_first(base, layers, m);
        let after = credits_first(base, layers, n);
        let l = layers[n - 1];
        if let Some(c) = l.credit {
            crate::text::inserted_contains(before, before.len() as int, c@);
            assert(before.insert(before.len() as int, c@) =~= before.push(c@));
        }
        assert forall|c: Seq<char>| #[trigger] after.contains(c) <==> base.contains(c) || exists|i: int|
            0 <= i < n && (#[trigger] layers[i]).visible && layers[i].credit is Some
                && layers[i].credit->0@ == c by {
            if exists|i: int|
                0 <= i < m && (#[trigger] layers[i]).visible && layers[i].credit is Some
                    && layers[i].credit->0@ == c {
                let i = choose|i: int|
                    0 <= i < m && (#[trigger] layers[i]).visible && layers[i].credit is Some
                        && layers[i].credit->0@ == c;
                assert(layers[i].visible);
            }
            if exists|i: int|
                0 <= i < n && (#[trigger] layers[i]).visible && layers[i].credit is Some
                    && layers[i].credit->0@ == c {
                let i = choose|i: int|
                    0 <= i < n && (#[trigger] layers[i]).visible && layers[i].credit is Some
                        && layers[i].credit->0@ == c;
                if i < m {
                    assert(before.contains(c));
                }
            }
            if after.contains(c) && !before.contains(c) {
                assert(l.visible && l.credit is Some && l.credit->0@ == c);
            }
        }
    }
}

/// Row-group boxes are drawn of every layer that shows them and has them, is
/// itself shown and not being rebuilt, and of no other.
pub proof fn boxes_are_drawn_where_asked(
    s: Session,
    n: nat,
)
    requires
        n <= s.layers.len(),
    ensures
        lists(
            box_draws(s, n),
            n,
            |i: int| s.layers[i].visible && s.layers[i].show_boxes && !s.work.rebuilding.contains(s.layers[i].id) && s.layers[i].boxes is Some,
            |i: int| Draw { item: DrawItem::RowGroupBoxes { layer_id: s.layers[i].id }, key: RG_OVERLAY_BASE | s.layers[i].id, generation: s.layers[i].generation, group: RG_OVERLAY_BASE | s.layers[i].id },
        ),
    decreases n,
{
    if n > 0 {
        boxes_are_drawn_where_asked(s, (n - 1) as nat);
        lists_one_more(
            box_draws(s, (n - 1) as nat),
            box_draws(s, n),
            (n - 1) as nat,
            |i: int| s.layers[i].visible && s.layers[i].show_boxes && !s.work.rebuilding.contains(s.layers[i].id) && s.layers[i].boxes is Some,
            |i: int| Draw { item: DrawItem::RowGroupBoxes { layer_id: s.layers[i].id }, key: RG_OVERLAY_BASE | s.layers[i].id, generation: s.layers[i].generation, group: RG_OVERLAY_BASE | s.layers[i].id },
        );
    }
}

/// The copies freed are of the sections uploaded, unless they were freed at this
/// generation before.
pub proof fn uploaded_copies_are_freed_once(
    l: LayerState,
    uploaded: Seq<bool>,
    freed: Seq<(u64, u64)>,
    n: nat,
)
    requires
        n <= uploaded.len() <= usize::MAX,
    ensures
        lists(
            freeable_first(l, uploaded, freed, n),
            n,
            |i: int| uploaded[i] && !freed.contains((key_of_section(l.id, i as u64), l.draw_gen)),
            |i: int| i as usize,
        ),
    decreases n,
{
    if n > 0 {
        uploaded_copies_are_freed_once(l, uploaded, freed, (n - 1) as nat);
        lists_one_more(
            freeable_first(l, uploaded, freed, (n - 1) as nat),
            freeable_first(l, uploaded, freed, n),
            (n - 1) as nat,
            |i: int| uploaded[i] && !freed.contains((key_of_section(l.id, i as u64), l.draw_gen)),
            |i: int| i as usize,
        );
    }
}

} // verus!
