//! Saved sessions: what is written down of one, and how one is restored.
use std::collections::VecDeque;
use vstd::prelude::*;
use crate::layers::{Layer, LayerState};
use crate::session::{
    CameraPose, CameraState, Effect, Loads, Session, SourceInfo, ViewSettings, ViewerApp, Work,
    OPAQUE,
};
use crate::tables::{AttrTable, Tables};
use crate::text::{cat2, starts_with};

verus! {

broadcast use vstd::std_specs::hash::group_hash_axioms;

/// What is saved of the view. The projection travels beside it, with the
/// caller.
#[derive(Clone, Copy, PartialEq, Eq, Structural, Debug)]
pub struct SavedView {
    pub camera: CameraPose,
    pub basemap: Option<usize>,
    /// As the bits of a single-precision number; absent in older files.
    pub basemap_opacity: Option<u32>,
    pub show_graticule: bool,
    pub show_coastline: bool,
    /// As the bits of a double; absent in older files.
    pub box_threshold_px: Option<u64>,
    pub refine_budget_mb: Option<u32>,
}

/// What is saved of a layer, beside its source.
#[derive(Debug)]
pub struct LayerNote {
    pub layer_id: u64,
    pub style: u64,
    pub filter: Option<String>,
    pub name: String,
}

/// A layer to restore.
#[derive(Debug)]
pub struct SavedLayer {
    pub source: SourceInfo,
    /// Number under which the caller keeps the saved style.
    pub style: u64,
    pub filter: Option<String>,
    pub name: Option<String>,
}

/// What is saved of a table, beside its source.
#[derive(Debug)]
pub struct TableNote {
    pub table_id: u64,
    pub name: String,
}

/// A table to restore: the number under which the caller keeps its source,
/// and the name it was saved under.
#[derive(Debug)]
pub struct SavedTable {
    pub source: u64,
    pub name: String,
}

impl LayerNote {
    /// The layer to restore from a note and the source it was read from.
    pub fn restorable(self, source: SourceInfo) -> (r: SavedLayer)
        ensures
            restores(r, self),
            r.source == source,
    {
        SavedLayer { source, style: self.style, filter: self.filter, name: Some(self.name) }
    }
}

/// The layer to restore is the one that was noted.
pub open spec fn restores(l: SavedLayer, n: LayerNote) -> bool {
    &&& l.style == n.style
    &&& l.filter == n.filter
    &&& l.name == Some(n.name)
}

// --- saving --------------------------------------------------------------------------------

impl Session {
    /// The view as it is saved, the camera being here.
    pub open spec fn saved_view(self, camera: CameraPose) -> SavedView {
        SavedView {
            camera,
            basemap: self.view.basemap,
            basemap_opacity: Some(self.view.basemap_opacity),
            show_graticule: self.view.show_graticule,
            show_coastline: self.view.show_coastline,
            box_threshold_px: Some(self.view.box_threshold_px),
            refine_budget_mb: Some(self.view.refine_budget_mb),
        }
    }
}

/// The note of a layer says what is saved of it.
pub open spec fn notes_layer(n: LayerNote, l: LayerState) -> bool {
    &&& n.layer_id == l.id
    &&& n.style == l.style
    &&& n.name@ == l.name
    &&& match (n.filter, l.filter) {
        (Some(s), Some(f)) => s@ == f.sql@,
        (None, None) => true,
        _ => false,
    }
}

/// The notes say what is saved of the layers, in draw order.
pub open spec fn notes_layers(ns: Seq<LayerNote>, layers: Seq<LayerState>) -> bool {
    &&& ns.len() == layers.len()
    &&& forall|i: int| 0 <= i < ns.len() ==> notes_layer(#[trigger] ns[i], layers[i])
}

/// The notes say what is saved of the tables, in order.
pub open spec fn notes_tables(ns: Seq<TableNote>, ts: Seq<AttrTable>) -> bool {
    &&& ns.len() == ts.len()
    &&& forall|i: int|
        0 <= i < ns.len() ==> (#[trigger] ns[i]).table_id == ts[i].id && ns[i].name@ == ts[i].name@
}

/// The tables to write down, in order.
pub fn save_tables(t: &Tables) -> (r: Vec<TableNote>)
    ensures
        notes_tables(r@, t.tables@),
{
    let mut out: Vec<TableNote> = Vec::new();
    let mut i: usize = 0;
    while i < t.tables.len()
        invariant
            i <= t.tables@.len(),
            out@.len() == i,
            forall|k: int|
                0 <= k < i ==> (#[trigger] out@[k]).table_id == t.tables@[k].id && out@[k].name@
                    == t.tables@[k].name@,
        decreases t.tables@.len() - i,
    {
        out.push(TableNote { table_id: t.tables[i].id, name: t.tables[i].name.as_str().to_owned() });
        i += 1;
    }
    out
}

fn note_of(l: &Layer) -> (r: LayerNote)
    ensures
        notes_layer(r, l@),
{
    let filter = match &l.filter {
        Some(f) => Some(f.sql.as_str().to_owned()),
        None => None,
    };
    LayerNote { layer_id: l.id, style: l.style, filter, name: l.name.as_str().to_owned() }
}

impl ViewerApp {
    /// The view to write down, the camera being here.
    pub fn save_view(&self, camera: CameraPose) -> (r: SavedView)
        ensures
            r == self@.saved_view(camera),
    {
        SavedView {
            camera,
            basemap: self.view.basemap,
            basemap_opacity: Some(self.view.basemap_opacity),
            show_graticule: self.view.show_graticule,
            show_coastline: self.view.show_coastline,
            box_threshold_px: Some(self.view.box_threshold_px),
            refine_budget_mb: Some(self.view.refine_budget_mb),
        }
    }

    /// The layers to write down, in draw order.
    pub fn save_layers(&self) -> (r: Vec<LayerNote>)
        ensures
            notes_layers(r@, self@.layers),
    {
        let mut out: Vec<LayerNote> = Vec::new();
        let mut i: usize = 0;
        while i < self.layers.len()
            invariant
                i <= self.layers@.len(),
                out@.len() == i,
                forall|k: int| 0 <= k < i ==> notes_layer(#[trigger] out@[k], self@.layers[k]),
            decreases self.layers@.len() - i,
        {
            assert(self@.layers[i as int] == self.layers@[i as int]@);
            out.push(note_of(&self.layers[i]));
            i += 1;
        }
        out
    }
}

// --- restoring ------------------------------------------------------------------------------

/// A single-precision number held between 0 and 1, on its bits: what is above 1
/// becomes 1, what is below 0 becomes 0, and a number that is neither, not
/// even a number, stays.
pub open spec fn held_to_unit(bits: u32) -> u32 {
    if 0x3f80_0000 < bits <= 0x7f80_0000 {
        0x3f80_0000
    } else if 0x8000_0000 < bits <= 0xff80_0000 {
        0
    } else {
        bits
    }
}

/// See [`held_to_unit`].
pub fn clamp_opacity(bits: u32) -> (r: u32)
    ensures
        r == held_to_unit(bits),
{
    if 0x3f80_0000 < bits && bits <= 0x7f80_0000 {
        0x3f80_0000
    } else if 0x8000_0000 < bits && bits <= 0xff80_0000 {
        0
    } else {
        bits
    }
}

impl Session {
    /// Camera and view settings as they were saved; what an older file lacks
    /// keeps its value, but for the opacity, which is then full.
    pub open spec fn with_saved_view(self, v: SavedView) -> Session {
        Session {
            outbox: self.outbox.push(Effect::PlaceCamera { camera: v.camera }),
            view: ViewSettings {
                basemap: v.basemap,
                last_basemap: match v.basemap {
                    Some(b) => b,
                    None => self.view.last_basemap,
                },
                basemap_opacity: match v.basemap_opacity {
                    Some(o) => held_to_unit(o),
                    None => OPAQUE,
                },
                show_graticule: v.show_graticule,
                show_coastline: v.show_coastline,
                box_threshold_px: match v.box_threshold_px {
                    Some(px) => px,
                    None => self.view.box_threshold_px,
                },
                refine_budget_mb: match v.refine_budget_mb {
                    Some(mb) => mb,
                    None => self.view.refine_budget_mb,
                },
                ..self.view
            },
            ..self
        }
    }

    /// Nothing is left of what was open, and the display is the saved one,
    /// with the camera where the caller puts it.
    pub open spec fn emptied_for(self, display: u64) -> Session {
        let c = self.cancel_in_flight();
        let s = Session {
            layers: Seq::empty(),
            work: Work { rebuilding: Set::empty(), appending: Set::empty(), ..c.work },
            ..c
        }.emit(Effect::DropTables).clear_selection().set_display(display);
        Session {
            cam: CameraState {
                camera_moved: true,
                pending_fit: false,
                auto_projection: false,
                ..s.cam
            },
            ..s
        }
    }

    /// The saved tables are opened, in order.
    pub open spec fn tables_opened(self, tables: Seq<SavedTable>) -> Session
        decreases tables.len(),
    {
        if tables.len() == 0 {
            self
        } else {
            self.emit(
                Effect::OpenTable { source: tables[0].source, name: Some(tables[0].name) },
            ).tables_opened(tables.subrange(1, tables.len() as int))
        }
    }

    /// A saved layer is loaded; what was saved with it is kept for when it
    /// arrives.
    pub open spec fn layer_restored(self, l: SavedLayer) -> Session {
        let s = self.enqueue_load(l.source);
        let job = self.queue.next_job;
        Session {
            queue: Loads {
                pending_styles: s.queue.pending_styles.insert(job, l.style),
                pending_filters: match l.filter {
                    Some(f) => s.queue.pending_filters.insert(job, f),
                    None => s.queue.pending_filters,
                },
                pending_names: match l.name {
                    Some(n) => s.queue.pending_names.insert(job, n),
                    None => s.queue.pending_names,
                },
                ..s.queue
            },
            ..s
        }
    }

    pub open spec fn layers_restored(self, ls: Seq<SavedLayer>) -> Session
        decreases ls.len(),
    {
        if ls.len() == 0 {
            self
        } else {
            self.layer_restored(ls[0]).layers_restored(ls.subrange(1, ls.len() as int))
        }
    }

    /// A saved session replaces this one: projection first, so that loads
    /// build in the right space, then the view, tables and layers.
    pub open spec fn restored(
        self,
        display: u64,
        v: SavedView,
        tables: Seq<SavedTable>,
        ls: Seq<SavedLayer>,
    ) -> Session {
        self.emptied_for(display).with_saved_view(v).tables_opened(tables).layers_restored(ls)
    }
}

impl ViewerApp {
    fn empty_for(&mut self, display: u64)
        ensures
            final(self)@ == old(self)@.emptied_for(display),
    {
        self.cancel_in_flight();
        self.layers.clear();
        self.work.rebuilding.clear();
        self.work.appending.clear();
        assert(self@.layers =~= Seq::empty());
        self.emit(Effect::DropTables);
        self.clear_selection();
        self.set_display(display);
        self.cam.camera_moved = true;
        self.cam.pending_fit = false;
        self.cam.auto_projection = false;
    }

    fn take_view(&mut self, v: SavedView)
        ensures
            final(self)@ == old(self)@.with_saved_view(v),
    {
        self.emit(Effect::PlaceCamera { camera: v.camera });
        self.view.basemap = v.basemap;
        self.view.basemap_opacity = match v.basemap_opacity {
            Some(o) => clamp_opacity(o),
            None => OPAQUE,
        };
        if let Some(b) = v.basemap {
            self.view.last_basemap = b;
        }
        self.view.show_graticule = v.show_graticule;
        if let Some(px) = v.box_threshold_px {
            self.view.box_threshold_px = px;
        }
        if let Some(mb) = v.refine_budget_mb {
            self.view.refine_budget_mb = mb;
        }
        self.view.show_coastline = v.show_coastline;
    }

    fn restore_layer(&mut self, l: SavedLayer)
        ensures
            final(self)@ == old(self)@.layer_restored(l),
    {
        let job = self.enqueue_load(l.source);
        self.queue.pending_styles.insert(job, l.style);
        if let Some(f) = l.filter {
            self.queue.pending_filters.insert(job, f);
        }
        if let Some(n) = l.name {
            self.queue.pending_names.insert(job, n);
        }
    }

    /// Replace this session by a saved one.
    pub fn restore(
        &mut self,
        display: u64,
        v: SavedView,
        tables: VecDeque<SavedTable>,
        layers: VecDeque<SavedLayer>,
    )
        ensures
            final(self)@ == old(self)@.restored(display, v, tables@, layers@),
    {
        self.empty_for(display);
        self.take_view(v);
        let ghost start = self@;
        let ghost all_tables = tables@;
        let mut left = tables;
        while left.len() > 0
            invariant
                start.tables_opened(all_tables) == self@.tables_opened(left@),
            decreases left@.len(),
        {
            if let Some(t) = left.pop_front() {
                self.emit(Effect::OpenTable { source: t.source, name: Some(t.name) });
            }
        }
        let ghost opened = self@;
        let ghost all = layers@;
        let mut rest = layers;
        while rest.len() > 0
            invariant
                opened.layers_restored(all) == self@.layers_restored(rest@),
            decreases rest@.len(),
        {
            if let Some(l) = rest.pop_front() {
                self.restore_layer(l);
            }
        }
    }
}

/// Whether the projection keeps the name it was saved under: only where the
/// token spells it out, and so gives it no name.
pub fn keeps_projection_name(token: &str) -> (r: bool)
    ensures
        r == "proj4:"@.is_prefix_of(token@),
{
    starts_with(token, "proj4:")
}

/// A session could not be read, or its projection not be made.
pub fn load_failed(e: &str) -> (r: String)
    ensures
        r@ == "context load failed: "@ + e@,
{
    cat2("context load failed: ", e)
}

/// A session could not be written.
pub fn save_failed(e: &str) -> (r: String)
    ensures
        r@ == "context save failed: "@ + e@,
{
    cat2("context save failed: ", e)
}

// --- laws -----------------------------------------------------------------------------------

/// The number of the `i`th job enqueued from now on.
pub open spec fn job_after(next: u64, i: int) -> u64 {
    ((next + i) % 0x1_0000_0000_0000_0000) as u64
}

proof fn loads_leave_alone(s: Session, l: SavedLayer)
    ensures
        s.layer_restored(l).queue.next_job == job_after(s.queue.next_job, 1),
        s.layer_restored(l).view == s.view,
        s.layer_restored(l).cam == s.cam,
        s.layer_restored(l).layers == s.layers,
{
}

/// What was restored before stays while later layers are restored, as their
/// jobs have other numbers.
proof fn earlier_layers_stay(s: Session, ls: Seq<SavedLayer>, job: u64)
    requires
        forall|i: int| 0 <= i < ls.len() ==> #[trigger] job_after(s.queue.next_job, i) != job,
    ensures
        s.layers_restored(ls).queue.pending_styles.contains_pair(
            job,
            s.queue.pending_styles[job],
        ) || !s.queue.pending_styles.contains_key(job),
        s.layers_restored(ls).queue.pending_filters.contains_key(job)
            == s.queue.pending_filters.contains_key(job),
        s.layers_restored(ls).queue.pending_filters[job] == s.queue.pending_filters[job],
        s.layers_restored(ls).queue.pending_names.contains_key(job)
            == s.queue.pending_names.contains_key(job),
        s.layers_restored(ls).queue.pending_names[job] == s.queue.pending_names[job],
        s.layers_restored(ls).queue.loading.contains_key(job) == s.queue.loading.contains_key(job),
        s.layers_restored(ls).queue.loading[job] == s.queue.loading[job],
    decreases ls.len(),
{
    if ls.len() > 0 {
        let t = s.layer_restored(ls[0]);
        let rest = ls.subrange(1, ls.len() as int);
        loads_leave_alone(s, ls[0]);
        assert(job_after(s.queue.next_job, 0) == s.queue.next_job);
        assert forall|i: int| 0 <= i < rest.len() implies #[trigger] job_after(
            t.queue.next_job,
            i,
        ) != job by {
            assert(job_after(s.queue.next_job, i + 1) != job);
            assert(job_after(t.queue.next_job, i) == job_after(s.queue.next_job, i + 1));
        }
        earlier_layers_stay(t, rest, job);
    }
}

/// What a saved layer waits to be given: its style, and its filter and name
/// where it had them.
pub open spec fn awaits(q: Loads, job: u64, l: SavedLayer) -> bool {
    &&& q.pending_styles.contains_pair(job, l.style)
    &&& l.filter matches Some(f) ==> q.pending_filters.contains_pair(job, f)
    &&& l.name matches Some(n) ==> q.pending_names.contains_pair(job, n)
}

proof fn each_awaits(s: Session, ls: Seq<SavedLayer>, i: int)
    requires
        0 <= i < ls.len() <= u64::MAX,
    ensures
        awaits(s.layers_restored(ls).queue, job_after(s.queue.next_job, i), ls[i]),
    decreases ls.len(),
{
    let t = s.layer_restored(ls[0]);
    let rest = ls.subrange(1, ls.len() as int);
    loads_leave_alone(s, ls[0]);
    if i == 0 {
        let job = s.queue.next_job;
        assert(job_after(job, 0) == job);
        assert forall|k: int| 0 <= k < rest.len() implies #[trigger] job_after(
            t.queue.next_job,
            k,
        ) != job by {
            assert(job_after(t.queue.next_job, k) == job_after(job, k + 1));
        }
        earlier_layers_stay(t, rest, job);
    } else {
        each_awaits(t, rest, i - 1);
        assert(job_after(t.queue.next_job, i - 1) == job_after(s.queue.next_job, i));
    }
}

pub(crate) proof fn tables_leave_alone(s: Session, tables: Seq<SavedTable>)
    ensures
        s.tables_opened(tables) == (Session { outbox: s.tables_opened(tables).outbox, ..s }),
    decreases tables.len(),
{
    if tables.len() > 0 {
        tables_leave_alone(
            s.emit(Effect::OpenTable { source: tables[0].source, name: Some(tables[0].name) }),
            tables.subrange(1, tables.len() as int),
        );
    }
}

proof fn layers_leave_alone(s: Session, ls: Seq<SavedLayer>)
    ensures
        s.layers_restored(ls).view == s.view,
        s.layers_restored(ls).cam == s.cam,
        s.layers_restored(ls).layers == s.layers,
    decreases ls.len(),
{
    if ls.len() > 0 {
        loads_leave_alone(s, ls[0]);
        layers_leave_alone(s.layer_restored(ls[0]), ls.subrange(1, ls.len() as int));
    }
}

/// Every layer of a saved session is loaded under a number of its own, and
/// that load is given the saved style, filter and name.
pub proof fn a_restored_layer_gets_what_was_saved(
    s: Session,
    display: u64,
    v: SavedView,
    tables: Seq<SavedTable>,
    ls: Seq<SavedLayer>,
    i: int,
)
    requires
        0 <= i < ls.len() <= u64::MAX,
    ensures
        awaits(
            s.restored(display, v, tables, ls).queue,
            job_after(s.queue.next_job, i),
            ls[i],
        ),
        forall|k: int|
            0 <= k < ls.len() && k != i ==> #[trigger] job_after(s.queue.next_job, k) != job_after(
                s.queue.next_job,
                i,
            ),
{
    let e = s.emptied_for(display).with_saved_view(v);
    tables_leave_alone(e, tables);
    each_awaits(e.tables_opened(tables), ls, i);
}

/// The view of a restored session is the one that was saved, whatever was
/// shown in between; the camera stays where it is put.
pub proof fn a_saved_view_comes_back(
    saved: Session,
    s: Session,
    camera: CameraPose,
    tables: Seq<SavedTable>,
    ls: Seq<SavedLayer>,
)
    requires
        held_to_unit(saved.view.basemap_opacity) == saved.view.basemap_opacity,
    ensures
        ({
            let r = s.restored(saved.cam.display, saved.saved_view(camera), tables, ls);
            &&& r.saved_view(camera) == saved.saved_view(camera)
            &&& r.cam.display == saved.cam.display
            &&& r.cam.camera_moved
            &&& !r.cam.pending_fit
            &&& !r.cam.auto_projection
        }),
{
    let e = s.emptied_for(saved.cam.display).with_saved_view(saved.saved_view(camera));
    tables_leave_alone(e, tables);
    layers_leave_alone(e.tables_opened(tables), ls);
}

/// Nothing of the session that was open survives a restore: no layer, no
/// load, no selection, and every worker is told to stop.
pub proof fn a_restore_replaces_the_session(
    s: Session,
    display: u64,
    v: SavedView,
    tables: Seq<SavedTable>,
    ls: Seq<SavedLayer>,
)
    ensures
        s.restored(display, v, tables, ls).layers.len() == 0,
        s.emptied_for(display).queue.loading.is_empty(),
        s.emptied_for(display).queue.deferred.len() == 0,
        s.emptied_for(display).queue.pending_styles.is_empty(),
        s.emptied_for(display).pick.selection is None,
        s.flags_known() ==> s.all_stopped_in(s.emptied_for(display).flags),
{
    crate::laws::cancelling_stops_all(s);
    let e = s.emptied_for(display).with_saved_view(v);
    tables_leave_alone(e, tables);
    layers_leave_alone(e.tables_opened(tables), ls);
}

/// Restoring layers starts their loads at once and in order, where nothing
/// else is to decide the projection.
proof fn loads_start_in_order(s: Session, ls: Seq<SavedLayer>)
    requires
        !s.cam.auto_projection,
        s.queue.projection_decider is None,
    ensures
        s.layers_restored(ls).outbox.len() == s.outbox.len() + ls.len(),
        s.layers_restored(ls).outbox.subrange(0, s.outbox.len() as int) == s.outbox,
        forall|i: int|
            0 <= i < ls.len() ==> starts_load(
                #[trigger] s.layers_restored(ls).outbox[s.outbox.len() + i],
                job_after(s.queue.next_job, i),
                ls[i],
            ),
        forall|job: u64| #[trigger]
            s.layers_restored(ls).queue.loading.contains_key(job) ==> s.queue.loading.contains_key(
                job,
            ) || exists|i: int| 0 <= i < ls.len() && job == #[trigger] job_after(s.queue.next_job, i),
    decreases ls.len(),
{
    if ls.len() > 0 {
        let t = s.layer_restored(ls[0]);
        let rest = ls.subrange(1, ls.len() as int);
        let r = s.layers_restored(ls);
        loads_leave_alone(s, ls[0]);
        loads_start_in_order(t, rest);
        assert(job_after(s.queue.next_job, 0) == s.queue.next_job);
        assert(t.outbox.len() == s.outbox.len() + 1);
        assert(t.outbox.subrange(0, s.outbox.len() as int) =~= s.outbox);
        assert forall|i: int| 0 <= i < s.outbox.len() implies r.outbox[i] == s.outbox[i] by {
            assert(r.outbox[i] == r.outbox.subrange(0, t.outbox.len() as int)[i]);
        }
        assert(r.outbox.subrange(0, s.outbox.len() as int) =~= s.outbox);
        assert forall|i: int| 0 <= i < ls.len() implies starts_load(
            #[trigger] r.outbox[s.outbox.len() + i],
            job_after(s.queue.next_job, i),
            ls[i],
        ) by {
            if i == 0 {
                assert(r.outbox[s.outbox.len() as int] == r.outbox.subrange(
                    0,
                    t.outbox.len() as int,
                )[s.outbox.len() as int]);
            } else {
                assert(r.outbox[t.outbox.len() + (i - 1)] == r.outbox[s.outbox.len() + i]);
                assert(rest[i - 1] == ls[i]);
                assert(job_after(t.queue.next_job, i - 1) == job_after(s.queue.next_job, i));
            }
        }
        assert forall|job: u64| #[trigger] r.queue.loading.contains_key(job) implies s.queue.loading.contains_key(
            job,
        ) || exists|i: int| 0 <= i < ls.len() && job == #[trigger] job_after(s.queue.next_job, i) by {
            if !t.queue.loading.contains_key(job) {
                let i = choose|i: int|
                    0 <= i < rest.len() && job == #[trigger] job_after(t.queue.next_job, i);
                assert(job_after(s.queue.next_job, i + 1) == job);
            } else if !s.queue.loading.contains_key(job) {
                assert(job == job_after(s.queue.next_job, 0));
            }
        }
    }
}

/// The effect starts the load of a saved layer, under this number.
pub open spec fn starts_load(e: Effect, job: u64, l: SavedLayer) -> bool {
    e matches Effect::SpawnLoad { job: j, source, auto_project, .. } && j == job && source
        == l.source.handle && !auto_project
}

/// A load is under way under this number, and what the layer was will be
/// given to the one that arrives: name, style, and filter where it had one.
pub open spec fn comes_back(q: Loads, job: u64, was: LayerState) -> bool {
    &&& q.loading.contains_key(job)
    &&& q.pending_styles.contains_pair(job, was.style)
    &&& q.pending_names.contains_key(job)
    &&& q.pending_names[job]@ == was.name
    &&& q.pending_filters.contains_key(job) == was.filter is Some
    &&& was.filter matches Some(f) ==> q.pending_filters[job]@ == f.sql@
}

proof fn each_comes_back(s: Session, ls: Seq<SavedLayer>, ns: Seq<LayerNote>, was: Seq<LayerState>, i: int)
    requires
        0 <= i < ls.len() <= u64::MAX,
        ns.len() == ls.len(),
        notes_layers(ns, was),
        forall|k: int| 0 <= k < ls.len() ==> restores(#[trigger] ls[k], ns[k]),
        forall|k: int|
            0 <= k < ls.len() ==> !s.queue.pending_filters.contains_key(
                #[trigger] job_after(s.queue.next_job, k),
            ),
    ensures
        comes_back(s.layers_restored(ls).queue, job_after(s.queue.next_job, i), was[i]),
    decreases ls.len(),
{
    let t = s.layer_restored(ls[0]);
    let rest = ls.subrange(1, ls.len() as int);
    let job = s.queue.next_job;
    loads_leave_alone(s, ls[0]);
    assert(job_after(job, 0) == job);
    assert forall|k: int| 0 <= k < rest.len() implies #[trigger] job_after(t.queue.next_job, k) != job by {
        assert(job_after(t.queue.next_job, k) == job_after(job, k + 1));
    }
    assert(restores(ls[i], ns[i]));
    assert(notes_layer(ns[i], was[i]));
    if i == 0 {
        earlier_layers_stay(t, rest, job);
    } else {
        let more = ns.subrange(1, ns.len() as int);
        let others = was.subrange(1, was.len() as int);
        assert forall|k: int| 0 <= k < rest.len() implies restores(#[trigger] rest[k], more[k]) by {
            assert(restores(ls[k + 1], ns[k + 1]));
        }
        assert forall|k: int| 0 <= k < more.len() implies notes_layer(#[trigger] more[k], others[k]) by {
            assert(notes_layer(ns[k + 1], was[k + 1]));
        }
        assert forall|k: int| 0 <= k < rest.len() implies !t.queue.pending_filters.contains_key(
            #[trigger] job_after(t.queue.next_job, k),
        ) by {
            assert(job_after(t.queue.next_job, k) == job_after(job, k + 1));
        }
        each_comes_back(t, rest, more, others, i - 1);
        assert(job_after(t.queue.next_job, i - 1) == job_after(job, i));
    }
}

/// A session that was written down comes back in any other one that reads it:
/// the camera, the projection and the view are those that were saved, nothing
/// of the other session is left, and one load per saved layer is started, in
/// draw order, for a layer that will have the saved name, style and filter.
/// An opacity outside 0 to 1 is no opacity, and comes back as the nearer end.
pub proof fn a_saved_session_comes_back(
    a: Session,
    b: Session,
    camera: CameraPose,
    ns: Seq<LayerNote>,
    ls: Seq<SavedLayer>,
    tables: Seq<SavedTable>,
)
    requires
        notes_layers(ns, a.layers),
        ls.len() == ns.len() <= u64::MAX,
        forall|k: int| 0 <= k < ls.len() ==> restores(#[trigger] ls[k], ns[k]),
        held_to_unit(a.view.basemap_opacity) == a.view.basemap_opacity,
    ensures
        ({
            let e = b.emptied_for(a.cam.display);
            let r = b.restored(a.cam.display, a.saved_view(camera), tables, ls);
            let before = (e.outbox.len() + 1 + tables.len()) as int;
            &&& r.saved_view(camera) == a.saved_view(camera)
            &&& r.cam.display == a.cam.display
            &&& r.cam.camera_moved && !r.cam.pending_fit && !r.cam.auto_projection
            &&& r.layers.len() == 0
            &&& r.outbox.len() == before + ls.len()
            &&& r.outbox[e.outbox.len() as int] == (Effect::PlaceCamera { camera })
            &&& forall|i: int|
                0 <= i < tables.len() ==> #[trigger] r.outbox[e.outbox.len() + 1 + i] == (
                Effect::OpenTable { source: tables[i].source, name: Some(tables[i].name) })
            &&& forall|i: int|
                0 <= i < ls.len() ==> starts_load(
                    #[trigger] r.outbox[before + i],
                    job_after(b.queue.next_job, i),
                    ls[i],
                )
            &&& forall|i: int|
                0 <= i < ls.len() ==> comes_back(
                    r.queue,
                    #[trigger] job_after(b.queue.next_job, i),
                    a.layers[i],
                )
            &&& forall|job: u64| #[trigger]
                r.queue.loading.contains_key(job) ==> exists|i: int|
                    0 <= i < ls.len() && job == #[trigger] job_after(b.queue.next_job, i)
        }),
{
    let display = a.cam.display;
    let v = a.saved_view(camera);
    let e = b.emptied_for(display);
    let p = e.with_saved_view(v);
    let t = p.tables_opened(tables);
    let r = b.restored(display, v, tables, ls);
    reveal_with_fuel(Session::rebuild_from, 2);
    a_saved_view_comes_back(a, b, camera, tables, ls);
    a_restore_replaces_the_session(b, display, v, tables, ls);
    tables_leave_alone(p, tables);
    tables_are_named(p, tables);
    assert(t.queue == p.queue && t.cam == p.cam);
    assert(p.queue.next_job == b.queue.next_job);
    loads_start_in_order(t, ls);
    assert forall|k: int| 0 <= k < t.outbox.len() implies r.outbox[k] == t.outbox[k] by {
        assert(r.outbox[k] == r.outbox.subrange(0, t.outbox.len() as int)[k]);
    }
    assert(r.outbox[e.outbox.len() as int] == t.outbox[e.outbox.len() as int]);
    assert(p.outbox.len() == e.outbox.len() + 1);
    assert(t.outbox[e.outbox.len() as int] == p.outbox[e.outbox.len() as int]);
    assert forall|i: int| 0 <= i < tables.len() implies #[trigger] r.outbox[e.outbox.len() + 1 + i]
        == (Effect::OpenTable { source: tables[i].source, name: Some(tables[i].name) }) by {
        assert(t.outbox[p.outbox.len() + i] == r.outbox[e.outbox.len() + 1 + i]);
    }
    assert forall|i: int| 0 <= i < ls.len() implies comes_back(
        r.queue,
        #[trigger] job_after(b.queue.next_job, i),
        a.layers[i],
    ) by {
        each_comes_back(t, ls, ns, a.layers, i);
    }
    assert forall|job: u64| #[trigger] r.queue.loading.contains_key(job) implies exists|i: int|
        0 <= i < ls.len() && job == #[trigger] job_after(b.queue.next_job, i) by {
        assert(!t.queue.loading.contains_key(job));
    }
}

/// Tables are opened in order, each under its name.
proof fn tables_are_named(s: Session, tables: Seq<SavedTable>)
    ensures
        s.tables_opened(tables).outbox.len() == s.outbox.len() + tables.len(),
        forall|k: int|
            0 <= k < s.outbox.len() ==> #[trigger] s.tables_opened(tables).outbox[k] == s.outbox[k],
        forall|i: int|
            0 <= i < tables.len() ==> #[trigger] s.tables_opened(tables).outbox[s.outbox.len() + i]
                == (Effect::OpenTable { source: tables[i].source, name: Some(tables[i].name) }),
    decreases tables.len(),
{
    if tables.len() > 0 {
        let t = s.emit(Effect::OpenTable { source: tables[0].source, name: Some(tables[0].name) });
        let rest = tables.subrange(1, tables.len() as int);
        let r = s.tables_opened(tables);
        tables_are_named(t, rest);
        assert forall|k: int| 0 <= k < s.outbox.len() implies #[trigger] r.outbox[k] == s.outbox[k] by {
            assert(r.outbox[k] == t.outbox[k]);
        }
        assert forall|i: int| 0 <= i < tables.len() implies #[trigger] r.outbox[s.outbox.len() + i]
            == (Effect::OpenTable { source: tables[i].source, name: Some(tables[i].name) }) by {
            if i == 0 {
                assert(r.outbox[s.outbox.len() as int] == t.outbox[s.outbox.len() as int]);
            } else {
                assert(r.outbox[t.outbox.len() + (i - 1)] == r.outbox[s.outbox.len() + i]);
            }
        }
    }
}

/// What is noted of a session is what it is, setting by setting, and what is
/// restored is what was noted.
pub proof fn every_setting_is_noted(a: Session, b: Session, camera: CameraPose, n: LayerNote, l: LayerState)
    requires
        held_to_unit(a.view.basemap_opacity) == a.view.basemap_opacity,
        notes_layer(n, l),
    ensures
        ({
            let v = a.saved_view(camera);
            let r = b.with_saved_view(v).view;
            &&& v.camera == camera
            &&& v.basemap == a.view.basemap && r.basemap == a.view.basemap
            &&& v.basemap_opacity == Some(a.view.basemap_opacity) && r.basemap_opacity
                == a.view.basemap_opacity
            &&& v.show_graticule == a.view.show_graticule && r.show_graticule
                == a.view.show_graticule
            &&& v.show_coastline == a.view.show_coastline && r.show_coastline
                == a.view.show_coastline
            &&& v.box_threshold_px == Some(a.view.box_threshold_px) && r.box_threshold_px
                == a.view.box_threshold_px
            &&& v.refine_budget_mb == Some(a.view.refine_budget_mb) && r.refine_budget_mb
                == a.view.refine_budget_mb
            &&& a.view.basemap is Some ==> Some(r.last_basemap) == a.view.basemap
            &&& b.with_saved_view(v).outbox == b.outbox.push(Effect::PlaceCamera { camera })
        }),
        n.layer_id == l.id && n.style == l.style && n.name@ == l.name,
        n.filter is Some <==> l.filter is Some,
        n.filter is Some ==> n.filter->0@ == l.filter->0.sql@,
{
}

/// What a file does not say keeps its value; an opacity it does not say is
/// full.
pub proof fn what_is_not_said_is_kept(b: Session, v: SavedView)
    ensures
        ({
            let r = b.with_saved_view(v).view;
            &&& v.box_threshold_px is None ==> r.box_threshold_px == b.view.box_threshold_px
            &&& v.refine_budget_mb is None ==> r.refine_budget_mb == b.view.refine_budget_mb
            &&& v.basemap is None ==> r.basemap is None && r.last_basemap == b.view.last_basemap
            &&& v.basemap_opacity is None ==> r.basemap_opacity == 0x3f80_0000
            &&& r.coast_level == b.view.coast_level && r.layers_open == b.view.layers_open
        }),
{
}

/// An opacity is held between 0 and 1, which are 0 and 0x3f800000 as bits:
/// positive numbers above it become it, negative ones become 0, and those in
/// between stay.
pub proof fn an_opacity_stays_in_bounds(bits: u32)
    ensures
        bits <= 0x3f80_0000 ==> held_to_unit(bits) == bits,
        0x3f80_0000 < bits <= 0x7f80_0000 ==> held_to_unit(bits) == 0x3f80_0000,
        0x8000_0000 < bits <= 0xff80_0000 ==> held_to_unit(bits) == 0,
        0x7f80_0000 < bits <= 0x8000_0000 || bits > 0xff80_0000 ==> held_to_unit(bits) == bits,
        held_to_unit(held_to_unit(bits)) == held_to_unit(bits),
{
}

/// A saved layer comes back under its name, in its style and with its filter:
/// each is kept for the load that brings it, and for no other.
pub proof fn a_saved_layer_comes_back_as_it_was(s: Session, l: SavedLayer, other: u64)
    ensures
        ({
            let t = s.layer_restored(l);
            let j = s.queue.next_job;
            &&& t.queue.loading.contains_key(j) && t.queue.loading[j].label == l.source.label
            &&& t.queue.pending_styles.contains_key(j) && t.queue.pending_styles[j] == l.style
            &&& l.filter matches Some(f) ==> t.queue.pending_filters.contains_key(j)
                && t.queue.pending_filters[j] == f
            &&& l.filter is None ==> t.queue.pending_filters == s.queue.pending_filters
            &&& l.name matches Some(n) ==> t.queue.pending_names.contains_key(j)
                && t.queue.pending_names[j] == n
            &&& l.name is None ==> t.queue.pending_names == s.queue.pending_names
            &&& other != j ==> t.queue.pending_styles.contains_key(other)
                == s.queue.pending_styles.contains_key(other)
        }),
{
}

/// The layers of a saved session are loaded in the order they are saved in,
/// each once.
pub proof fn saved_layers_come_back_in_order(s: Session, a: Seq<SavedLayer>, b: Seq<SavedLayer>, l: SavedLayer)
    ensures
        s.layers_restored(a + b) == s.layers_restored(a).layers_restored(b),
        s.layers_restored(Seq::empty()) == s,
        s.layers_restored(seq![l]) == s.layer_restored(l),
    decreases a.len(),
{
    reveal_with_fuel(Session::layers_restored, 2);
    if a.len() > 0 {
        let rest = a.subrange(1, a.len() as int);
        assert((a + b).subrange(1, (a + b).len() as int) =~= rest + b);
        saved_layers_come_back_in_order(s.layer_restored(a[0]), rest, b, l);
    } else {
        assert(a + b =~= b);
    }
    assert(seq![l].subrange(1, 1) =~= Seq::<SavedLayer>::empty());
}

} // verus!
