//! Filling the viewport: reading the rows, and the part files, that a moved
//! map needs, and giving memory back.
use vstd::prelude::*;
use crate::layers::{
    all_unseen, missing_first, refine_all, sels, GroupLoad, GroupSel, Hit, Layer, LayerState, Sel,
};
use crate::tally::{lists, lists_one_more};
use crate::session::{CameraState, CoastLevel, Effect, Session, ViewSettings, ViewerApp, Work};

verus! {

broadcast use vstd::std_specs::hash::group_hash_axioms;

/// What the map fits its camera to.
#[derive(Clone, Copy, PartialEq, Eq, Structural, Debug)]
pub enum FitTarget {
    /// Bounds asked for explicitly, kept by the caller under this number.
    Bounds(u64),
    /// The provisional frame of a layer still loading.
    Frame(u64),
    /// All layers that are in the current projection, see
    /// [`ViewerApp::settled_layers`].
    Layers,
    /// The whole projection.
    World,
}

/// What the viewport is to a layer.
#[derive(Debug)]
pub struct LayerView {
    /// The row groups it touches.
    pub hits: Vec<Hit>,
    /// Its rectangle in the layer's coordinates, kept by the caller under
    /// this number.
    pub rect: u64,
    /// A feature is so small on screen that its box is its outline.
    pub box_scale: bool,
}

/// What has to be read of a layer.
#[derive(Debug)]
pub struct LayerRead {
    pub layer_id: u64,
    pub selections: Vec<GroupSel>,
}

/// What [`LayerRead`] stands for.
#[verifier::ext_equal]
pub struct Reading {
    pub layer_id: u64,
    pub selections: Seq<Sel>,
}

/// The meanings of a list of reads.
pub open spec fn readings(v: Seq<LayerRead>) -> Seq<Reading> {
    v.map_values(|r: LayerRead| Reading { layer_id: r.layer_id, selections: sels(r.selections@) })
}

/// What the coastline overlay should do.
#[derive(Clone, Copy, PartialEq, Eq, Structural, Debug)]
pub enum CoastStep {
    Keep,
    /// Fetch the detailed lines; keep drawing the embedded ones meanwhile.
    Fetch,
    Rebuild,
}

/// Zoom level 6, as the bits of a double. For numbers that are not negative
/// the bits order as the numbers do, and a negative number's bits, read with
/// a sign, lie below both levels.
pub const DETAILED_FROM: i64 = 0x4018_0000_0000_0000;

/// Zoom level 5, as the bits of a double.
pub const EMBEDDED_TO: i64 = 0x4014_0000_0000_0000;

/// What is infinitely large, as the bits of a double; those above are not
/// numbers.
pub const INFINITE: i64 = 0x7ff0_0000_0000_0000;

/// What is infinitely small, as the bits of a double read with a sign; those
/// above, up to -1, are not numbers.
pub const INFINITE_BELOW: i64 = -0x0010_0000_0000_0000;

/// The bits of a double, read with a sign, are those of a number.
pub open spec fn is_number(bits: i64) -> bool {
    bits <= INFINITE_BELOW || 0 <= bits <= INFINITE
}

/// The coastline wanted at a zoom: detailed from level 6 on, embedded from 5
/// down, and whichever it is in between, or where the zoom is no number.
pub open spec fn coast_wanted(now: CoastLevel, zoom: i64) -> CoastLevel {
    match now {
        CoastLevel::Embedded => if is_number(zoom) && zoom >= DETAILED_FROM {
            CoastLevel::Detailed
        } else {
            now
        },
        CoastLevel::Detailed => if is_number(zoom) && zoom <= EMBEDDED_TO {
            CoastLevel::Embedded
        } else {
            now
        },
    }
}

impl Session {
    /// The camera moved: what held refinement back is forgotten, and reads
    /// for the viewport left behind are stopped.
    pub open spec fn camera_moved_on(self) -> Session {
        Session {
            cam: CameraState { cam_epoch: self.cam.cam_epoch.wrapping_add(1), ..self.cam },
            work: Work {
                refine_hold: Set::empty(),
                part_hold: Set::empty(),
                refine_deferred: Map::empty(),
                ..self.work
            },
            flags: self.flags.raise_all(self.work.append_cancel.values()),
            ..self
        }
    }

    /// The layers among the first `n` that are in the current projection, in
    /// order: those not being built anew.
    pub open spec fn settled_first(self, n: nat) -> Seq<u64>
        decreases n,
    {
        if n == 0 {
            Seq::empty()
        } else {
            let before = self.settled_first((n - 1) as nat);
            let id = self.layers[n - 1].id;
            if self.work.rebuilding.contains(id) {
                before
            } else {
                before.push(id)
            }
        }
    }

    /// The camera fits of a frame, in order; `bounded` says that some layer
    /// in the current projection has finite bounds.
    pub open spec fn fits(self, bounded: bool) -> Seq<FitTarget> {
        let a = match self.cam.fit_bounds {
            Some(b) => seq![FitTarget::Bounds(b)],
            None => Seq::empty(),
        };
        let c = match self.cam.frame_bounds {
            Some(b) => a.push(FitTarget::Frame(b)),
            None => a,
        };
        if c.len() > 0 || !self.cam.pending_fit {
            c
        } else if bounded {
            seq![FitTarget::Layers]
        } else if self.layers.len() == 0 {
            seq![FitTarget::World]
        } else {
            Seq::empty()
        }
    }

    pub open spec fn fitted(self, bounded: bool) -> Session {
        Session {
            cam: CameraState {
                fit_bounds: None,
                frame_bounds: None,
                camera_moved: self.cam.camera_moved || self.cam.fit_bounds is Some,
                pending_fit: self.cam.pending_fit && self.fits(bounded).len() == 0,
                ..self.cam
            },
            ..self
        }
    }

    /// The layer may look for part files the viewport wants.
    pub open spec fn wants_parts(self, l: LayerState) -> bool {
        &&& l.collection
        &&& l.visible
        &&& !l.direct
        &&& !self.work.appending.contains(l.id)
        &&& !self.work.rebuilding.contains(l.id)
        &&& !self.work.part_hold.contains(l.id)
    }

    /// The layer may be refined to the viewport.
    pub open spec fn refinable(self, l: LayerState) -> bool {
        &&& l.partial()
        &&& !l.direct
        &&& l.visible
        &&& !self.work.appending.contains(l.id)
        &&& !self.work.rebuilding.contains(l.id)
        &&& !self.work.refine_hold.contains(l.id)
        &&& l.boxes is Some
    }

    /// A read for the layer is in flight, under the flag handed out next.
    pub open spec fn arm_append(self, id: u64) -> Session {
        Session {
            work: Work {
                appending: self.work.appending.insert(id),
                append_cancel: self.work.append_cancel.insert(id, self.flags.next()),
                ..self.work
            },
            flags: self.flags.issued(),
            ..self
        }
    }

    /// The layer's reads belong to the current camera pose.
    pub open spec fn stamp(self, id: u64) -> Session {
        Session {
            work: Work {
                refine_epoch: self.work.refine_epoch.insert(id, self.cam.cam_epoch),
                ..self.work
            },
            ..self
        }
    }

    /// Layer `i` looks for the part files the viewport wants, where it may.
    pub open spec fn append_parts(self, i: int) -> Session {
        let l = self.layers[i];
        if self.wants_parts(l) {
            let s = self.arm_append(l.id).stamp(l.id);
            Session {
                work: Work { part_appending: s.work.part_appending.insert(l.id), ..s.work },
                ..s
            }.emit(
                Effect::SpawnPartAppend {
                    layer_id: l.id,
                    generation: l.generation,
                    flag: self.flags.next(),
                    budget_mb: self.view.refine_budget_mb,
                },
            )
        } else {
            self
        }
    }

    /// Layer `i` reads what the viewport lacks, where it may and something is
    /// lacking.
    pub open spec fn refine(self, i: int, hits: Seq<Hit>, rect: u64) -> Session {
        let l = self.layers[i];
        if self.refinable(l) && refine_all(l, hits, rect).len() > 0 {
            self.arm_append(l.id).stamp(l.id).emit(
                Effect::SpawnAppend {
                    layer_id: l.id,
                    generation: l.generation,
                    flag: self.flags.next(),
                    limit_mb: Some(self.view.refine_budget_mb),
                },
            )
        } else {
            self
        }
    }

    /// Every layer from `i` on looks for the part files the viewport wants.
    pub open spec fn append_from(self, i: int) -> Session
        decreases self.layers.len() - i,
    {
        if i >= self.layers.len() || i < 0 {
            self
        } else {
            self.append_parts(i).append_from(i + 1)
        }
    }

    /// What is read of layer `i` for its view: nothing where that is not
    /// known, or where a layer of boxes has nothing better to show at this
    /// scale.
    pub open spec fn wanted(self, i: int, views: Seq<Option<LayerView>>) -> Seq<Sel> {
        let l = self.layers[i];
        match views[i] {
            Some(v) => if self.refinable(l) && !(l.box_layer && v.box_scale) {
                refine_all(l, v.hits@, v.rect)
            } else {
                Seq::empty()
            },
            None => Seq::empty(),
        }
    }

    /// Layer `i` reads what it wants.
    pub open spec fn refine_seen(self, i: int, views: Seq<Option<LayerView>>) -> Session {
        match views[i] {
            Some(v) => if self.layers[i].box_layer && v.box_scale {
                self
            } else {
                self.refine(i, v.hits@, v.rect)
            },
            None => self,
        }
    }

    /// Every layer from `i` on reads what it wants.
    pub open spec fn refine_from(self, i: int, views: Seq<Option<LayerView>>) -> Session
        decreases self.layers.len() - i,
    {
        if i >= self.layers.len() || i < 0 {
            self
        } else {
            self.refine_seen(i, views).refine_from(i + 1, views)
        }
    }

    /// What the layers from `i` on read.
    pub open spec fn reads_from(self, i: int, views: Seq<Option<LayerView>>) -> Seq<Reading>
        decreases self.layers.len() - i,
    {
        if i >= self.layers.len() || i < 0 {
            Seq::empty()
        } else {
            let rest = self.refine_seen(i, views).reads_from(i + 1, views);
            if self.wanted(i, views).len() > 0 {
                seq![
                    Reading { layer_id: self.layers[i].id, selections: self.wanted(i, views) },
                ] + rest
            } else {
                rest
            }
        }
    }

    /// The views fit the layers they are of.
    pub open spec fn seen(self, views: Seq<Option<LayerView>>) -> bool {
        &&& views.len() == self.layers.len()
        &&& forall|i: int| 0 <= i < views.len() ==> self.view_fits(i, #[trigger] views[i])
    }

    pub open spec fn view_fits(self, i: int, v: Option<LayerView>) -> bool {
        v matches Some(w) ==> self.layers[i].wf() && forall|k: int|
            0 <= k < w.hits@.len() ==> (#[trigger] w.hits@[k]).group < self.layers[i].loaded.len()
    }

    /// Part files first, where the viewport has a place on the globe, then
    /// rows: refining parts nobody looks at is work for a viewport that was
    /// left.
    pub open spec fn grown(self, on_globe: bool) -> Session {
        if on_globe {
            self.append_from(0)
        } else {
            self
        }
    }

    /// The layer has no reads or rebuild in flight.
    pub open spec fn quiet(self, id: u64) -> bool {
        !self.work.appending.contains(id) && !self.work.rebuilding.contains(id)
    }

    /// Every row layer `i` lacks is read, without a budget.
    pub open spec fn load_all(self, id: u64) -> Session {
        if self.has_layer(id) && self.quiet(id) && missing_first(
            self.layers[self.index_of(id)],
            self.layers[self.index_of(id)].loaded.len(),
        ).len() > 0 {
            self.arm_append(id).emit(
                Effect::SpawnAppend {
                    layer_id: id,
                    generation: self.layers[self.index_of(id)].generation,
                    flag: self.flags.next(),
                    limit_mb: None,
                },
            )
        } else {
            self
        }
    }

    /// The layer's read is told to stop.
    pub open spec fn append_stopped(self, id: u64) -> Session {
        Session { flags: self.flags.raise_of(self.work.append_cancel, id), ..self }
    }

    /// Layer `i` forgets what it has loaded and reads the viewport alone;
    /// one that is loaded whole by design stays as it is.
    pub open spec fn reload_one(self, i: int) -> Session {
        let l = self.layers[i];
        if l.direct {
            self
        } else {
            let generation = l.generation.wrapping_add(1);
            Session {
                layers: self.layers.update(
                    i,
                    LayerState {
                        filter: None,
                        generation,
                        sections: 0,
                        draw_gen: l.draw_gen.wrapping_add(1),
                        loaded: Seq::new(
                            if l.starts.len() == 0 {
                                0
                            } else {
                                (l.starts.len() - 1) as nat
                            },
                            |g: int| GroupLoad::Unseen,
                        ),
                        ..l
                    },
                ),
                work: Work {
                    appending: self.work.appending.remove(l.id),
                    append_cancel: self.work.append_cancel.remove(l.id),
                    refine_hold: self.work.refine_hold.remove(l.id),
                    part_hold: self.work.part_hold.remove(l.id),
                    refine_deferred: self.work.refine_deferred.remove(l.id),
                    ..self.work
                },
                flags: self.flags.raise_of(self.work.append_cancel, l.id),
                ..self
            }.arm_rebuild(l.id).emit(Effect::ClearSections { layer_id: l.id }).emit(
                Effect::SpawnReload { layer_id: l.id, generation, flag: self.flags.next() },
            )
        }
    }

    pub open spec fn reload_from(self, i: int) -> Session
        decreases self.layers.len() - i,
    {
        if i >= self.layers.len() || i < 0 {
            self
        } else {
            self.reload_one(i).reload_from(i + 1)
        }
    }

    pub open spec fn reload_to_viewport(self) -> Session {
        self.clear_selection().reload_from(0).emit(Effect::ReleaseMemory)
    }

    /// The coastline overlay follows the zoom; `fetched` says that the
    /// detailed lines are at hand.
    pub open spec fn coast_step(self, zoom: i64, fetched: bool) -> CoastStep {
        let want = coast_wanted(self.view.coast_level, zoom);
        if !self.view.show_coastline || want == self.view.coast_level {
            CoastStep::Keep
        } else if want is Detailed && !fetched {
            CoastStep::Fetch
        } else {
            CoastStep::Rebuild
        }
    }

    pub open spec fn coast_updated(self, zoom: i64, fetched: bool) -> Session {
        if self.coast_step(zoom, fetched) is Rebuild {
            Session {
                view: ViewSettings {
                    coast_level: coast_wanted(self.view.coast_level, zoom),
                    ..self.view
                },
                cam: CameraState {
                    graticule_generation: self.cam.graticule_generation.wrapping_add(1),
                    ..self.cam
                },
                ..self
            }
        } else {
            self
        }
    }
}

impl ViewerApp {
    /// The camera pose changed.
    pub fn camera_pose_changed(&mut self)
        ensures
            final(self)@ == old(self)@.camera_moved_on(),
    {
        self.cam.cam_epoch = self.cam.cam_epoch.wrapping_add(1);
        self.work.refine_hold.clear();
        self.work.part_hold.clear();
        self.work.refine_deferred.clear();
        self.flags.raise_values(&self.work.append_cancel);
    }

    /// The layers the map is fitted to: all but those being built anew.
    pub fn settled_layers(&self) -> (r: Vec<u64>)
        ensures
            r@ == self@.settled_first(self@.layers.len()),
    {
        let mut out: Vec<u64> = Vec::new();
        let mut i: usize = 0;
        while i < self.layers.len()
            invariant
                i <= self.layers@.len(),
                out@ == self@.settled_first(i as nat),
            decreases self.layers@.len() - i,
        {
            let id: u64 = self.layers[i].id;
            assert(self@.layers[i as int].id == id);
            if !self.work.rebuilding.contains(&id) {
                out.push(id);
            }
            i += 1;
        }
        out
    }

    /// The camera fits this frame owes, in order.
    pub fn take_fits(&mut self, bounded: bool) -> (r: Vec<FitTarget>)
        ensures
            r@ == old(self)@.fits(bounded),
            final(self)@ == old(self)@.fitted(bounded),
    {
        let mut out: Vec<FitTarget> = Vec::new();
        if let Some(b) = self.cam.fit_bounds {
            self.cam.fit_bounds = None;
            out.push(FitTarget::Bounds(b));
            self.cam.camera_moved = true;
            self.cam.pending_fit = false;
        }
        if let Some(b) = self.cam.frame_bounds {
            self.cam.frame_bounds = None;
            out.push(FitTarget::Frame(b));
            self.cam.pending_fit = false;
        }
        if self.cam.pending_fit {
            if bounded {
                out.push(FitTarget::Layers);
                self.cam.pending_fit = false;
            } else if self.layers.len() == 0 {
                out.push(FitTarget::World);
                self.cam.pending_fit = false;
            }
        }
        assert(out@ =~= old(self)@.fits(bounded));
        out
    }

    fn arm_append(&mut self, id: u64) -> (flag: u64)
        ensures
            flag == old(self)@.flags.next(),
            final(self)@ == old(self)@.arm_append(id),
    {
        let flag = self.flags.issue();
        self.work.appending.insert(id);
        self.work.append_cancel.insert(id, flag);
        flag
    }

    fn stamp(&mut self, id: u64)
        ensures
            final(self)@ == old(self)@.stamp(id),
    {
        let epoch: u64 = self.cam.cam_epoch;
        self.work.refine_epoch.insert(id, epoch);
    }

    /// Whether layer `i` may look for part files.
    pub fn wants_parts(&self, i: usize) -> (r: bool)
        requires
            i < self@.layers.len(),
        ensures
            r == self@.wants_parts(self@.layers[i as int]),
    {
        let l = &self.layers[i];
        l.collection && l.visible && !l.direct && !self.work.appending.contains(&l.id)
            && !self.work.rebuilding.contains(&l.id) && !self.work.part_hold.contains(&l.id)
    }

    /// Whether layer `i` may be refined to the viewport.
    pub fn refinable(&self, i: usize) -> (r: bool)
        requires
            i < self@.layers.len(),
        ensures
            r == self@.refinable(self@.layers[i as int]),
    {
        let l = &self.layers[i];
        l.is_partial() && !l.direct && l.visible && !self.work.appending.contains(&l.id)
            && !self.work.rebuilding.contains(&l.id) && !self.work.refine_hold.contains(&l.id)
            && l.boxes.is_some()
    }

    fn append_parts(&mut self, i: usize)
        requires
            i < old(self)@.layers.len(),
        ensures
            final(self)@ == old(self)@.append_parts(i as int),
    {
        if self.wants_parts(i) {
            let id: u64 = self.layers[i].id;
            let generation: u64 = self.layers[i].generation;
            let flag = self.arm_append(id);
            self.stamp(id);
            self.work.part_appending.insert(id);
            let budget_mb: u32 = self.view.refine_budget_mb;
            self.emit(Effect::SpawnPartAppend { layer_id: id, generation, flag, budget_mb });
        }
    }

    /// Look for the part files layers lack in the viewport; `on_globe` says
    /// that the viewport has a place on the globe.
    pub fn append_parts_for_view(&mut self, on_globe: bool)
        ensures
            final(self)@ == old(self)@.grown(on_globe),
    {
        if !on_globe {
            return;
        }
        let ghost before = self@;
        let mut i: usize = 0;
        while i < self.layers.len()
            invariant
                i <= self.layers@.len(),
                before.append_from(0) == self@.append_from(i as int),
            decreases self.layers@.len() - i,
        {
            self.append_parts(i);
            i += 1;
        }
    }

    fn refine_view(&mut self, i: usize, v: &LayerView, views: Ghost<Seq<Option<LayerView>>>) -> (r: Vec<
        GroupSel,
    >)
        requires
            i < old(self)@.layers.len(),
            i < views@.len(),
            views@[i as int] == Some(*v),
            old(self)@.view_fits(i as int, Some(*v)),
        ensures
            final(self)@ == old(self)@.refine_seen(i as int, views@),
            sels(r@) == old(self)@.wanted(i as int, views@),
    {
        if self.layers[i].box_layer && v.box_scale {
            let none: Vec<GroupSel> = Vec::new();
            assert(sels(none@) =~= Seq::empty());
            return none;
        }
        self.refine_layer(i, &v.hits, v.rect)
    }

    /// Fill in what the viewport lacks: `views` say, layer by layer, what it
    /// is to the layer, where it has a place in the layer's coordinates. What
    /// has to be read is returned.
    pub fn refine_partial_layers(&mut self, on_globe: bool, views: &Vec<Option<LayerView>>) -> (r: Vec<
        LayerRead,
    >)
        requires
            old(self)@.seen(views@),
        ensures
            final(self)@ == old(self)@.grown(on_globe).refine_from(0, views@),
            readings(r@) == old(self)@.grown(on_globe).reads_from(0, views@),
    {
        self.append_parts_for_view(on_globe);
        proof {
            growing_keeps_layers(old(self)@, 0);
        }
        let ghost start = self@;
        let mut out: Vec<LayerRead> = Vec::new();
        let mut i: usize = 0;
        assert(readings(out@) =~= Seq::empty());
        assert(readings(out@) + self@.reads_from(0, views@) =~= self@.reads_from(0, views@));
        while i < self.layers.len()
            invariant
                i <= self.layers@.len(),
                self@.layers == start.layers,
                self@.seen(views@),
                start.refine_from(0, views@) == self@.refine_from(i as int, views@),
                start.reads_from(0, views@) == readings(out@) + self@.reads_from(i as int, views@),
            decreases self.layers@.len() - i,
        {
            let ghost before = self@;
            let ghost done = readings(out@);
            assert(before.view_fits(i as int, views@[i as int]));
            if let Some(v) = &views[i] {
                let layer_id: u64 = self.layers[i].id;
                let selections = self.refine_view(i, v, Ghost(views@));
                assert(sels(selections@).len() == selections@.len());
                if selections.len() > 0 {
                    out.push(LayerRead { layer_id, selections });
                    assert(readings(out@) =~= done.push(
                        Reading { layer_id, selections: before.wanted(i as int, views@) },
                    ));
                }
            }
            assert(self@ == before.refine_seen(i as int, views@));
            assert(self@.layers == before.layers);
            assert forall|k: int| 0 <= k < views@.len() implies self@.view_fits(
                k,
                #[trigger] views@[k],
            ) by {
                assert(before.view_fits(k, views@[k]));
            }
            assert(done + before.reads_from(i as int, views@) =~= readings(out@) + self@.reads_from(
                i + 1,
                views@,
            ));
            i += 1;
        }
        assert(readings(out@) + self@.reads_from(i as int, views@) =~= readings(out@));
        out
    }

    /// Read the rows of layer `i` the viewport lacks. `hits` are the row
    /// groups it touches; what has to be read is returned.
    pub fn refine_layer(&mut self, i: usize, hits: &Vec<Hit>, rect: u64) -> (r: Vec<GroupSel>)
        requires
            i < old(self)@.layers.len(),
            old(self)@.layers[i as int].wf(),
            forall|k: int|
                0 <= k < hits@.len() ==> (#[trigger] hits@[k]).group
                    < old(self)@.layers[i as int].loaded.len(),
        ensures
            final(self)@ == old(self)@.refine(i as int, hits@, rect),
            sels(r@) == if old(self)@.refinable(old(self)@.layers[i as int]) {
                refine_all(old(self)@.layers[i as int], hits@, rect)
            } else {
                Seq::empty()
            },
    {
        if !self.refinable(i) {
            let none: Vec<GroupSel> = Vec::new();
            assert(sels(none@) =~= Seq::empty());
            return none;
        }
        let jobs = self.layers[i].refine_jobs(hits, rect);
        assert(sels(jobs@).len() == jobs@.len());
        if jobs.len() > 0 {
            let id: u64 = self.layers[i].id;
            let generation: u64 = self.layers[i].generation;
            let flag = self.arm_append(id);
            self.stamp(id);
            let budget: u32 = self.view.refine_budget_mb;
            self.emit(
                Effect::SpawnAppend { layer_id: id, generation, flag, limit_mb: Some(budget) },
            );
        }
        jobs
    }

    /// Read every row a layer lacks; what has to be read is returned.
    pub fn load_all_rows(&mut self, id: u64) -> (r: Vec<GroupSel>)
        requires
            old(self)@.has_layer(id) ==> old(self)@.layers[old(self)@.index_of(id)].wf(),
        ensures
            final(self)@ == old(self)@.load_all(id),
            sels(r@) == if old(self)@.has_layer(id) && old(self)@.quiet(id) {
                missing_first(
                    old(self)@.layers[old(self)@.index_of(id)],
                    old(self)@.layers[old(self)@.index_of(id)].loaded.len(),
                )
            } else {
                Seq::empty()
            },
    {
        let none: Vec<GroupSel> = Vec::new();
        assert(sels(none@) =~= Seq::empty());
        if let Some(i) = self.position(id) {
            if !self.work.appending.contains(&id) && !self.work.rebuilding.contains(&id) {
                let jobs = self.layers[i].missing_jobs();
                assert(sels(jobs@).len() == jobs@.len());
                if jobs.len() > 0 {
                    let generation: u64 = self.layers[i].generation;
                    let flag = self.arm_append(id);
                    self.emit(
                        Effect::SpawnAppend { layer_id: id, generation, flag, limit_mb: None },
                    );
                }
                return jobs;
            }
        }
        none
    }

    /// Stop a layer's read; it resumes when the map moves.
    pub fn stop_append(&mut self, id: u64)
        ensures
            final(self)@ == old(self)@.append_stopped(id),
    {
        if let Some(flag) = self.work.append_cancel.get(&id) {
            let flag: u64 = *flag;
            self.flags.raise(flag);
        }
    }

    fn reload_one(&mut self, i: usize)
        requires
            i < old(self)@.layers.len(),
        ensures
            final(self)@ == old(self)@.reload_one(i as int),
    {
        let ghost before = self@;
        if self.layers[i].direct {
            return;
        }
        let id: u64 = self.layers[i].id;
        self.work.appending.remove(&id);
        if let Some(flag) = self.work.append_cancel.remove(&id) {
            self.flags.raise(flag);
        }
        self.work.refine_hold.remove(&id);
        self.work.part_hold.remove(&id);
        self.work.refine_deferred.remove(&id);
        let generation: u64 = self.layers[i].generation.wrapping_add(1);
        let draw_gen: u64 = self.layers[i].draw_gen.wrapping_add(1);
        let n: usize = if self.layers[i].starts.len() == 0 {
            0
        } else {
            self.layers[i].starts.len() - 1
        };
        self.layers[i].filter = None;
        self.layers[i].generation = generation;
        self.layers[i].sections = 0;
        self.layers[i].draw_gen = draw_gen;
        self.layers[i].loaded = all_unseen(n);
        assert(self@.layers =~= before.layers.update(
            i as int,
            LayerState {
                filter: None,
                generation,
                sections: 0,
                draw_gen,
                loaded: Seq::new(n as nat, |g: int| GroupLoad::Unseen),
                ..before.layers[i as int]
            },
        ));
        assert(self@.work.append_cancel =~= before.work.append_cancel.remove(id));
        let flag = self.arm_rebuild(id);
        self.emit(Effect::ClearSections { layer_id: id });
        self.emit(Effect::SpawnReload { layer_id: id, generation, flag });
    }

    /// Drop every layer's loaded geometry and read only what the viewport
    /// shows.
    pub fn reload_layers_to_viewport(&mut self)
        ensures
            final(self)@ == old(self)@.reload_to_viewport(),
    {
        self.clear_selection();
        let ghost before = self@;
        let mut i: usize = 0;
        while i < self.layers.len()
            invariant
                i <= self.layers@.len(),
                before.reload_from(0) == self@.reload_from(i as int),
            decreases self.layers@.len() - i,
        {
            self.reload_one(i);
            i += 1;
        }
        self.emit(Effect::ReleaseMemory);
    }

    /// Let the coastline overlay follow the zoom (as the bits of a double).
    pub fn update_coastline_detail(&mut self, zoom: i64, fetched: bool) -> (r: CoastStep)
        ensures
            r == old(self)@.coast_step(zoom, fetched),
            final(self)@ == old(self)@.coast_updated(zoom, fetched),
    {
        if !self.view.show_coastline {
            return CoastStep::Keep;
        }
        let number = zoom <= INFINITE_BELOW || (0 <= zoom && zoom <= INFINITE);
        let want = match self.view.coast_level {
            CoastLevel::Embedded => if number && zoom >= DETAILED_FROM {
                CoastLevel::Detailed
            } else {
                CoastLevel::Embedded
            },
            CoastLevel::Detailed => if number && zoom <= EMBEDDED_TO {
                CoastLevel::Embedded
            } else {
                CoastLevel::Detailed
            },
        };
        if want == self.view.coast_level {
            return CoastStep::Keep;
        }
        if want == CoastLevel::Detailed && !fetched {
            return CoastStep::Fetch;
        }
        self.view.coast_level = want;
        self.cam.graticule_generation = self.cam.graticule_generation.wrapping_add(1);
        CoastStep::Rebuild
    }
}

/// Looking for part files changes no layer.
proof fn growing_keeps_layers(s: Session, i: int)
    requires
        0 <= i <= s.layers.len(),
    ensures
        s.append_from(i).layers == s.layers,
    decreases s.layers.len() - i,
{
    if i < s.layers.len() {
        growing_keeps_layers(s.append_parts(i), i + 1);
    }
}

/// A pass either grows a layer or refines it, never both: a layer whose part
/// files are being looked for is not refined meanwhile.
pub proof fn a_growing_layer_is_not_refined(s: Session, i: int, views: Seq<Option<LayerView>>)
    requires
        0 <= i < s.layers.len(),
        s.wants_parts(s.layers[i]),
    ensures
        s.append_parts(i).wanted(i, views).len() == 0,
        s.append_parts(i).refine_seen(i, views) == s.append_parts(i),
{
}

/// Part files are looked for, and rows read, by the layers that are shown, not
/// loaded whole by design and not busy already, and by no others; the request
/// is for the layer as it is now, under a flag of its own, within the budget.
pub proof fn a_shown_layer_follows_the_viewport(s: Session, i: int, hits: Seq<Hit>, rect: u64)
    requires
        0 <= i < s.layers.len(),
        s.layers[i].wf(),
        crate::layers::rows_in_order(s.layers[i]),
        forall|k: int| 0 <= k < hits.len() ==> (#[trigger] hits[k]).group < s.layers[i].loaded.len(),
    ensures
        ({
            let l = s.layers[i];
            let busy = s.work.appending.contains(l.id) || s.work.rebuilding.contains(l.id);
            let grows = l.collection && l.visible && !l.direct && !busy && !s.work.part_hold.contains(l.id);
            let lacking = exists|k: int| 0 <= k < hits.len() && crate::layers::lacks(l, #[trigger] hits[k]);
            let unread = exists|g: int| 0 <= g < l.loaded.len() && !(#[trigger] l.loaded[g] is Full);
            let reads = unread && l.visible && !l.direct && !busy && !s.work.refine_hold.contains(l.id)
                && l.boxes is Some && lacking;
            let a = s.append_parts(i);
            let r = s.refine(i, hits, rect);
            &&& !grows ==> a == s
            &&& grows ==> a.work.appending.contains(l.id) && a.work.part_appending.contains(l.id)
                && a.work.refine_epoch[l.id] == s.cam.cam_epoch && a.work.append_cancel[l.id]
                == s.flags.next() && a.layers == s.layers && a.outbox == s.outbox.push(
                Effect::SpawnPartAppend {
                    layer_id: l.id,
                    generation: l.generation,
                    flag: s.flags.next(),
                    budget_mb: s.view.refine_budget_mb,
                },
            )
            &&& !reads ==> r == s
            &&& reads ==> r.work.appending.contains(l.id) && r.work.part_appending
                == s.work.part_appending && r.work.refine_epoch[l.id] == s.cam.cam_epoch
                && r.work.append_cancel[l.id] == s.flags.next() && r.layers == s.layers && r.outbox
                == s.outbox.push(
                Effect::SpawnAppend {
                    layer_id: l.id,
                    generation: l.generation,
                    flag: s.flags.next(),
                    limit_mb: Some(s.view.refine_budget_mb),
                },
            )
        }),
{
    crate::layers::refining_reads_what_the_viewport_lacks(s.layers[i], hits, rect);
}

proof fn one_read_leaves_the_others(s: Session, i: int, views: Seq<Option<LayerView>>, j: int)
    requires
        0 <= i < s.layers.len(),
        0 <= j < s.layers.len(),
        s.layers[i].id != s.layers[j].id,
    ensures
        s.refine_seen(i, views).layers == s.layers,
        s.refine_seen(i, views).wanted(j, views) == s.wanted(j, views),
        s.append_parts(i).layers == s.layers,
        s.append_parts(i).wants_parts(s.layers[j]) == s.wants_parts(s.layers[j]),
        s.append_parts(i).wanted(j, views) == s.wanted(j, views),
{
}

proof fn passes_keep_what_is_under_way(s: Session, i: int, views: Seq<Option<LayerView>>, id: u64)
    requires
        s.work.appending.contains(id),
    ensures
        s.refine_from(i, views).work.appending.contains(id),
        s.append_from(i).work.appending.contains(id),
        s.work.part_appending.contains(id) ==> s.append_from(i).work.part_appending.contains(id),
    decreases s.layers.len() - i,
{
    if 0 <= i < s.layers.len() {
        passes_keep_what_is_under_way(s.refine_seen(i, views), i + 1, views, id);
        passes_keep_what_is_under_way(s.append_parts(i), i + 1, views, id);
    }
}

proof fn reads_of_a_pass(s: Session, i: int, views: Seq<Option<LayerView>>, j: int)
    requires
        0 <= i <= j < s.layers.len(),
        views.len() == s.layers.len(),
        forall|a: int, b: int|
            0 <= a < b < s.layers.len() ==> (#[trigger] s.layers[a]).id != (#[trigger] s.layers[b]).id,
    ensures
        s.wanted(j, views).len() > 0 ==> s.reads_from(i, views).contains(
            Reading { layer_id: s.layers[j].id, selections: s.wanted(j, views) },
        ) && s.refine_from(i, views).work.appending.contains(s.layers[j].id),
        s.wants_parts(s.layers[j]) ==> s.append_from(i).work.part_appending.contains(s.layers[j].id),
    decreases j - i,
{
    let t = s.refine_seen(i, views);
    let a = s.append_parts(i);
    let rest = t.reads_from(i + 1, views);
    let all = s.reads_from(i, views);
    if i == j {
        if s.wanted(j, views).len() > 0 {
            assert(all[0] == Reading { layer_id: s.layers[j].id, selections: s.wanted(j, views) });
            passes_keep_what_is_under_way(t, i + 1, views, s.layers[j].id);
        }
        if s.wants_parts(s.layers[j]) {
            passes_keep_what_is_under_way(a, i + 1, views, s.layers[j].id);
        }
    } else {
        one_read_leaves_the_others(s, i, views, j);
        reads_of_a_pass(t, i + 1, views, j);
        reads_of_a_pass(a, i + 1, views, j);
        if s.wanted(j, views).len() > 0 {
            let r = Reading { layer_id: s.layers[j].id, selections: s.wanted(j, views) };
            let k = rest.index_of(r);
            if s.wanted(i, views).len() > 0 {
                assert(all[k + 1] == r);
            } else {
                assert(all[k] == r);
            }
        }
    }
}

proof fn reads_are_of_layers(s: Session, i: int, views: Seq<Option<LayerView>>, k: int) -> (j: int)
    requires
        0 <= i <= s.layers.len(),
        0 <= k < s.reads_from(i, views).len(),
    ensures
        i <= j < s.layers.len(),
        s.reads_from(i, views)[k].layer_id == s.layers[j].id,
    decreases s.layers.len() - i,
{
    if s.wanted(i, views).len() > 0 {
        if k == 0 {
            i
        } else {
            reads_are_of_layers(s.refine_seen(i, views), i + 1, views, k - 1)
        }
    } else {
        reads_are_of_layers(s.refine_seen(i, views), i + 1, views, k)
    }
}

/// A pass leaves no layer out: each that is shown, may read and lacks something
/// in the viewport is read for, with all that it lacks there, whatever the
/// layers before it do; and each collection that may grow looks for its files.
/// Nothing is read but for a layer on the map.
pub proof fn a_pass_leaves_no_layer_out(s: Session, views: Seq<Option<LayerView>>, j: int, k: int)
    requires
        views.len() == s.layers.len(),
        0 <= j < s.layers.len(),
        forall|a: int, b: int|
            0 <= a < b < s.layers.len() ==> (#[trigger] s.layers[a]).id != (#[trigger] s.layers[b]).id,
    ensures
        ({
            let l = s.layers[j];
            let busy = s.work.appending.contains(l.id) || s.work.rebuilding.contains(l.id);
            &&& views[j] matches Some(v) ==> (l.partial() && l.visible && !l.direct && !busy
                && !s.work.refine_hold.contains(l.id) && l.boxes is Some && !(l.box_layer && v.box_scale)
                && refine_all(l, v.hits@, v.rect).len() > 0 ==> s.reads_from(0, views).contains(
                Reading { layer_id: l.id, selections: refine_all(l, v.hits@, v.rect) },
            ) && s.refine_from(0, views).work.appending.contains(l.id))
            &&& l.collection && l.visible && !l.direct && !busy && !s.work.part_hold.contains(l.id)
                ==> s.grown(true).work.part_appending.contains(l.id)
            &&& s.grown(false) == s
            &&& 0 <= k < s.reads_from(0, views).len() ==> exists|i: int|
                0 <= i < s.layers.len() && (#[trigger] s.layers[i]).id == s.reads_from(
                    0,
                    views,
                )[k].layer_id
        }),
{
    reads_of_a_pass(s, 0, views, j);
    if 0 <= k < s.reads_from(0, views).len() {
        let i = reads_are_of_layers(s, 0, views, k);
        assert(s.layers[i].id == s.reads_from(0, views)[k].layer_id);
    }
}

/// A frame fits the camera to what it was asked to, once: to bounds asked for,
/// to those of a first layer on its way, else, where a fit is pending, to the
/// layers that have bounds, or to the world where there is no layer. A fit to
/// nothing stays pending.
pub proof fn a_fit_is_done_once(s: Session, bounded: bool, again: bool)
    ensures
        ({
            let f = s.fits(bounded);
            let t = s.fitted(bounded);
            &&& s.cam.fit_bounds matches Some(b) ==> f.len() > 0 && f[0] == FitTarget::Bounds(b)
                && t.cam.camera_moved
            &&& s.cam.frame_bounds matches Some(b) ==> f.len() > 0 && f.last() == FitTarget::Frame(b)
            &&& s.cam.fit_bounds is None ==> t.cam.camera_moved == s.cam.camera_moved
            &&& s.cam.fit_bounds is None && s.cam.frame_bounds is None && !s.cam.pending_fit ==> f.len()
                == 0
            &&& s.cam.fit_bounds is None && s.cam.frame_bounds is None && s.cam.pending_fit ==> {
                &&& bounded ==> f == seq![FitTarget::Layers]
                &&& !bounded && s.layers.len() == 0 ==> f == seq![FitTarget::World]
                &&& !bounded && s.layers.len() > 0 ==> f.len() == 0 && t.cam.pending_fit
            }
            &&& f.len() <= 2
            &&& f.len() > 0 ==> !t.cam.pending_fit && t.fits(again).len() == 0
            &&& t.cam.fit_bounds is None && t.cam.frame_bounds is None
            &&& t.layers == s.layers && t.outbox == s.outbox && t.cam.display == s.cam.display
        }),
{
}

/// The detailed coastline is wanted from zoom 6 on and the embedded one from 5
/// down, whichever there is; in between, or where the zoom is no number, the
/// one there is. Those zooms are 0x4018000000000000 and 0x4014000000000000 as
/// the bits of a double.
pub proof fn the_coast_follows_the_zoom(s: Session, now: CoastLevel, zoom: i64, fetched: bool)
    ensures
        0x4018_0000_0000_0000 <= zoom <= 0x7ff0_0000_0000_0000 ==> coast_wanted(now, zoom) is Detailed,
        0 <= zoom <= 0x4014_0000_0000_0000 ==> coast_wanted(now, zoom) is Embedded,
        zoom <= -0x0010_0000_0000_0000 ==> coast_wanted(now, zoom) is Embedded,
        0x4014_0000_0000_0000 < zoom < 0x4018_0000_0000_0000 ==> coast_wanted(now, zoom) == now,
        zoom > 0x7ff0_0000_0000_0000 || -0x0010_0000_0000_0000 < zoom < 0 ==> coast_wanted(now, zoom) == now,
        !s.view.show_coastline ==> s.coast_step(zoom, fetched) is Keep,
        s.view.show_coastline ==> (coast_wanted(s.view.coast_level, zoom) == s.view.coast_level
            <==> s.coast_step(zoom, fetched) is Keep),
        s.coast_step(zoom, fetched) is Fetch ==> !fetched && coast_wanted(s.view.coast_level, zoom)
            is Detailed && s.coast_updated(zoom, fetched) == s,
        s.coast_step(zoom, fetched) is Rebuild ==> fetched || coast_wanted(s.view.coast_level, zoom)
            is Embedded,
        s.coast_step(zoom, fetched) is Rebuild ==> s.coast_updated(zoom, fetched).view.coast_level
            == coast_wanted(s.view.coast_level, zoom) && s.coast_updated(
            zoom,
            fetched,
        ).cam.graticule_generation == s.cam.graticule_generation.wrapping_add(1),
        s.coast_step(zoom, fetched) is Keep ==> s.coast_updated(zoom, fetched) == s,
        s.coast_updated(zoom, fetched).layers == s.layers,
{
}

/// Loading all there is reads without a budget, unless the layer is busy or
/// nothing is missing; stopping a read raises its flag.
pub proof fn all_rows_are_read_without_budget(s: Session, id: u64)
    requires
        s.has_layer(id),
    ensures
        ({
            let l = s.layers[s.index_of(id)];
            let busy = s.work.appending.contains(id) || s.work.rebuilding.contains(id);
            let t = s.load_all(id);
            &&& busy ==> t == s
            &&& missing_first(l, l.loaded.len()).len() == 0 ==> t == s
            &&& !busy && missing_first(l, l.loaded.len()).len() > 0 ==> t.work.appending.contains(id)
                && t.layers == s.layers && t.outbox == s.outbox.push(
                Effect::SpawnAppend {
                    layer_id: id,
                    generation: l.generation,
                    flag: s.flags.next(),
                    limit_mb: None,
                },
            )
            &&& s.work.append_cancel.contains_key(id) ==> s.append_stopped(id).flags == s.flags.raise(
                s.work.append_cancel[id],
            )
            &&& s.append_stopped(id).layers == s.layers && s.append_stopped(id).work == s.work
        }),
{
}

proof fn reloading_takes_each_once(s: Session, i: int, k: int)
    requires
        0 <= i <= s.layers.len(),
        0 <= k < s.layers.len(),
    ensures
        ({
            let l = s.layers[k];
            let t = s.reload_from(i);
            let r = t.layers[k];
            &&& t.layers.len() == s.layers.len()
            &&& k < i || l.direct ==> r == l
            &&& k >= i && !l.direct ==> {
                &&& r.id == l.id && r.name == l.name && r.starts == l.starts && r.style == l.style
                &&& r.filter is None && r.sections == 0
                &&& r.generation == l.generation.wrapping_add(1)
                &&& r.draw_gen == l.draw_gen.wrapping_add(1)
                &&& r.loaded.len() == (if l.starts.len() == 0 { 0 } else { l.starts.len() - 1 })
                &&& forall|g: int| 0 <= g < r.loaded.len() ==> (#[trigger] r.loaded[g]) is Unseen
                &&& t.work.rebuilding.contains(l.id)
            }
            &&& s.work.rebuilding.subset_of(t.work.rebuilding)
            &&& t.work.appending.subset_of(s.work.appending)
            &&& k >= i && !l.direct ==> !t.work.appending.contains(l.id)
            &&& t.cam == s.cam && t.pick == s.pick
        }),
    decreases s.layers.len() - i,
{
    if i < s.layers.len() {
        reloading_takes_each_once(s.reload_one(i), i + 1, k);
    }
}

/// Reloading for the viewport forgets what every layer has loaded, its filter
/// with it, and builds it anew; a layer that is loaded whole by design stays as
/// it is. Nothing stays selected.
pub proof fn a_reload_forgets_what_is_loaded(s: Session, k: int)
    requires
        0 <= k < s.layers.len(),
    ensures
        ({
            let l = s.layers[k];
            let t = s.reload_to_viewport();
            let r = t.layers[k];
            &&& t.layers.len() == s.layers.len()
            &&& l.direct ==> r == l
            &&& !l.direct ==> {
                &&& r.id == l.id && r.name == l.name && r.starts == l.starts && r.style == l.style
                &&& r.filter is None && r.sections == 0
                &&& r.generation == l.generation.wrapping_add(1)
                &&& r.loaded.len() == (if l.starts.len() == 0 { 0 } else { l.starts.len() - 1 })
                &&& forall|g: int| 0 <= g < r.loaded.len() ==> (#[trigger] r.loaded[g]) is Unseen
                &&& t.work.rebuilding.contains(l.id)
                &&& !t.work.appending.contains(l.id)
            }
            &&& t.pick.selection is None
        }),
{
    reloading_takes_each_once(s.clear_selection(), 0, k);
}

/// The layers that are in the current projection are those not being built
/// anew, in draw order.
pub proof fn settled_layers_are_in_order(
    s: Session,
    n: nat,
)
    requires
        n <= s.layers.len(),
    ensures
        lists(
            s.settled_first(n),
            n,
            |i: int| !s.work.rebuilding.contains(s.layers[i].id),
            |i: int| s.layers[i].id,
        ),
    decreases n,
{
    if n > 0 {
        settled_layers_are_in_order(s, (n - 1) as nat);
        lists_one_more(
            s.settled_first((n - 1) as nat),
            s.settled_first(n),
            (n - 1) as nat,
            |i: int| !s.work.rebuilding.contains(s.layers[i].id),
            |i: int| s.layers[i].id,
        );
    }
}

} // verus!
