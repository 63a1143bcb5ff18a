//! The session's own transitions: enqueueing loads, switching projections,
//! rebuilding layers, picking and starting over.
use std::collections::HashMap;
use vstd::prelude::*;
use crate::cancel::{fresh_cancel, CancelFlags};
use crate::layers::LayerState;
use crate::session::{
    gate_key, index_from, loading_flags, Capped, CameraState, DeferredLoad, Effect, LoadQueue,
    LoadingJob, PickState, Picked, QualityGate, Session, SourceInfo, Stage, Tint, ViewSettings,
    ViewerApp, Workers, DEFAULT_DISPLAY,
};
use crate::text::{dec, texts};

verus! {

broadcast use vstd::std_specs::hash::group_hash_axioms;

/// A source named on the command line.
#[derive(Debug)]
pub struct StartFile {
    pub source: SourceInfo,
    /// It is a table, with no geometry to draw.
    pub tabular: bool,
}

/// A session after the sources of the command line were opened, in order.
pub open spec fn opened(s: Session, files: Seq<StartFile>) -> Session
    decreases files.len(),
{
    if files.len() == 0 {
        s
    } else {
        let t = if files[0].tabular {
            s.emit(Effect::OpenTable { source: files[0].source.handle, name: None })
        } else {
            s.enqueue_load(files[0].source)
        };
        opened(t, files.subrange(1, files.len() as int))
    }
}

impl QualityGate {
    /// Key a standing answer for this file is remembered under: the size is
    /// part of it, so a file replaced in place is asked about again.
    pub fn key(&self) -> (r: String)
        ensures
            r@ == gate_key(self.label@, self.file_size),
    {
        let mut k = self.label.as_str().to_owned();
        k.append("|");
        k.append(dec(self.file_size).as_str());
        k
    }
}

/// Raise the flag of every load in flight.
fn raise_loading(flags: &mut CancelFlags, loading: &HashMap<u64, LoadingJob>)
    ensures
        final(flags)@ == old(flags)@.raise_all(loading_flags(loading@)),
{
    let ghost before = flags@;
    let ghost all = loading@.values();
    let ghost mine = loading_flags(loading@);
    for j in it: loading.values()
        invariant
            it.seq().unref().to_set() == all,
            all == loading@.values(),
            mine == loading_flags(loading@),
            flags@.up.len() == before.up.len(),
            forall|x: u64| #[trigger] flags@.raised(x) ==> before.raised(x) || mine.contains(x),
            forall|x: u64| before.raised(x) ==> #[trigger] flags@.raised(x),
            forall|k: int|
                0 <= k < it.index() && before.known((#[trigger] it.seq().unref()[k]).flag)
                    ==> flags@.raised(it.seq().unref()[k].flag),
    {
        assert(it.seq().unref()[it.index() as int] == *j);
        assert(it.seq().unref().to_set().contains(*j));
        let ghost job = choose|job: u64| loading@.contains_key(job) && loading@[job] == *j;
        assert(loading@.contains_key(job));
        assert(mine.contains(j.flag));
        let ghost pre = flags@;
        flags.raise(j.flag);
        assert(forall|x: u64| #[trigger] flags@.raised(x) <==> pre.raised(x) || (x == j.flag
            && pre.known(x)));
    }
    proof {
        flags.numbers_suffice();
    }
    assert forall|x: u64| before.known(x) && #[trigger] mine.contains(x) implies flags@.raised(x) by {
        let job = choose|job: u64| #[trigger]
            loading@.contains_key(job) && loading@[job].flag == x;
        assert(all.contains(loading@[job]));
    }
    assert forall|x: int| 0 <= x < before.up.len() implies #[trigger] flags@.up[x]
        == before.raise_all(mine).up[x] by {
        assert(flags@.raised(x as u64) == (before.raised(x as u64) || mine.contains(x as u64)));
    }
    assert(flags@.up =~= before.raise_all(mine).up);
}

impl ViewerApp {
    /// A session with the given standing "load all" answers, opening the
    /// given sources.
    pub fn new(direct_files: Vec<String>, files: std::collections::VecDeque<StartFile>) -> (r: ViewerApp)
        ensures
            r@ == opened(Session::fresh(texts(direct_files@)), files@),
    {
        let mut outbox: Vec<Effect> = Vec::new();
        outbox.push(Effect::BuildOverlays);
        let mut app = ViewerApp {
            layers: Vec::new(),
            work: Workers::new(),
            queue: LoadQueue {
                loading: HashMap::new(),
                pending_styles: HashMap::new(),
                pending_filters: HashMap::new(),
                pending_names: HashMap::new(),
                projection_decider: None,
                deferred: Vec::new(),
                gates: Vec::new(),
                next_job: 0,
                next_layer_id: 0,
                palette_idx: 0,
            },
            flags: CancelFlags::new(),
            cam: CameraState {
                display: DEFAULT_DISPLAY,
                display_gen: 0,
                graticule_generation: 0,
                auto_projection: true,
                pending_fit: true,
                fit_bounds: None,
                frame_bounds: None,
                camera_moved: false,
                fit_after_rebuilds: false,
                cam_epoch: 0,
            },
            pick: PickState {
                selection: None,
                highlight: false,
                attrs_truncated: None,
                selection_generation: 0,
                pick_job: 0,
                pick_pending: false,
                sql_highlight: false,
                sql_highlight_generation: 0,
            },
            view: ViewSettings::new(),
            errors: Vec::new(),
            show_errors: false,
            direct_files,
            strip_probe: 0,
            outbox,
        };
        let ghost all = files@;
        let ghost start = Session::fresh(texts(direct_files@));
        assert(app@ =~= start);
        let mut rest = files;
        while rest.len() > 0
            invariant
                opened(start, all) == opened(app@, rest@),
            decreases rest@.len(),
        {
            if let Some(f) = rest.pop_front() {
                if f.tabular {
                    app.emit(Effect::OpenTable { source: f.source.handle, name: None });
                } else {
                    app.enqueue_load(f.source);
                }
            }
        }
        app
    }

    pub(crate) fn emit(&mut self, e: Effect)
        ensures
            final(self)@ == old(self)@.emit(e),
    {
        self.outbox.push(e);
    }

    /// What the caller has to do now, in order; asked for once.
    pub fn take_effects(&mut self) -> (r: Vec<Effect>)
        ensures
            r@ == old(self)@.outbox,
            final(self)@ == (Session { outbox: Seq::empty(), ..old(self)@ }),
    {
        let mut out: Vec<Effect> = Vec::new();
        std::mem::swap(&mut out, &mut self.outbox);
        out
    }

    /// Index of the layer with this id.
    pub fn position(&self, id: u64) -> (r: Option<usize>)
        ensures
            r matches Some(i) ==> i < self@.layers.len() && i == self@.index_of(id) && self@.layers[i as int].id == id,
            r is None ==> !self@.has_layer(id),
    {
        let mut i: usize = 0;
        while i < self.layers.len()
            invariant
                i <= self.layers@.len(),
                index_from(self@.layers, id, 0) == index_from(self@.layers, id, i as int),
            decreases self.layers@.len() - i,
        {
            if self.layers[i].id == id {
                return Some(i);
            }
            i += 1;
        }
        None
    }

    pub fn push_error(&mut self, e: String)
        ensures
            final(self)@ == old(self)@.push_error(e@),
    {
        let ghost before = self.errors@;
        self.errors.push(e);
        self.show_errors = true;
        assert(texts(self.errors@) =~= texts(before).push(e@));
    }

    pub fn apply_pick(&mut self, sel: Option<Picked>, truncated: Option<Capped>)
        ensures
            final(self)@ == old(self)@.apply_pick(sel, truncated),
    {
        self.pick.selection_generation = self.pick.selection_generation.wrapping_add(1);
        self.pick.highlight = sel.is_some();
        self.pick.attrs_truncated = truncated;
        self.pick.selection = sel;
    }

    /// Clear the picked feature and disown any pick in flight.
    pub fn clear_selection(&mut self)
        ensures
            final(self)@ == old(self)@.clear_selection(),
    {
        self.pick.pick_job = self.pick.pick_job.wrapping_add(1);
        self.pick.pick_pending = false;
        self.apply_pick(None, None);
    }

    /// Start picking; the answer must carry the number returned.
    pub fn start_pick(&mut self) -> (job: u64)
        ensures
            job == old(self)@.pick.pick_job.wrapping_add(1),
            final(self)@ == old(self)@.picking(),
    {
        self.pick.pick_job = self.pick.pick_job.wrapping_add(1);
        self.pick.pick_pending = true;
        self.pick.pick_job
    }

    /// The answer to a pick; one that was superseded is dropped.
    pub fn poll_pick_answer(&mut self, job: u64, sel: Option<Picked>, truncated: Option<Capped>)
        ensures
            final(self)@ == old(self)@.pick_answered(job, sel, truncated),
    {
        if job != self.pick.pick_job {
            return;
        }
        self.pick.pick_pending = false;
        self.apply_pick(sel, truncated);
    }

    /// Show, or stop showing, the rows checked in the SQL console.
    pub fn apply_sql_selection(&mut self, any: bool)
        ensures
            final(self)@ == (Session {
                pick: PickState {
                    sql_highlight: any,
                    sql_highlight_generation: old(self)@.pick.sql_highlight_generation.wrapping_add(1),
                    ..old(self)@.pick
                },
                ..old(self)@
            }),
    {
        self.pick.sql_highlight_generation = self.pick.sql_highlight_generation.wrapping_add(1);
        self.pick.sql_highlight = any;
    }

    pub(crate) fn arm_rebuild(&mut self, layer_id: u64) -> (flag: u64)
        ensures
            flag == old(self)@.flags.next(),
            final(self)@ == old(self)@.arm_rebuild(layer_id),
    {
        self.work.rebuilding.insert(layer_id);
        fresh_cancel(&mut self.work.rebuild_cancel, layer_id, &mut self.flags)
    }

    pub(crate) fn begin_rebuild(&mut self, i: usize)
        requires
            i < old(self).layers@.len(),
        ensures
            final(self)@ == old(self)@.begin_rebuild(i as int),
    {
        let ghost before = self@;
        let generation: u64 = self.layers[i].generation.wrapping_add(1);
        let layer_id: u64 = self.layers[i].id;
        self.layers[i].generation = generation;
        assert(self@.layers =~= before.layers.update(
            i as int,
            LayerState { generation, ..before.layers[i as int] },
        ));
        let flag = self.arm_rebuild(layer_id);
        self.emit(Effect::SpawnRebuild { layer_id, generation, flag });
    }

    /// Rebuild every layer for the current display, but `skip`, which is
    /// built in it already.
    pub fn rebuild_layers_for_display(&mut self, skip: Option<u64>)
        ensures
            final(self)@ == old(self)@.rebuild_from(skip, 0),
    {
        let mut i: usize = 0;
        let ghost before = self@;
        while i < self.layers.len()
            invariant
                i <= self.layers@.len(),
                before.rebuild_from(skip, 0) == self@.rebuild_from(skip, i as int),
            decreases self.layers@.len() - i,
        {
            if skip != Some(self.layers[i].id) {
                self.begin_rebuild(i);
            }
            i += 1;
        }
    }

    /// Switch the display without rebuilding layers: they were built in it.
    pub fn adopt_display_lite(&mut self, d: u64)
        ensures
            final(self)@ == old(self)@.adopt_display_lite(d),
    {
        self.cam.display_gen = self.cam.display_gen.wrapping_add(1);
        self.cam.display = d;
        self.clear_selection();
        self.cam.graticule_generation = self.cam.graticule_generation.wrapping_add(1);
        self.emit(Effect::BuildOverlays);
        self.emit(Effect::DropRowGroupOverlays);
    }

    /// Switch the display and rebuild every layer for it.
    pub fn set_display(&mut self, d: u64)
        ensures
            final(self)@ == old(self)@.set_display(d),
    {
        self.cam.display_gen = self.cam.display_gen.wrapping_add(1);
        self.cam.display = d;
        self.pick.selection = None;
        self.pick.highlight = false;
        self.pick.sql_highlight = false;
        self.pick.sql_highlight_generation = self.pick.sql_highlight_generation.wrapping_add(1);
        self.cam.graticule_generation = self.cam.graticule_generation.wrapping_add(1);
        self.emit(Effect::BuildOverlays);
        self.rebuild_layers_for_display(None);
        if self.layers.len() == 0 {
            self.cam.pending_fit = true;
        } else {
            self.cam.fit_after_rebuilds = true;
        }
    }

    pub fn camera_after_adoption(&mut self, old_display: u64)
        ensures
            final(self)@ == old(self)@.camera_after_adoption(old_display),
    {
        if self.cam.camera_moved {
            self.emit(Effect::TransferCamera { from: old_display });
        } else {
            self.cam.pending_fit = true;
        }
    }

    pub(crate) fn set_stage(&mut self, job: u64, stage: Stage)
        ensures
            final(self)@ == if old(self)@.queue.loading.contains_key(job) {
                Session {
                    queue: crate::session::Loads {
                        loading: old(self)@.queue.loading.insert(
                            job,
                            LoadingJob { stage, ..old(self)@.queue.loading[job] },
                        ),
                        ..old(self)@.queue
                    },
                    ..old(self)@
                }
            } else {
                old(self)@
            },
    {
        let ghost before = self@.queue.loading;
        if let Some(j) = self.queue.loading.remove(&job) {
            self.queue.loading.insert(
                job,
                LoadingJob {
                    label: j.label,
                    frac_bits: j.frac_bits,
                    stage,
                    display_gen: j.display_gen,
                    flag: j.flag,
                },
            );
        }
        assert(self@.queue.loading =~= if before.contains_key(job) {
            before.insert(job, LoadingJob { stage, ..before[job] })
        } else {
            before
        });
    }

    pub(crate) fn spawn_load(&mut self, d: DeferredLoad, auto_project: bool)
        ensures
            final(self)@ == old(self)@.spawn_load(d, auto_project),
    {
        let ghost before = self@.queue.loading;
        let display_gen: u64 = self.cam.display_gen;
        if let Some(j) = self.queue.loading.remove(&d.job) {
            self.queue.loading.insert(
                d.job,
                LoadingJob {
                    label: j.label,
                    frac_bits: j.frac_bits,
                    stage: Stage::Queued,
                    display_gen,
                    flag: j.flag,
                },
            );
        }
        assert(self@.queue.loading =~= if before.contains_key(d.job) {
            before.insert(d.job, LoadingJob { stage: Stage::Queued, display_gen, ..before[d.job] })
        } else {
            before
        });
        self.emit(
            Effect::SpawnLoad {
                job: d.job,
                layer_id: d.layer_id,
                source: d.source,
                tint: d.tint,
                auto_project,
                flag: d.flag,
            },
        );
    }

    /// Start the loads that waited on the projection decision.
    pub fn flush_deferred_loads(&mut self)
        ensures
            final(self)@ == old(self)@.flush_deferred(),
    {
        let mut ds: Vec<DeferredLoad> = Vec::new();
        std::mem::swap(&mut ds, &mut self.queue.deferred);
        let ghost start = self@;
        let mut i: usize = 0;
        assert(ds@.subrange(0, ds@.len() as int) =~= ds@);
        while i < ds.len()
            invariant
                i <= ds@.len(),
                start.spawn_loads(ds@) == self@.spawn_loads(ds@.subrange(i as int, ds@.len() as int)),
            decreases ds@.len() - i,
        {
            let ghost tail = ds@.subrange(i as int, ds@.len() as int);
            assert(tail.subrange(1, tail.len() as int) =~= ds@.subrange(i + 1, ds@.len() as int));
            self.spawn_load(ds[i], false);
            i += 1;
        }
    }

    /// Register a load of `source`; the number of its job is returned.
    pub fn enqueue_load(&mut self, source: SourceInfo) -> (job: u64)
        ensures
            job == old(self)@.queue.next_job,
            final(self)@ == old(self)@.enqueue_load(source),
    {
        let ghost before = self@;
        let auto_project = self.cam.auto_projection && self.layers.len() == 0
            && self.queue.loading.is_empty() && self.queue.pending_styles.is_empty();
        let job: u64 = self.queue.next_job;
        self.queue.next_job = job.wrapping_add(1);
        let layer_id: u64 = self.queue.next_layer_id;
        self.queue.next_layer_id = layer_id.wrapping_add(1);
        let tint = match source.theme {
            Some(c) => Tint::Thematic(c),
            None => {
                let at: usize = self.queue.palette_idx;
                self.queue.palette_idx = at.wrapping_add(1);
                Tint::Palette(at)
            },
        };
        let flag = self.flags.issue();
        if auto_project {
            self.queue.projection_decider = Some(job);
        }
        let waits = self.queue.projection_decider.is_some() && self.queue.projection_decider != Some(
            job,
        );
        let stage = if waits {
            Stage::WaitingForProjection
        } else {
            Stage::Queued
        };
        self.queue.loading.insert(
            job,
            LoadingJob {
                label: source.label,
                frac_bits: 0,
                stage,
                display_gen: self.cam.display_gen,
                flag,
            },
        );
        let d = DeferredLoad { job, layer_id, source: source.handle, tint, flag };
        assert(d == before.next_load(source));
        if waits {
            self.queue.deferred.push(d);
        } else {
            self.spawn_load(d, auto_project);
        }
        job
    }

    /// Register a load of `source` whose layer will go by `name`.
    pub fn enqueue_named(&mut self, source: SourceInfo, name: String) -> (job: u64)
        ensures
            job == old(self)@.queue.next_job,
            final(self)@ == old(self)@.enqueue_named(source, name),
    {
        let job = self.enqueue_load(source);
        self.queue.pending_names.insert(job, name);
        job
    }

    /// Stop every worker still delivering into this session, and drop what
    /// was kept for it.
    pub fn cancel_in_flight(&mut self)
        ensures
            final(self)@ == old(self)@.cancel_in_flight(),
    {
        raise_loading(&mut self.flags, &self.queue.loading);
        self.flags.raise_values(&self.work.append_cancel);
        self.flags.raise_values(&self.work.rebuild_cancel);
        self.queue.loading.clear();
        self.work.append_cancel.clear();
        self.work.rebuild_cancel.clear();
        self.queue.projection_decider = None;
        self.queue.deferred.clear();
        self.queue.pending_styles.clear();
        self.queue.pending_filters.clear();
        self.queue.pending_names.clear();
    }

    /// Back to a blank session: no layers, and the projection, camera and
    /// view settings a session starts with.
    pub fn reset_layout(&mut self)
        ensures
            final(self)@ == old(self)@.reset_layout(),
    {
        self.cancel_in_flight();
        self.layers.clear();
        self.work = Workers::new();
        self.queue.gates.clear();
        self.queue.palette_idx = 0;
        self.errors.clear();
        self.show_errors = false;
        assert(self@.layers =~= Seq::empty());
        assert(self@.errors =~= Seq::empty());
        self.emit(Effect::DropSession);
        self.clear_selection();
        self.pick.sql_highlight = false;
        self.pick.sql_highlight_generation = self.pick.sql_highlight_generation.wrapping_add(1);
        self.cam.auto_projection = true;
        self.cam.fit_bounds = None;
        self.cam.frame_bounds = None;
        self.cam.fit_after_rebuilds = false;
        self.view = ViewSettings::new();
        self.set_display(DEFAULT_DISPLAY);
        self.cam.camera_moved = false;
        self.emit(Effect::ResetCamera);
        self.emit(Effect::ReleaseMemory);
    }

    /// Compute the rows of a layer that match a predicate.
    pub fn start_layer_filter(&mut self, layer_id: u64, predicate: String)
        ensures
            final(self)@ == old(self)@.start_layer_filter(layer_id, predicate),
    {
        if let Some(i) = self.position(layer_id) {
            let groups: usize = if self.layers[i].starts.len() == 0 {
                0
            } else {
                self.layers[i].starts.len() - 1
            };
            let use_boxes = match self.layers[i].boxes {
                Some(n) => n == groups,
                None => false,
            };
            self.work.filter_pending.insert(layer_id);
            self.emit(Effect::SpawnFilter { layer_id, predicate, use_boxes });
        }
    }

    /// Resume a paused load: every row is decoded.
    pub fn resume_gated(&mut self, gate: QualityGate)
        ensures
            final(self)@ == old(self)@.resume_gated(gate),
    {
        let known = match self.queue.loading.get(&gate.job) {
            Some(j) => Some(j.flag),
            None => None,
        };
        let flag: u64 = match known {
            Some(f) => f,
            None => self.flags.issue(),
        };
        self.set_stage(gate.job, Stage::LoadingAllRows);
        self.emit(
            Effect::SpawnGated {
                job: gate.job,
                layer_id: gate.layer_id,
                opened: gate.opened,
                tint: gate.tint,
                auto_project: gate.auto_project,
                flag,
            },
        );
    }

    /// Abandon a paused load: as after a failure, without an error.
    pub fn drop_gated(&mut self, job: u64)
        ensures
            final(self)@ == old(self)@.drop_gated(job),
    {
        self.queue.loading.remove(&job);
        if self.queue.projection_decider == Some(job) {
            self.queue.projection_decider = None;
            self.flush_deferred_loads();
        }
    }
}

} // verus!
