//! What the session makes of the messages its loading workers send.
use std::collections::VecDeque;
use vstd::prelude::*;
use crate::layers::{
    kind_rank, landing, landing_position, rank, resize_loads, resized, GroupLoad, Layer, LayerState,
};
use crate::session::{
    gate_key, CameraState, Effect, EndReason, LoadingJob, Loads, QualityGate, Session, Stage,
    ViewerApp, Work, STRIP_FRAMES,
};
use crate::text::{dec, decimal, starts_with};

verus! {

broadcast use vstd::std_specs::hash::group_hash_axioms;

/// A message from a loading worker.
pub enum LoadMsg {
    Progress { job: u64, frac_bits: u32, stage: String },
    /// Where the layer will lie, known before its geometry is; with the
    /// display it will be built in, if that is another one.
    Framed { job: u64, display: Option<u64>, world: u64 },
    /// A finished layer, and the display it suggests: already built in it, or
    /// to be rebuilt.
    Loaded { job: u64, layer: Layer, geometry: u64, adopt: Option<(u64, bool)> },
    Rebuilt { layer_id: u64, generation: u64, geometry: u64, build_ms: u64, bad_geoms: usize },
    Reloaded {
        layer_id: u64,
        generation: u64,
        geometry: u64,
        loaded: Vec<GroupLoad>,
        rows: usize,
        bad_geoms: usize,
        build_ms: u64,
    },
    Appended {
        layer_id: u64,
        generation: u64,
        geometry: u64,
        rows: usize,
        updates: VecDeque<(u32, GroupLoad)>,
        done: bool,
    },
    /// No error where the rebuild was stopped on purpose.
    RebuildFailed { layer_id: u64, generation: u64, error: Option<String> },
    PartsOpened {
        layer_id: u64,
        generation: u64,
        store: u64,
        starts: Vec<u64>,
        added_boxes: usize,
        added_groups: usize,
        names: usize,
    },
    AppendEnded { layer_id: u64, reason: EndReason },
    RefineDeferred { layer_id: u64, at_least_rows: u64, geom_bytes: Option<u64> },
    Gated { gate: QualityGate },
    /// No error where the load was stopped on purpose.
    Failed { job: u64, source: String, error: Option<String> },
}

/// What a batch of messages leaves to be done at its end.
#[derive(Clone, Copy, PartialEq, Eq, Structural, Debug)]
pub struct Batch {
    /// The projection to switch to, rebuilding every layer.
    pub rebuild_display: Option<u64>,
    /// The load that was to decide the projection has ended.
    pub decider_done: bool,
    /// The only layer on the map arrived: it is framed in any case.
    pub first_layer_fit: bool,
}

/// Nothing left to do.
pub open spec fn no_batch() -> Batch {
    Batch { rebuild_display: None, decider_done: false, first_layer_fit: false }
}

/// A load table after updates, in order; those past its end are ignored.
pub open spec fn with_updates(loaded: Seq<GroupLoad>, ups: Seq<(u32, GroupLoad)>) -> Seq<GroupLoad>
    decreases ups.len(),
{
    if ups.len() == 0 {
        loaded
    } else {
        with_updates(
            if ups[0].0 < loaded.len() {
                loaded.update(ups[0].0 as int, ups[0].1)
            } else {
                loaded
            },
            ups.subrange(1, ups.len() as int),
        )
    }
}

/// Whether an update takes a group out of box display.
pub open spec fn replaces_boxes(loaded: Seq<GroupLoad>, ups: Seq<(u32, GroupLoad)>) -> bool
    decreases ups.len(),
{
    if ups.len() == 0 {
        false
    } else if ups[0].0 < loaded.len() {
        loaded[ups[0].0 as int] is Boxes || replaces_boxes(
            loaded.update(ups[0].0 as int, ups[0].1),
            ups.subrange(1, ups.len() as int),
        )
    } else {
        replaces_boxes(loaded, ups.subrange(1, ups.len() as int))
    }
}

/// The message about geometries that could not be used.
pub open spec fn bad_geoms_text(name: Seq<char>, n: usize) -> Seq<char> {
    name + ": "@ + decimal(n as nat) + " geometries could not be decoded/projected"@
}

/// The message about a load that failed: low-level errors name the source
/// already, others get it in front.
pub open spec fn failure_text(source: Seq<char>, error: Seq<char>) -> Seq<char> {
    if source.is_prefix_of(error) {
        error
    } else {
        source + ": "@ + error
    }
}

impl Session {
    /// The error of a worker that ended, unless it was stopped on purpose or
    /// had nothing to do.
    pub open spec fn report(self, e: EndReason) -> Session {
        match e {
            EndReason::Error(text) => self.push_error(text@),
            _ => self,
        }
    }

    pub open spec fn on_progress(self, job: u64, frac_bits: u32, stage: String) -> Session {
        if self.queue.loading.contains_key(job) {
            Session {
                queue: Loads {
                    loading: self.queue.loading.insert(
                        job,
                        LoadingJob {
                            frac_bits,
                            stage: Stage::Reported(stage),
                            ..self.queue.loading[job]
                        },
                    ),
                    ..self.queue
                },
                ..self
            }
        } else {
            self
        }
    }

    /// The first layer onto an empty map nobody has framed is framed before
    /// it arrives, in the projection it will arrive in.
    pub open spec fn on_framed(self, job: u64, display: Option<u64>, world: u64) -> Session {
        if self.layers.len() == 0 && !self.cam.camera_moved && !self.queue.pending_styles.contains_key(
            job,
        ) && self.queue.loading.contains_key(job) {
            let s = match display {
                Some(d) => {
                    let a = self.adopt_display_lite(d);
                    Session {
                        queue: Loads {
                            loading: a.queue.loading.insert(
                                job,
                                LoadingJob {
                                    display_gen: a.cam.display_gen,
                                    ..a.queue.loading[job]
                                },
                            ),
                            ..a.queue
                        },
                        ..a
                    }
                },
                None => self,
            };
            Session { cam: CameraState { frame_bounds: Some(world), ..s.cam }, ..s }
        } else {
            self
        }
    }

    /// The layer a load delivers, under the name and style kept for it.
    pub open spec fn dressed(self, job: u64, layer: LayerState) -> LayerState {
        let named = if self.queue.pending_names.contains_key(job) {
            LayerState { name: self.queue.pending_names[job]@, ..layer }
        } else {
            layer
        };
        if self.queue.pending_styles.contains_key(job) {
            LayerState { style: self.queue.pending_styles[job], ..named }
        } else {
            named
        }
    }

    /// The display suggestion that counts: none once the projection was
    /// changed during the load, or is no longer automatic.
    pub open spec fn accepted(self, job: u64, adopt: Option<(u64, bool)>) -> Option<(u64, bool)> {
        if self.queue.loading[job].display_gen == self.cam.display_gen && self.cam.auto_projection {
            adopt
        } else {
            None
        }
    }

    /// The geometry delivered lies in another display than the current one.
    pub open spec fn misbuilt(self, job: u64, adopt: Option<(u64, bool)>) -> bool {
        &&& self.accepted(job, adopt) is None
        &&& self.queue.loading[job].display_gen != self.cam.display_gen || (adopt matches Some(a)
            && a.1)
    }

    /// The layer joins the map on top of its category.
    pub open spec fn land(self, layer: LayerState) -> Session {
        Session {
            layers: self.layers.insert(landing(self.layers, rank(layer.kind)), layer),
            ..self
        }
    }

    /// The layer of `job` arrived: its job is over, and the layer stands in
    /// the list, rebuilding where its geometry lies in another display.
    pub open spec fn arrive(self, job: u64, layer: LayerState, geometry: u64, adopt: Option<(u64, bool)>) -> Session {
        let s1 = Session {
            queue: Loads {
                loading: self.queue.loading.remove(job),
                pending_names: self.queue.pending_names.remove(job),
                pending_styles: self.queue.pending_styles.remove(job),
                ..self.queue
            },
            ..self
        };
        let s2 = if layer.bad_geoms > 0 {
            s1.push_error(bad_geoms_text(layer.name, layer.bad_geoms))
        } else {
            s1
        };
        let l = self.dressed(job, layer);
        if self.misbuilt(job, adopt) {
            let generation = l.generation.wrapping_add(1);
            s2.arm_rebuild(l.id).land(LayerState { generation, ..l }).emit(
                Effect::ReplaceSections { layer_id: l.id, geometry },
            ).emit(Effect::SpawnRebuild { layer_id: l.id, generation, flag: s2.flags.next() })
        } else {
            s2.land(l).emit(Effect::ReplaceSections { layer_id: l.id, geometry })
        }
    }

    /// The filter kept for the job is computed, now that its layer exists.
    pub open spec fn restore_filter(self, job: u64, layer_id: u64) -> Session {
        if self.queue.pending_filters.contains_key(job) {
            Session {
                queue: Loads {
                    pending_filters: self.queue.pending_filters.remove(job),
                    ..self.queue
                },
                ..self
            }.start_layer_filter(layer_id, self.queue.pending_filters[job])
        } else {
            self
        }
    }

    /// The only layer on the map is framed once its geometry is in the
    /// current display.
    pub open spec fn frame_first(self, layer_id: u64, accepted: Option<(u64, bool)>) -> Session {
        match accepted {
            Some((_, false)) => self,
            _ => if self.work.rebuilding.contains(layer_id) {
                Session { cam: CameraState { fit_after_rebuilds: true, ..self.cam }, ..self }
            } else {
                Session { cam: CameraState { pending_fit: true, ..self.cam }, ..self }
            },
        }
    }

    pub open spec fn on_loaded(
        self,
        b: Batch,
        job: u64,
        layer: LayerState,
        geometry: u64,
        adopt: Option<(u64, bool)>,
    ) -> (Session, Batch) {
        if !self.queue.loading.contains_key(job) {
            (self, b)
        } else {
            let accepted = self.accepted(job, adopt);
            let s1 = self.arrive(job, layer, geometry, adopt).restore_filter(job, layer.id);
            let first = s1.layers.len() == 1 && !self.queue.pending_styles.contains_key(job);
            let s2 = if first {
                s1.frame_first(layer.id, accepted)
            } else {
                s1
            };
            let s3 = match accepted {
                Some((d, true)) => s2.adopt_display_lite(d).rebuild_from(
                    Some(layer.id),
                    0,
                ).camera_after_adoption(s2.cam.display),
                _ => s2,
            };
            (
                s3.end_decider(job),
                Batch {
                    rebuild_display: match accepted {
                        Some((d, false)) => Some(d),
                        _ => b.rebuild_display,
                    },
                    decider_done: b.decider_done || s3.queue.projection_decider == Some(job),
                    first_layer_fit: b.first_layer_fit || first,
                },
            )
        }
    }

    /// The layer with this id exists and still is at this generation.
    pub open spec fn current(self, layer_id: u64, generation: u64) -> bool {
        self.has_layer(layer_id) && self.layers[self.index_of(layer_id)].generation == generation
    }

    /// No rebuild of the layer is in flight any more.
    pub open spec fn rebuild_over(self, layer_id: u64) -> Session {
        Session {
            work: Work {
                rebuilding: self.work.rebuilding.remove(layer_id),
                consolidating: self.work.consolidating.remove(layer_id),
                rebuild_cancel: self.work.rebuild_cancel.remove(layer_id),
                ..self.work
            },
            ..self
        }
    }

    pub open spec fn put(self, i: int, l: LayerState) -> Session {
        Session { layers: self.layers.update(i, l), ..self }
    }

    pub open spec fn on_rebuilt(
        self,
        layer_id: u64,
        generation: u64,
        geometry: u64,
        build_ms: u64,
        bad_geoms: usize,
    ) -> Session {
        let i = self.index_of(layer_id);
        let s = if self.current(layer_id, generation) {
            let l = self.layers[i];
            let t = self.put(
                i,
                LayerState {
                    sections: 1,
                    draw_gen: l.draw_gen.wrapping_add(1),
                    build_ms,
                    bad_geoms,
                    ..l
                },
            ).rebuild_over(layer_id).emit(Effect::ReplaceSections { layer_id, geometry });
            if t.work.rebuilding.is_empty() && t.cam.fit_after_rebuilds {
                Session { cam: CameraState { pending_fit: true, ..t.cam }, ..t }
            } else {
                t
            }
        } else {
            self
        };
        if s.work.rebuilding.is_empty() {
            Session { cam: CameraState { fit_after_rebuilds: false, ..s.cam }, ..s }
        } else {
            s
        }
    }

    pub open spec fn on_reloaded(
        self,
        layer_id: u64,
        generation: u64,
        geometry: u64,
        loaded: Seq<GroupLoad>,
        rows: usize,
        bad_geoms: usize,
        build_ms: u64,
    ) -> Session {
        if self.current(layer_id, generation) {
            let i = self.index_of(layer_id);
            let l = self.layers[i];
            let t = self.put(
                i,
                LayerState {
                    sections: 1,
                    draw_gen: l.draw_gen.wrapping_add(1),
                    loaded,
                    feature_count: rows,
                    build_ms,
                    bad_geoms,
                    ..l
                },
            ).rebuild_over(layer_id).emit(Effect::ReplaceSections { layer_id, geometry });
            if t.work.rebuilding.is_empty() {
                t.emit(Effect::ReleaseMemory)
            } else {
                t
            }
        } else {
            self
        }
    }

    /// The sections of layer `i` are merged by a rebuild that keeps it drawn.
    pub open spec fn consolidate(self, layer_id: u64) -> Session {
        if self.has_layer(layer_id) {
            let s = self.begin_rebuild(self.index_of(layer_id));
            Session {
                work: Work { consolidating: s.work.consolidating.insert(layer_id), ..s.work },
                ..s
            }
        } else {
            self
        }
    }

    pub open spec fn on_appended(
        self,
        layer_id: u64,
        generation: u64,
        geometry: u64,
        rows: usize,
        ups: Seq<(u32, GroupLoad)>,
        done: bool,
    ) -> Session {
        let s = if done {
            Session {
                work: Work {
                    appending: self.work.appending.remove(layer_id),
                    part_appending: self.work.part_appending.remove(layer_id),
                    append_cancel: self.work.append_cancel.remove(layer_id),
                    ..self.work
                },
                ..self
            }
        } else {
            self
        };
        if s.current(layer_id, generation) {
            let i = s.index_of(layer_id);
            let l = s.layers[i];
            let t = s.put(
                i,
                LayerState {
                    sections: l.sections.wrapping_add(1),
                    feature_count: l.feature_count.wrapping_add(rows),
                    loaded: with_updates(l.loaded, ups),
                    ..l
                },
            ).emit(Effect::PushSection { layer_id, geometry });
            if done && (l.box_layer || replaces_boxes(l.loaded, ups)) {
                t.consolidate(layer_id)
            } else {
                t
            }
        } else {
            s
        }
    }

    pub open spec fn on_rebuild_failed(self, layer_id: u64, generation: u64, error: Option<String>) -> Session {
        let s = if self.current(layer_id, generation) {
            self.rebuild_over(layer_id)
        } else {
            self
        };
        match error {
            Some(e) => s.push_error(e@),
            None => s,
        }
    }

    pub open spec fn on_parts_opened(
        self,
        layer_id: u64,
        generation: u64,
        store: u64,
        starts: Seq<u64>,
        added_boxes: usize,
        added_groups: usize,
        names: usize,
    ) -> Session {
        if self.current(layer_id, generation) {
            let i = self.index_of(layer_id);
            let l = self.layers[i];
            let groups = (starts.len() - 1) as nat;
            let extend = added_boxes == added_groups;
            let boxes = match l.boxes {
                Some(n) => {
                    let m = if extend {
                        n.wrapping_add(added_boxes)
                    } else {
                        n
                    };
                    if m == groups {
                        Some(m)
                    } else {
                        None
                    }
                },
                None => None,
            };
            self.put(
                i,
                LayerState {
                    starts,
                    loaded: resized(l.loaded, groups),
                    boxes,
                    files: l.files.wrapping_add(names),
                    ..l
                },
            ).emit(
                Effect::AdoptStore {
                    layer_id,
                    store,
                    extend_boxes: l.boxes is Some && extend,
                    drop_boxes: l.boxes is Some && boxes is None,
                },
            )
        } else {
            self
        }
    }

    /// The camera has not moved since the layer's refinement was spawned.
    pub open spec fn same_view(self, layer_id: u64) -> bool {
        self.work.refine_epoch.contains_key(layer_id) && self.work.refine_epoch[layer_id]
            == self.cam.cam_epoch
    }

    pub open spec fn on_append_ended(self, layer_id: u64, error: EndReason) -> Session {
        let was_parts = self.work.part_appending.contains(layer_id);
        let nothing = was_parts && error is NothingToAppend;
        let held = !nothing && self.same_view(layer_id);
        Session {
            work: Work {
                appending: self.work.appending.remove(layer_id),
                append_cancel: self.work.append_cancel.remove(layer_id),
                part_appending: self.work.part_appending.remove(layer_id),
                part_hold: if nothing || (held && was_parts) {
                    self.work.part_hold.insert(layer_id)
                } else {
                    self.work.part_hold
                },
                refine_hold: if held {
                    self.work.refine_hold.insert(layer_id)
                } else {
                    self.work.refine_hold
                },
                ..self.work
            },
            ..self
        }.report(error)
    }

    pub open spec fn on_refine_deferred(self, layer_id: u64, rows: u64, bytes: Option<u64>) -> Session {
        let held = self.same_view(layer_id);
        Session {
            work: Work {
                appending: self.work.appending.remove(layer_id),
                append_cancel: self.work.append_cancel.remove(layer_id),
                refine_hold: if held {
                    self.work.refine_hold.insert(layer_id)
                } else {
                    self.work.refine_hold
                },
                refine_deferred: if held {
                    self.work.refine_deferred.insert(layer_id, (rows, bytes))
                } else {
                    self.work.refine_deferred
                },
                ..self.work
            },
            ..self
        }
    }

    /// A file with a standing "load all" answer goes on; any other one waits
    /// for an answer.
    pub open spec fn on_gated(self, gate: QualityGate) -> Session {
        if self.direct_files.contains(gate_key(gate.label@, gate.file_size)) {
            self.resume_gated(gate)
        } else {
            let q = if self.queue.loading.contains_key(gate.job) {
                Loads {
                    loading: self.queue.loading.insert(
                        gate.job,
                        LoadingJob { stage: Stage::WaitingForAnswer, ..self.queue.loading[gate.job] },
                    ),
                    ..self.queue
                }
            } else {
                self.queue
            };
            Session { queue: Loads { gates: q.gates.push(gate), ..q }, ..self }
        }
    }

    pub open spec fn on_failed(self, b: Batch, job: u64, source: Seq<char>, error: Option<String>) -> (
        Session,
        Batch,
    ) {
        let s = Session {
            queue: Loads { loading: self.queue.loading.remove(job), ..self.queue },
            ..self
        }.end_decider(job);
        (
            match error {
                Some(e) => s.push_error(failure_text(source, e@)),
                None => s,
            },
            Batch {
                decider_done: b.decider_done || self.queue.projection_decider == Some(job),
                ..b
            },
        )
    }

    /// One message.
    pub open spec fn on_message(self, b: Batch, m: LoadMsg) -> (Session, Batch) {
        let s = Session { strip_probe: STRIP_FRAMES, ..self };
        match m {
            LoadMsg::Progress { job, frac_bits, stage } => (s.on_progress(job, frac_bits, stage), b),
            LoadMsg::Framed { job, display, world } => (s.on_framed(job, display, world), b),
            LoadMsg::Loaded { job, layer, geometry, adopt } => s.on_loaded(
                b,
                job,
                layer@,
                geometry,
                adopt,
            ),
            LoadMsg::Rebuilt { layer_id, generation, geometry, build_ms, bad_geoms } => (
                s.on_rebuilt(layer_id, generation, geometry, build_ms, bad_geoms),
                b,
            ),
            LoadMsg::Reloaded { layer_id, generation, geometry, loaded, rows, bad_geoms, build_ms } => (
                s.on_reloaded(layer_id, generation, geometry, loaded@, rows, bad_geoms, build_ms),
                b,
            ),
            LoadMsg::Appended { layer_id, generation, geometry, rows, updates, done } => (
                s.on_appended(layer_id, generation, geometry, rows, updates@, done),
                b,
            ),
            LoadMsg::RebuildFailed { layer_id, generation, error } => (
                s.on_rebuild_failed(layer_id, generation, error),
                b,
            ),
            LoadMsg::PartsOpened {
                layer_id,
                generation,
                store,
                starts,
                added_boxes,
                added_groups,
                names,
            } => (
                s.on_parts_opened(
                    layer_id,
                    generation,
                    store,
                    starts@,
                    added_boxes,
                    added_groups,
                    names,
                ),
                b,
            ),
            LoadMsg::AppendEnded { layer_id, reason } => (s.on_append_ended(layer_id, reason), b),
            LoadMsg::RefineDeferred { layer_id, at_least_rows, geom_bytes } => (
                s.on_refine_deferred(layer_id, at_least_rows, geom_bytes),
                b,
            ),
            LoadMsg::Gated { gate } => (s.on_gated(gate), b),
            LoadMsg::Failed { job, source, error } => s.on_failed(b, job, source@, error),
        }
    }

    /// The messages of a batch, in order.
    pub open spec fn on_messages(self, b: Batch, ms: Seq<LoadMsg>) -> (Session, Batch)
        decreases ms.len(),
    {
        if ms.len() == 0 {
            (self, b)
        } else {
            let (s, c) = self.on_message(b, ms[0]);
            s.on_messages(c, ms.subrange(1, ms.len() as int))
        }
    }

    /// The end of a batch: the projection the first layer suggested, then the
    /// loads that waited for it.
    pub open spec fn finish(self, b: Batch) -> Session {
        let s = match b.rebuild_display {
            Some(d) => {
                let t = self.set_display(d);
                if t.cam.camera_moved && !b.first_layer_fit {
                    Session { cam: CameraState { fit_after_rebuilds: false, ..t.cam }, ..t }.emit(
                        Effect::TransferCamera { from: self.cam.display },
                    )
                } else {
                    t
                }
            },
            None => self,
        };
        if b.decider_done {
            s.flush_deferred()
        } else {
            s
        }
    }

    /// A batch of messages.
    pub open spec fn poll(self, ms: Seq<LoadMsg>) -> Session {
        let (s, b) = self.on_messages(no_batch(), ms);
        s.finish(b)
    }
}

/// Apply updates to a load table; says whether one took a group out of box
/// display.
fn apply_updates(loaded: &mut Vec<GroupLoad>, ups: VecDeque<(u32, GroupLoad)>) -> (boxes: bool)
    ensures
        final(loaded)@ == with_updates(old(loaded)@, ups@),
        boxes == replaces_boxes(old(loaded)@, ups@),
{
    let mut rest = ups;
    let mut boxes = false;
    while rest.len() > 0
        invariant
            with_updates(old(loaded)@, ups@) == with_updates(loaded@, rest@),
            replaces_boxes(old(loaded)@, ups@) == (boxes || replaces_boxes(loaded@, rest@)),
        decreases rest@.len(),
    {
        if let Some((g, st)) = rest.pop_front() {
            let g: usize = g as usize;
            if g < loaded.len() {
                if matches!(loaded[g], GroupLoad::Boxes) {
                    boxes = true;
                }
                loaded.set(g, st);
            }
        }
    }
    boxes
}

fn bad_geoms_message(name: &str, n: usize) -> (r: String)
    ensures
        r@ == bad_geoms_text(name@, n),
{
    let mut t = name.to_owned();
    t.append(": ");
    t.append(dec(n as u64).as_str());
    t.append(" geometries could not be decoded/projected");
    t
}

fn failure_message(source: &str, error: String) -> (r: String)
    ensures
        r@ == failure_text(source@, error@),
{
    if starts_with(error.as_str(), source) {
        error
    } else {
        let mut t = source.to_owned();
        t.append(": ");
        t.append(error.as_str());
        t
    }
}

impl ViewerApp {
    fn on_progress(&mut self, job: u64, frac_bits: u32, stage: String)
        ensures
            final(self)@ == old(self)@.on_progress(job, frac_bits, stage),
    {
        let ghost before = self@.queue.loading;
        if let Some(j) = self.queue.loading.remove(&job) {
            self.queue.loading.insert(
                job,
                LoadingJob {
                    label: j.label,
                    frac_bits,
                    stage: Stage::Reported(stage),
                    display_gen: j.display_gen,
                    flag: j.flag,
                },
            );
        }
        assert(self@.queue.loading =~= if before.contains_key(job) {
            before.insert(
                job,
                LoadingJob { frac_bits, stage: Stage::Reported(stage), ..before[job] },
            )
        } else {
            before
        });
    }

    fn on_framed(&mut self, job: u64, display: Option<u64>, world: u64)
        ensures
            final(self)@ == old(self)@.on_framed(job, display, world),
    {
        if self.layers.len() == 0 && !self.cam.camera_moved
            && !self.queue.pending_styles.contains_key(&job) && self.queue.loading.contains_key(
            &job,
        ) {
            if let Some(d) = display {
                self.adopt_display_lite(d);
                let ghost before = self@.queue.loading;
                let display_gen: u64 = self.cam.display_gen;
                if let Some(j) = self.queue.loading.remove(&job) {
                    self.queue.loading.insert(
                        job,
                        LoadingJob {
                            label: j.label,
                            frac_bits: j.frac_bits,
                            stage: j.stage,
                            display_gen,
                            flag: j.flag,
                        },
                    );
                }
                assert(self@.queue.loading =~= before.insert(
                    job,
                    LoadingJob { display_gen, ..before[job] },
                ));
            }
            self.cam.frame_bounds = Some(world);
        }
    }

    fn land(&mut self, layer: Layer)
        ensures
            final(self)@ == old(self)@.land(layer@),
    {
        let ghost before = self@.layers;
        let pos = landing_position(&self.layers, kind_rank(layer.kind));
        self.layers.insert(pos, layer);
        assert(self@.layers =~= before.insert(pos as int, layer@));
    }

    fn arrive(&mut self, job: u64, stale: bool, layer: Layer, geometry: u64, adopt: Option<(u64, bool)>)
        requires
            old(self)@.queue.loading.contains_key(job),
            stale == (old(self)@.queue.loading[job].display_gen != old(self)@.cam.display_gen),
        ensures
            final(self)@ == old(self)@.arrive(job, layer@, geometry, adopt),
    {
        let built_in_other = match adopt {
            Some((_, b)) => b,
            None => false,
        };
        let refused = stale || !self.cam.auto_projection || adopt.is_none();
        self.queue.loading.remove(&job);
        if layer.bad_geoms > 0 {
            self.push_error(bad_geoms_message(layer.name.as_str(), layer.bad_geoms));
        }
        let mut layer = layer;
        if let Some(name) = self.queue.pending_names.remove(&job) {
            layer.name = name;
        }
        if let Some(style) = self.queue.pending_styles.remove(&job) {
            layer.style = style;
        }
        let layer_id: u64 = layer.id;
        if refused && (stale || built_in_other) {
            let generation: u64 = layer.generation.wrapping_add(1);
            layer.generation = generation;
            let flag = self.arm_rebuild(layer_id);
            self.land(layer);
            self.emit(Effect::ReplaceSections { layer_id, geometry });
            self.emit(Effect::SpawnRebuild { layer_id, generation, flag });
        } else {
            self.land(layer);
            self.emit(Effect::ReplaceSections { layer_id, geometry });
        }
    }

    fn restore_filter(&mut self, job: u64, layer_id: u64)
        ensures
            final(self)@ == old(self)@.restore_filter(job, layer_id),
    {
        if let Some(f) = self.queue.pending_filters.remove(&job) {
            self.start_layer_filter(layer_id, f);
        }
    }

    fn frame_first(&mut self, layer_id: u64, accepted: Option<(u64, bool)>)
        ensures
            final(self)@ == old(self)@.frame_first(layer_id, accepted),
    {
        let waits = match accepted {
            Some((_, built)) => !built,
            None => false,
        };
        if !waits {
            if self.work.rebuilding.contains(&layer_id) {
                self.cam.fit_after_rebuilds = true;
            } else {
                self.cam.pending_fit = true;
            }
        }
    }

    fn on_loaded(&mut self, b: Batch, job: u64, layer: Layer, geometry: u64, adopt: Option<(u64, bool)>) -> (r:
        Batch)
        ensures
            (final(self)@, r) == old(self)@.on_loaded(b, job, layer@, geometry, adopt),
    {
        let built_for = match self.queue.loading.get(&job) {
            Some(j) => Some(j.display_gen),
            None => None,
        };
        let mut r = b;
        if let Some(display_gen) = built_for {
            let stale = display_gen != self.cam.display_gen;
            let accepted = if !stale && self.cam.auto_projection {
                adopt
            } else {
                None
            };
            let restored = self.queue.pending_styles.contains_key(&job);
            let layer_id: u64 = layer.id;
            self.arrive(job, stale, layer, geometry, adopt);
            self.restore_filter(job, layer_id);
            if self.layers.len() == 1 && !restored {
                r.first_layer_fit = true;
                self.frame_first(layer_id, accepted);
            }
            if let Some((d, built)) = accepted {
                if built {
                    let old_display: u64 = self.cam.display;
                    self.adopt_display_lite(d);
                    self.rebuild_layers_for_display(Some(layer_id));
                    self.camera_after_adoption(old_display);
                } else {
                    r.rebuild_display = Some(d);
                }
            }
            if self.queue.projection_decider == Some(job) {
                self.queue.projection_decider = None;
                r.decider_done = true;
            }
        }
        r
    }

    fn rebuild_over(&mut self, layer_id: u64)
        ensures
            final(self)@ == old(self)@.rebuild_over(layer_id),
    {
        self.work.rebuilding.remove(&layer_id);
        self.work.consolidating.remove(&layer_id);
        self.work.rebuild_cancel.remove(&layer_id);
    }

    fn on_rebuilt(&mut self, layer_id: u64, generation: u64, geometry: u64, build_ms: u64, bad_geoms: usize)
        ensures
            final(self)@ == old(self)@.on_rebuilt(
                layer_id,
                generation,
                geometry,
                build_ms,
                bad_geoms,
            ),
    {
        let ghost before = self@;
        if let Some(i) = self.position(layer_id) {
            if self.layers[i].generation == generation {
                let draw_gen: u64 = self.layers[i].draw_gen.wrapping_add(1);
                self.layers[i].sections = 1;
                self.layers[i].draw_gen = draw_gen;
                self.layers[i].build_ms = build_ms;
                self.layers[i].bad_geoms = bad_geoms;
                assert(self@.layers =~= before.layers.update(
                    i as int,
                    LayerState {
                        sections: 1,
                        draw_gen,
                        build_ms,
                        bad_geoms,
                        ..before.layers[i as int]
                    },
                ));
                self.rebuild_over(layer_id);
                self.emit(Effect::ReplaceSections { layer_id, geometry });
                if self.work.rebuilding.is_empty() && self.cam.fit_after_rebuilds {
                    self.cam.pending_fit = true;
                }
            }
        }
        if self.work.rebuilding.is_empty() {
            self.cam.fit_after_rebuilds = false;
        }
    }

    fn on_reloaded(
        &mut self,
        layer_id: u64,
        generation: u64,
        geometry: u64,
        loaded: Vec<GroupLoad>,
        rows: usize,
        bad_geoms: usize,
        build_ms: u64,
    )
        ensures
            final(self)@ == old(self)@.on_reloaded(
                layer_id,
                generation,
                geometry,
                loaded@,
                rows,
                bad_geoms,
                build_ms,
            ),
    {
        let ghost before = self@;
        if let Some(i) = self.position(layer_id) {
            if self.layers[i].generation == generation {
                let draw_gen: u64 = self.layers[i].draw_gen.wrapping_add(1);
                self.layers[i].sections = 1;
                self.layers[i].draw_gen = draw_gen;
                self.layers[i].loaded = loaded;
                self.layers[i].feature_count = rows;
                self.layers[i].build_ms = build_ms;
                self.layers[i].bad_geoms = bad_geoms;
                assert(self@.layers =~= before.layers.update(
                    i as int,
                    LayerState {
                        sections: 1,
                        draw_gen,
                        loaded: loaded@,
                        feature_count: rows,
                        build_ms,
                        bad_geoms,
                        ..before.layers[i as int]
                    },
                ));
                self.rebuild_over(layer_id);
                self.emit(Effect::ReplaceSections { layer_id, geometry });
                if self.work.rebuilding.is_empty() {
                    self.emit(Effect::ReleaseMemory);
                }
            }
        }
    }

    /// Merge a layer's sections by a rebuild during which it stays drawn.
    pub fn consolidate_after_boxes(&mut self, layer_id: u64)
        ensures
            final(self)@ == old(self)@.consolidate(layer_id),
    {
        if let Some(i) = self.position(layer_id) {
            self.begin_rebuild(i);
            self.work.consolidating.insert(layer_id);
        }
    }

    fn on_appended(
        &mut self,
        layer_id: u64,
        generation: u64,
        geometry: u64,
        rows: usize,
        ups: VecDeque<(u32, GroupLoad)>,
        done: bool,
    )
        ensures
            final(self)@ == old(self)@.on_appended(
                layer_id,
                generation,
                geometry,
                rows,
                ups@,
                done,
            ),
    {
        if done {
            self.work.appending.remove(&layer_id);
            self.work.part_appending.remove(&layer_id);
            self.work.append_cancel.remove(&layer_id);
        }
        let ghost before = self@;
        if let Some(i) = self.position(layer_id) {
            if self.layers[i].generation == generation {
                let sections: usize = self.layers[i].sections.wrapping_add(1);
                let feature_count: usize = self.layers[i].feature_count.wrapping_add(rows);
                let box_layer = self.layers[i].box_layer;
                self.layers[i].sections = sections;
                self.layers[i].feature_count = feature_count;
                let boxes = apply_updates(&mut self.layers[i].loaded, ups);
                assert(self@.layers =~= before.layers.update(
                    i as int,
                    LayerState {
                        sections,
                        feature_count,
                        loaded: with_updates(before.layers[i as int].loaded, ups@),
                        ..before.layers[i as int]
                    },
                ));
                self.emit(Effect::PushSection { layer_id, geometry });
                if done && (box_layer || boxes) {
                    self.consolidate_after_boxes(layer_id);
                }
            }
        }
    }

    fn on_rebuild_failed(&mut self, layer_id: u64, generation: u64, error: Option<String>)
        ensures
            final(self)@ == old(self)@.on_rebuild_failed(layer_id, generation, error),
    {
        if let Some(i) = self.position(layer_id) {
            if self.layers[i].generation == generation {
                self.rebuild_over(layer_id);
            }
        }
        if let Some(e) = error {
            self.push_error(e);
        }
    }

    fn on_parts_opened(
        &mut self,
        layer_id: u64,
        generation: u64,
        store: u64,
        starts: Vec<u64>,
        added_boxes: usize,
        added_groups: usize,
        names: usize,
    )
        requires
            starts@.len() > 0,
        ensures
            final(self)@ == old(self)@.on_parts_opened(
                layer_id,
                generation,
                store,
                starts@,
                added_boxes,
                added_groups,
                names,
            ),
    {
        let ghost before = self@;
        if let Some(i) = self.position(layer_id) {
            if self.layers[i].generation == generation {
                let groups: usize = starts.len() - 1;
                let extend = added_boxes == added_groups;
                let had = self.layers[i].boxes.is_some();
                let boxes = match self.layers[i].boxes {
                    Some(n) => {
                        let m: usize = if extend {
                            n.wrapping_add(added_boxes)
                        } else {
                            n
                        };
                        if m == groups {
                            Some(m)
                        } else {
                            None
                        }
                    },
                    None => None,
                };
                let files: usize = self.layers[i].files.wrapping_add(names);
                self.layers[i].starts = starts;
                resize_loads(&mut self.layers[i].loaded, groups);
                self.layers[i].boxes = boxes;
                self.layers[i].files = files;
                assert(self@.layers =~= before.layers.update(
                    i as int,
                    LayerState {
                        starts: starts@,
                        loaded: resized(before.layers[i as int].loaded, groups as nat),
                        boxes,
                        files,
                        ..before.layers[i as int]
                    },
                ));
                self.emit(
                    Effect::AdoptStore {
                        layer_id,
                        store,
                        extend_boxes: had && extend,
                        drop_boxes: had && boxes.is_none(),
                    },
                );
            }
        }
    }

    fn same_view(&self, layer_id: u64) -> (r: bool)
        ensures
            r == self@.same_view(layer_id),
    {
        match self.work.refine_epoch.get(&layer_id) {
            Some(e) => *e == self.cam.cam_epoch,
            None => false,
        }
    }

    fn on_append_ended(&mut self, layer_id: u64, error: EndReason)
        ensures
            final(self)@ == old(self)@.on_append_ended(layer_id, error),
    {
        let held = self.same_view(layer_id);
        self.work.appending.remove(&layer_id);
        self.work.append_cancel.remove(&layer_id);
        let was_parts = self.work.part_appending.remove(&layer_id);
        if was_parts && matches!(error, EndReason::NothingToAppend) {
            self.work.part_hold.insert(layer_id);
        } else if held {
            self.work.refine_hold.insert(layer_id);
            if was_parts {
                self.work.part_hold.insert(layer_id);
            }
        }
        if let EndReason::Error(e) = error {
            self.push_error(e);
        }
    }

    fn on_refine_deferred(&mut self, layer_id: u64, rows: u64, bytes: Option<u64>)
        ensures
            final(self)@ == old(self)@.on_refine_deferred(layer_id, rows, bytes),
    {
        let held = self.same_view(layer_id);
        self.work.appending.remove(&layer_id);
        self.work.append_cancel.remove(&layer_id);
        if held {
            self.work.refine_hold.insert(layer_id);
            self.work.refine_deferred.insert(layer_id, (rows, bytes));
        }
    }

    /// Whether a standing "load all" answer is kept under this key.
    pub fn is_direct(&self, key: &String) -> (r: bool)
        ensures
            r == self@.direct_files.contains(key@),
    {
        let mut i: usize = 0;
        while i < self.direct_files.len()
            invariant
                i <= self.direct_files@.len(),
                forall|k: int| 0 <= k < i ==> #[trigger] self@.direct_files[k] != key@,
            decreases self.direct_files@.len() - i,
        {
            if self.direct_files[i] == *key {
                assert(self@.direct_files[i as int] == key@);
                return true;
            }
            i += 1;
        }
        false
    }

    fn on_gated(&mut self, gate: QualityGate)
        ensures
            final(self)@ == old(self)@.on_gated(gate),
    {
        if self.is_direct(&gate.key()) {
            self.resume_gated(gate);
        } else {
            self.set_stage(gate.job, Stage::WaitingForAnswer);
            self.queue.gates.push(gate);
        }
    }

    fn on_failed(&mut self, b: Batch, job: u64, source: String, error: Option<String>) -> (r: Batch)
        ensures
            (final(self)@, r) == old(self)@.on_failed(b, job, source@, error),
    {
        let mut r = b;
        self.queue.loading.remove(&job);
        if self.queue.projection_decider == Some(job) {
            self.queue.projection_decider = None;
            r.decider_done = true;
        }
        if let Some(e) = error {
            self.push_error(failure_message(source.as_str(), e));
        }
        r
    }

    /// Apply one message; `b` gathers what is left for the end of the batch.
    pub fn on_message(&mut self, b: Batch, m: LoadMsg) -> (r: Batch)
        requires
            m.valid(),
        ensures
            (final(self)@, r) == old(self)@.on_message(b, m),
    {
        self.strip_probe = STRIP_FRAMES;
        match m {
            LoadMsg::Progress { job, frac_bits, stage } => {
                self.on_progress(job, frac_bits, stage);
                b
            },
            LoadMsg::Framed { job, display, world } => {
                self.on_framed(job, display, world);
                b
            },
            LoadMsg::Loaded { job, layer, geometry, adopt } => self.on_loaded(
                b,
                job,
                layer,
                geometry,
                adopt,
            ),
            LoadMsg::Rebuilt { layer_id, generation, geometry, build_ms, bad_geoms } => {
                self.on_rebuilt(layer_id, generation, geometry, build_ms, bad_geoms);
                b
            },
            LoadMsg::Reloaded { layer_id, generation, geometry, loaded, rows, bad_geoms, build_ms } => {
                self.on_reloaded(layer_id, generation, geometry, loaded, rows, bad_geoms, build_ms);
                b
            },
            LoadMsg::Appended { layer_id, generation, geometry, rows, updates, done } => {
                self.on_appended(layer_id, generation, geometry, rows, updates, done);
                b
            },
            LoadMsg::RebuildFailed { layer_id, generation, error } => {
                self.on_rebuild_failed(layer_id, generation, error);
                b
            },
            LoadMsg::PartsOpened {
                layer_id,
                generation,
                store,
                starts,
                added_boxes,
                added_groups,
                names,
            } => {
                self.on_parts_opened(
                    layer_id,
                    generation,
                    store,
                    starts,
                    added_boxes,
                    added_groups,
                    names,
                );
                b
            },
            LoadMsg::AppendEnded { layer_id, reason } => {
                self.on_append_ended(layer_id, reason);
                b
            },
            LoadMsg::RefineDeferred { layer_id, at_least_rows, geom_bytes } => {
                self.on_refine_deferred(layer_id, at_least_rows, geom_bytes);
                b
            },
            LoadMsg::Gated { gate } => {
                self.on_gated(gate);
                b
            },
            LoadMsg::Failed { job, source, error } => self.on_failed(b, job, source, error),
        }
    }

    /// Do what a batch of messages left to be done.
    pub fn finish_batch(&mut self, b: Batch)
        ensures
            final(self)@ == old(self)@.finish(b),
    {
        if let Some(d) = b.rebuild_display {
            let from: u64 = self.cam.display;
            self.set_display(d);
            if self.cam.camera_moved && !b.first_layer_fit {
                self.cam.fit_after_rebuilds = false;
                self.emit(Effect::TransferCamera { from });
            }
        }
        if b.decider_done {
            self.flush_deferred_loads();
        }
    }

    /// Apply the messages that arrived since the last frame.
    pub fn poll_loader(&mut self, messages: VecDeque<LoadMsg>)
        requires
            forall|k: int| 0 <= k < messages@.len() ==> (#[trigger] messages@[k]).valid(),
        ensures
            final(self)@ == old(self)@.poll(messages@),
    {
        let mut rest = messages;
        let mut b = Batch { rebuild_display: None, decider_done: false, first_layer_fit: false };
        let ghost start = self@;
        while rest.len() > 0
            invariant
                forall|k: int| 0 <= k < rest@.len() ==> (#[trigger] rest@[k]).valid(),
                start.on_messages(no_batch(), messages@) == self@.on_messages(b, rest@),
            decreases rest@.len(),
        {
            if let Some(m) = rest.pop_front() {
                b = self.on_message(b, m);
            }
        }
        self.finish_batch(b);
    }
}

impl LoadMsg {
    /// A row-group table has an end.
    pub open spec fn valid(self) -> bool {
        self matches LoadMsg::PartsOpened { starts, .. } ==> starts@.len() > 0
    }

    /// See [`Self::valid`].
    pub fn is_valid(&self) -> (r: bool)
        ensures
            r == self.valid(),
    {
        match self {
            LoadMsg::PartsOpened { starts, .. } => starts.len() > 0,
            _ => true,
        }
    }
}

} // verus!
