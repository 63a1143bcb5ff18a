//! What holds of every session.
use vstd::prelude::*;
use crate::filters::FilterRows;
use crate::layers::{
    arrival_keeps_category_order, filtered_loads, in_category_order, landing, rank, refine_all, Hit,
    LayerState,
};
use crate::loader::{no_batch, Batch, LoadMsg};
use crate::panel::without;
use crate::session::{
    gate_key, index_from, loading_flags, CameraState, Capped, DeferredLoad, Effect, Loads, Picked,
    QualityGate, Session, SourceInfo, Work, STRIP_FRAMES,
};

verus! {

// --- finding layers -----------------------------------------------------------

/// Starting loads leaves alone what is not about them, and starts none that is
/// not registered.
pub(crate) proof fn spawning_keeps_the_rest(s: Session, ds: Seq<DeferredLoad>, job: u64)
    ensures
        s.spawn_loads(ds).direct_files == s.direct_files,
        s.spawn_loads(ds).queue.loading.contains_key(job) == s.queue.loading.contains_key(job),
        s.spawn_loads(ds).layers == s.layers,
        s.spawn_loads(ds).cam == s.cam,
        s.spawn_loads(ds).queue.deferred == s.queue.deferred,
        s.spawn_loads(ds).queue.gates == s.queue.gates,
    decreases ds.len(),
{
    if ds.len() > 0 {
        spawning_keeps_the_rest(s.spawn_load(ds[0], false), ds.subrange(1, ds.len() as int), job);
    }
}

pub(crate) proof fn index_is_in_range(layers: Seq<LayerState>, id: u64, i: int)
    requires
        0 <= i <= layers.len(),
    ensures
        i <= index_from(layers, id, i) <= layers.len(),
        index_from(layers, id, i) < layers.len() ==> layers[index_from(layers, id, i)].id == id,
        index_from(layers, id, i) == layers.len() ==> forall|k: int|
            i <= k < layers.len() ==> (#[trigger] layers[k]).id != id,
    decreases layers.len() - i,
{
    if i < layers.len() && layers[i].id != id {
        index_is_in_range(layers, id, i + 1);
    }
}

/// A layer is found under its id exactly if it is on the map.
pub proof fn a_layer_is_found_by_its_id(s: Session, id: u64)
    ensures
        s.has_layer(id) <==> exists|k: int| 0 <= k < s.layers.len() && (#[trigger] s.layers[k]).id == id,
        s.has_layer(id) ==> s.layers[s.index_of(id)].id == id,
{
    index_is_in_range(s.layers, id, 0);
}

// --- rebuilding ------------------------------------------------------------------

/// Two layers that differ in the generation of their geometry at most.
pub open spec fn same_but_generation(a: LayerState, b: LayerState) -> bool {
    b == (LayerState { generation: b.generation, ..a })
}

pub(crate) proof fn rebuild_keeps_the_rest(s: Session, skip: Option<u64>, i: int)
    requires
        0 <= i <= s.layers.len(),
    ensures
        ({
            let t = s.rebuild_from(skip, i);
            &&& t.layers.len() == s.layers.len()
            &&& t.queue == s.queue
            &&& t.cam == s.cam
            &&& t.pick == s.pick
            &&& t.view == s.view
            &&& t.errors == s.errors
            &&& t.show_errors == s.show_errors
            &&& t.direct_files == s.direct_files
            &&& t.strip_probe == s.strip_probe
            &&& t.work == (Work {
                rebuilding: t.work.rebuilding,
                rebuild_cancel: t.work.rebuild_cancel,
                ..s.work
            })
            &&& s.work.rebuilding.subset_of(t.work.rebuilding)
            &&& forall|k: int|
                0 <= k < s.layers.len() ==> same_but_generation(
                    #[trigger] s.layers[k],
                    t.layers[k],
                )
            &&& forall|k: int|
                0 <= k < s.layers.len() && (k < i || skip == Some(s.layers[k].id)) ==> #[trigger] t.layers[k]
                    == s.layers[k]
            &&& forall|k: int|
                i <= k < s.layers.len() && skip != Some(s.layers[k].id) ==> {
                    &&& (#[trigger] t.layers[k]).generation == s.layers[k].generation.wrapping_add(1)
                    &&& t.work.rebuilding.contains(s.layers[k].id)
                }
        }),
    decreases s.layers.len() - i,
{
    if i < s.layers.len() {
        let u = if skip == Some(s.layers[i].id) {
            s
        } else {
            s.begin_rebuild(i)
        };
        rebuild_keeps_the_rest(u, skip, i + 1);
        let t = s.rebuild_from(skip, i);
        assert(t == u.rebuild_from(skip, i + 1));
        assert forall|k: int| 0 <= k < s.layers.len() implies same_but_generation(
            #[trigger] s.layers[k],
            t.layers[k],
        ) by {
            assert(same_but_generation(u.layers[k], t.layers[k]));
        }
        assert forall|k: int|
            0 <= k < s.layers.len() && (k < i || skip == Some(s.layers[k].id)) implies #[trigger] t.layers[k]
            == s.layers[k] by {
            assert(u.layers[k] == s.layers[k]);
        }
        assert forall|k: int|
            i <= k < s.layers.len() && skip != Some(s.layers[k].id) implies {
            &&& (#[trigger] t.layers[k]).generation == s.layers[k].generation.wrapping_add(1)
            &&& t.work.rebuilding.contains(s.layers[k].id)
        } by {
            if k == i {
                assert(t.layers[i] == u.layers[i]);
                assert(u.work.rebuilding.contains(s.layers[i].id));
            } else {
                assert(u.layers[k] == s.layers[k]);
            }
        }
    }
}

/// Switching the projection keeps every layer, in its place and with what it
/// has loaded, and builds each one's geometry anew.
pub proof fn a_projection_switch_rebuilds_every_layer(s: Session, d: u64, k: int)
    requires
        0 <= k < s.layers.len(),
    ensures
        s.set_display(d).layers.len() == s.layers.len(),
        same_but_generation(s.layers[k], s.set_display(d).layers[k]),
        s.set_display(d).layers[k].generation == s.layers[k].generation.wrapping_add(1),
        s.set_display(d).work.rebuilding.contains(s.layers[k].id),
        s.set_display(d).cam.display == d,
        s.set_display(d).cam.display_gen == s.cam.display_gen.wrapping_add(1),
        s.set_display(d).cam.fit_after_rebuilds,
{
    let base = s.redisplayed(d);
    rebuild_keeps_the_rest(base, None, 0);
    assert(same_but_generation(base.layers[k], base.rebuild_from(None, 0).layers[k]));
    assert(base.rebuild_from(None, 0).layers[k].generation == base.layers[k].generation.wrapping_add(
        1,
    ));
}

// --- starting over ---------------------------------------------------------------

/// Cancelling what is in flight raises the flag of every worker.
pub proof fn cancelling_stops_all(s: Session)
    ensures
        s.flags_known() ==> s.all_stopped_in(s.cancel_in_flight().flags),
{
    let t = s.cancel_in_flight().flags;
    if s.flags_known() {
        crate::arming::held_flags_are_known(s);
        assert forall|job: u64| #[trigger] s.queue.loading.contains_key(job) implies t.raised(
            s.queue.loading[job].flag,
        ) by {
            assert(loading_flags(s.queue.loading).contains(s.queue.loading[job].flag));
        }
        assert forall|id: u64| #[trigger] s.work.append_cancel.contains_key(id) implies t.raised(
            s.work.append_cancel[id],
        ) by {
            assert(s.work.append_cancel.values().contains(s.work.append_cancel[id]));
        }
        assert forall|id: u64| #[trigger] s.work.rebuild_cancel.contains_key(id) implies t.raised(
            s.work.rebuild_cancel[id],
        ) by {
            assert(s.work.rebuild_cancel.values().contains(s.work.rebuild_cancel[id]));
        }
    }
}

/// Starting over leaves no layer, no worker, no load and no error, in the
/// projection and with the settings a session starts from, and tells every
/// worker to stop. The display generation moves on, so that whatever still
/// arrives counts as built for another display.
pub proof fn reset_is_a_fresh_start(s: Session)
    ensures
        ({
            let t = s.reset_layout();
            let f = Session::fresh(s.direct_files);
            &&& t.layers == f.layers
            &&& t.work == f.work
            &&& t.queue.loading == f.queue.loading
            &&& t.queue.deferred == f.queue.deferred
            &&& t.queue.gates == f.queue.gates
            &&& t.queue.projection_decider == f.queue.projection_decider
            &&& t.queue.palette_idx == f.queue.palette_idx
            &&& t.view == f.view
            &&& t.errors == f.errors
            &&& t.show_errors == f.show_errors
            &&& t.cam.display == f.cam.display
            &&& t.cam.auto_projection == f.cam.auto_projection
            &&& t.cam.pending_fit == f.cam.pending_fit
            &&& t.cam.fit_bounds == f.cam.fit_bounds
            &&& t.cam.frame_bounds == f.cam.frame_bounds
            &&& t.cam.fit_after_rebuilds == f.cam.fit_after_rebuilds
            &&& t.cam.camera_moved == f.cam.camera_moved
            &&& t.pick.selection == f.pick.selection
            &&& t.cam.display_gen == s.cam.display_gen.wrapping_add(1)
            &&& s.flags_known() ==> s.all_stopped_in(t.flags)
        }),
{
    reveal_with_fuel(Session::rebuild_from, 2);
    cancelling_stops_all(s);
}

/// What a load delivers after everything in flight was cancelled is dropped,
/// as is any load the session does not know.
pub proof fn an_unknown_load_delivers_nothing(s: Session, b: Batch, m: LoadMsg)
    requires
        m matches LoadMsg::Loaded { job, .. } && !s.queue.loading.contains_key(job),
    ensures
        s.on_message(b, m) == (Session { strip_probe: STRIP_FRAMES, ..s }, b),
        forall|job: u64| !(#[trigger] s.cancel_in_flight().queue.loading.contains_key(job)),
{
}

/// Geometry built for an earlier generation of a layer is never shown.
pub proof fn superseded_geometry_is_dropped(
    s: Session,
    layer_id: u64,
    generation: u64,
    geometry: u64,
    ms: u64,
    bad: usize,
)
    requires
        !s.current(layer_id, generation),
    ensures
        s.on_rebuilt(layer_id, generation, geometry, ms, bad).layers == s.layers,
        s.on_rebuilt(layer_id, generation, geometry, ms, bad).outbox == s.outbox,
        s.on_rebuilt(layer_id, generation, geometry, ms, bad).cam.pending_fit == s.cam.pending_fit,
        s.on_rebuilt(layer_id, generation, geometry, ms, bad).work == s.work,
{
}

/// A reload gives memory back where the map stands: it never moves the camera.
pub proof fn a_reload_keeps_the_camera(s: Session, b: Batch, m: LoadMsg)
    requires
        m is Reloaded,
    ensures
        s.on_message(b, m).0.cam == s.cam,
        s.reload_to_viewport().cam == s.cam,
{
    reload_keeps_camera_from(s.clear_selection(), 0);
}

proof fn reload_keeps_camera_from(s: Session, i: int)
    requires
        0 <= i <= s.layers.len(),
    ensures
        s.reload_from(i).cam == s.cam,
    decreases s.layers.len() - i,
{
    if i < s.layers.len() {
        reload_keeps_camera_from(s.reload_one(i), i + 1);
    }
}

/// Once the map has a layer, one that arrives moves neither camera nor
/// projection, unless its projection suggestion is taken.
pub proof fn a_later_layer_keeps_the_view(
    s: Session,
    b: Batch,
    job: u64,
    layer: LayerState,
    geometry: u64,
    adopt: Option<(u64, bool)>,
)
    requires
        s.layers.len() > 0,
        s.queue.loading.contains_key(job) ==> s.accepted(job, adopt) is None,
    ensures
        s.on_loaded(b, job, layer, geometry, adopt).0.cam == s.cam,
        s.on_loaded(b, job, layer, geometry, adopt).1.rebuild_display == b.rebuild_display,
        s.on_loaded(b, job, layer, geometry, adopt).1.first_layer_fit == b.first_layer_fit,
{
    crate::layers::landing_in_range(s.layers, rank(s.dressed(job, layer).kind));
}

/// New rows never re-key what is drawn already: the layer keeps its draw
/// generation, and the geometry joins as one more section.
pub proof fn an_append_keeps_what_is_drawn(
    s: Session,
    layer_id: u64,
    generation: u64,
    geometry: u64,
    rows: usize,
    ups: Seq<(u32, crate::layers::GroupLoad)>,
    done: bool,
)
    requires
        s.current(layer_id, generation),
    ensures
        ({
            let i = s.index_of(layer_id);
            let t = s.on_appended(layer_id, generation, geometry, rows, ups, done);
            &&& t.layers[i].draw_gen == s.layers[i].draw_gen
            &&& t.layers[i].sections == s.layers[i].sections.wrapping_add(1)
        }),
{
    index_is_in_range(s.layers, layer_id, 0);
    let i = s.index_of(layer_id);
    let l = s.layers[i];
    let grown = LayerState {
        sections: l.sections.wrapping_add(1),
        feature_count: l.feature_count.wrapping_add(rows),
        loaded: crate::loader::with_updates(l.loaded, ups),
        ..l
    };
    same_index_after_put(s.layers, layer_id, 0, i, grown);
}

proof fn same_index_after_put(layers: Seq<LayerState>, id: u64, from: int, i: int, l: LayerState)
    requires
        0 <= from <= layers.len(),
        0 <= i < layers.len(),
        l.id == layers[i].id,
    ensures
        index_from(layers.update(i, l), id, from) == index_from(layers, id, from),
    decreases layers.len() - from,
{
    if from < layers.len() && layers[from].id != id {
        same_index_after_put(layers, id, from + 1, i, l);
    }
}

// --- the projection decision -----------------------------------------------------

/// Loads wait only while some load is to decide the projection, or that has
/// just been decided.
pub open spec fn orderly(s: Session, b: Batch) -> bool {
    s.queue.deferred.len() > 0 ==> s.queue.projection_decider is Some || b.decider_done
}

pub(crate) proof fn spawning_keeps_the_line(s: Session, ds: Seq<DeferredLoad>)
    ensures
        s.spawn_loads(ds).queue.deferred == s.queue.deferred,
        s.spawn_loads(ds).queue.projection_decider == s.queue.projection_decider,
        s.spawn_loads(ds).layers == s.layers,
    decreases ds.len(),
{
    if ds.len() > 0 {
        spawning_keeps_the_line(s.spawn_load(ds[0], false), ds.subrange(1, ds.len() as int));
    }
}

proof fn messages_keep_order(s: Session, b: Batch, m: LoadMsg)
    requires
        orderly(s, b),
    ensures
        orderly(s.on_message(b, m).0, s.on_message(b, m).1),
{
    match m {
        LoadMsg::Loaded { job, layer, geometry, adopt } => {
            let p = Session { strip_probe: STRIP_FRAMES, ..s };
            if p.queue.loading.contains_key(job) {
                let s1 = p.arrive(job, layer@, geometry, adopt).restore_filter(job, layer@.id);
                let first = s1.layers.len() == 1 && !p.queue.pending_styles.contains_key(job);
                let s2 = if first {
                    s1.frame_first(layer@.id, p.accepted(job, adopt))
                } else {
                    s1
                };
                assert(s2.queue.deferred == s.queue.deferred);
                assert(s2.queue.projection_decider == s.queue.projection_decider);
                match p.accepted(job, adopt) {
                    Some((d, true)) => {
                        rebuild_keeps_the_rest(s2.adopt_display_lite(d), Some(layer@.id), 0);
                    },
                    _ => {},
                }
            }
        },
        _ => {},
    }
}

proof fn batches_keep_order(s: Session, b: Batch, ms: Seq<LoadMsg>)
    requires
        orderly(s, b),
    ensures
        orderly(s.on_messages(b, ms).0, s.on_messages(b, ms).1),
    decreases ms.len(),
{
    if ms.len() > 0 {
        messages_keep_order(s, b, ms[0]);
        let (t, c) = s.on_message(b, ms[0]);
        batches_keep_order(t, c, ms.subrange(1, ms.len() as int));
    }
}

/// No load waits for a projection decision that nobody is to make: it holds
/// of a fresh session, and enqueueing, polling, answering, cancelling and
/// starting over keep it.
pub proof fn no_load_waits_in_vain(s: Session, source: SourceInfo, ms: Seq<LoadMsg>, files: Seq<Seq<char>>)
    requires
        orderly(s, no_batch()),
    ensures
        orderly(Session::fresh(files), no_batch()),
        orderly(s.enqueue_load(source), no_batch()),
        orderly(s.poll(ms), no_batch()),
        orderly(s.gate_cancel(), no_batch()),
        orderly(s.gate_load_all(), no_batch()),
        orderly(s.cancel_in_flight(), no_batch()),
        orderly(s.reset_layout(), no_batch()),
{
    batches_keep_order(s, no_batch(), ms);
    let (t, b) = s.on_messages(no_batch(), ms);
    match b.rebuild_display {
        Some(d) => {
            rebuild_keeps_the_rest(t.redisplayed(d), None, 0);
            let u = t.set_display(d);
            assert(u.queue == t.queue);
            let v = Session {
                cam: CameraState { fit_after_rebuilds: false, ..u.cam },
                ..u
            }.emit(Effect::TransferCamera { from: t.cam.display });
            spawning_keeps_the_line(
                Session { queue: Loads { deferred: Seq::empty(), ..u.queue }, ..u },
                u.queue.deferred,
            );
            spawning_keeps_the_line(
                Session { queue: Loads { deferred: Seq::empty(), ..v.queue }, ..v },
                v.queue.deferred,
            );
        },
        None => {
            spawning_keeps_the_line(
                Session { queue: Loads { deferred: Seq::empty(), ..t.queue }, ..t },
                t.queue.deferred,
            );
        },
    }
    if s.queue.gates.len() > 0 {
        let g = s.queue.gates[0];
        let c = s.next_gate_taken();
        let e = Session {
            queue: Loads { loading: c.queue.loading.remove(g.job), ..c.queue },
            ..c
        }.end_decider(g.job);
        spawning_keeps_the_line(
            Session { queue: Loads { deferred: Seq::empty(), ..e.queue }, ..e },
            e.queue.deferred,
        );
    }
    reset_is_a_fresh_start(s);
}

/// The effects that start these loads, in order.
pub open spec fn load_effects(ds: Seq<DeferredLoad>) -> Seq<Effect> {
    Seq::new(
        ds.len(),
        |k: int|
            Effect::SpawnLoad {
                job: ds[k].job,
                layer_id: ds[k].layer_id,
                source: ds[k].source,
                tint: ds[k].tint,
                auto_project: false,
                flag: ds[k].flag,
            },
    )
}

/// When the projection is decided, every load that waited is started once, in
/// the order it was asked for, and none waits any more.
pub proof fn every_waiting_load_is_started(s: Session)
    ensures
        s.flush_deferred().outbox == s.outbox + load_effects(s.queue.deferred),
        s.flush_deferred().queue.deferred.len() == 0,
{
    let t = Session { queue: Loads { deferred: Seq::empty(), ..s.queue }, ..s };
    spawning_emits(t, s.queue.deferred);
    spawning_keeps_the_line(t, s.queue.deferred);
}

proof fn spawning_emits(s: Session, ds: Seq<DeferredLoad>)
    ensures
        s.spawn_loads(ds).outbox == s.outbox + load_effects(ds),
    decreases ds.len(),
{
    if ds.len() > 0 {
        let rest = ds.subrange(1, ds.len() as int);
        spawning_emits(s.spawn_load(ds[0], false), rest);
        assert(s.outbox.push(load_effects(ds)[0]) + load_effects(rest) =~= s.outbox + load_effects(
            ds,
        ));
    } else {
        assert(s.outbox + load_effects(ds) =~= s.outbox);
    }
}

/// While a load is to decide the projection, the loads asked for after it
/// wait: none of them is started.
pub proof fn later_loads_wait_for_the_decision(s: Session, source: SourceInfo)
    requires
        s.queue.projection_decider is Some,
        s.queue.projection_decider != Some(s.queue.next_job),
        !s.decides_projection(),
    ensures
        s.enqueue_load(source).outbox == s.outbox,
        s.enqueue_load(source).queue.deferred == s.queue.deferred.push(s.next_load(source)),
{
}

// --- standing answers ---------------------------------------------------------------

/// A file answered with "load all" is never asked about again: its paused
/// load goes on by itself.
pub proof fn load_all_is_remembered(s: Session, g: QualityGate)
    requires
        s.queue.gates.len() > 0,
        g.label@ == s.queue.gates[0].label@,
        g.file_size == s.queue.gates[0].file_size,
    ensures
        s.gate_load_all().direct_files.contains(gate_key(g.label@, g.file_size)),
        s.gate_load_all().on_gated(g) == s.gate_load_all().resume_gated(g),
        s.gate_load_all().on_gated(g).queue.gates == s.gate_load_all().queue.gates,
{
    let key = gate_key(g.label@, g.file_size);
    let files = s.direct_files;
    if !files.contains(key) {
        assert(files.push(key)[files.len() as int] == key);
    }
}

// --- draw order -----------------------------------------------------------------------

/// Two lists of layers of the same kinds.
pub open spec fn same_kinds(a: Seq<LayerState>, b: Seq<LayerState>) -> bool {
    &&& a.len() == b.len()
    &&& forall|k: int| 0 <= k < a.len() ==> (#[trigger] a[k]).kind == (#[trigger] b[k]).kind
}

proof fn same_kinds_same_order(a: Seq<LayerState>, b: Seq<LayerState>)
    requires
        same_kinds(a, b),
        in_category_order(a),
    ensures
        in_category_order(b),
{
    assert forall|i: int, j: int| 0 <= i <= j < b.len() implies rank((#[trigger] b[i]).kind) <= rank(
        (#[trigger] b[j]).kind,
    ) by {
        assert(a[i].kind == b[i].kind && a[j].kind == b[j].kind);
    }
}

proof fn rebuild_keeps_kinds(s: Session, skip: Option<u64>)
    ensures
        same_kinds(s.layers, s.rebuild_from(skip, 0).layers),
{
    rebuild_keeps_the_rest(s, skip, 0);
    let t = s.rebuild_from(skip, 0);
    assert forall|k: int| 0 <= k < s.layers.len() implies (#[trigger] s.layers[k]).kind == (
    #[trigger] t.layers[k]).kind by {
        assert(same_but_generation(s.layers[k], t.layers[k]));
    }
}

proof fn a_delivery_keeps_category_order(
    p: Session,
    b: Batch,
    job: u64,
    layer: LayerState,
    geometry: u64,
    adopt: Option<(u64, bool)>,
)
    requires
        in_category_order(p.layers),
    ensures
        in_category_order(p.on_loaded(b, job, layer, geometry, adopt).0.layers),
{
    if p.queue.loading.contains_key(job) {
        let l = p.dressed(job, layer);
        let s1 = p.arrive(job, layer, geometry, adopt);
        arrival_keeps_category_order(
            p.layers,
            LayerState { generation: l.generation.wrapping_add(1), ..l },
        );
        arrival_keeps_category_order(p.layers, l);
        assert(in_category_order(s1.layers));
        let s2 = s1.restore_filter(job, layer.id);
        let s3 = if s2.layers.len() == 1 && !p.queue.pending_styles.contains_key(job) {
            s2.frame_first(layer.id, p.accepted(job, adopt))
        } else {
            s2
        };
        assert(s3.layers == s1.layers);
        match p.accepted(job, adopt) {
            Some((d, true)) => {
                let a = s3.adopt_display_lite(d);
                rebuild_keeps_kinds(a, Some(layer.id));
                same_kinds_same_order(a.layers, a.rebuild_from(Some(layer.id), 0).layers);
            },
            _ => {},
        }
    }
}

#[verifier::spinoff_prover]
proof fn messages_keep_category_order(s: Session, b: Batch, m: LoadMsg)
    requires
        in_category_order(s.layers),
    ensures
        in_category_order(s.on_message(b, m).0.layers),
{
    let p = Session { strip_probe: STRIP_FRAMES, ..s };
    if let LoadMsg::Loaded { job, layer, geometry, adopt } = m {
        a_delivery_keeps_category_order(p, b, job, layer@, geometry, adopt);
    } else {
        a_message_keeps_kinds(s, b, m);
        same_kinds_same_order(s.layers, s.on_message(b, m).0.layers);
    }
}

#[verifier::spinoff_prover]
#[verifier::rlimit(40)]
proof fn a_message_keeps_kinds(s: Session, b: Batch, m: LoadMsg)
    requires
        !(m is Loaded),
    ensures
        same_kinds(s.layers, s.on_message(b, m).0.layers),
{
    match m {
        LoadMsg::Rebuilt { layer_id, .. } => {
            index_is_in_range(s.layers, layer_id, 0);
        },
        LoadMsg::Reloaded { layer_id, .. } => {
            index_is_in_range(s.layers, layer_id, 0);
        },
        LoadMsg::Appended { layer_id, generation, geometry, rows, updates, done } => {
            index_is_in_range(s.layers, layer_id, 0);
            if s.current(layer_id, generation) {
                let i = s.index_of(layer_id);
                let l = s.layers[i];
                let grown = LayerState {
                    sections: l.sections.wrapping_add(1),
                    feature_count: l.feature_count.wrapping_add(rows),
                    loaded: crate::loader::with_updates(l.loaded, updates@),
                    ..l
                };
                same_index_after_put(s.layers, layer_id, 0, i, grown);
            }
        },
        LoadMsg::PartsOpened { layer_id, .. } => {
            index_is_in_range(s.layers, layer_id, 0);
        },
        _ => {},
    }
}

proof fn batches_keep_category_order(s: Session, b: Batch, ms: Seq<LoadMsg>)
    requires
        in_category_order(s.layers),
    ensures
        in_category_order(s.on_messages(b, ms).0.layers),
    decreases ms.len(),
{
    if ms.len() > 0 {
        messages_keep_category_order(s, b, ms[0]);
        let (t, c) = s.on_message(b, ms[0]);
        batches_keep_category_order(t, c, ms.subrange(1, ms.len() as int));
    }
}

/// Whatever the workers deliver, polygons stay under lines and lines under
/// points, as long as nobody has moved a layer by hand.
pub proof fn delivery_keeps_category_order(s: Session, ms: Seq<LoadMsg>)
    requires
        in_category_order(s.layers),
    ensures
        in_category_order(s.poll(ms).layers),
{
    batches_keep_category_order(s, no_batch(), ms);
    let (t, b) = s.on_messages(no_batch(), ms);
    let u = match b.rebuild_display {
        Some(d) => {
            rebuild_keeps_kinds(t.redisplayed(d), None);
            same_kinds_same_order(t.layers, t.redisplayed(d).rebuild_from(None, 0).layers);
            let v = t.set_display(d);
            if v.cam.camera_moved && !b.first_layer_fit {
                Session { cam: CameraState { fit_after_rebuilds: false, ..v.cam }, ..v }.emit(
                    Effect::TransferCamera { from: t.cam.display },
                )
            } else {
                v
            }
        },
        None => t,
    };
    spawning_keeps_the_line(
        Session { queue: Loads { deferred: Seq::empty(), ..u.queue }, ..u },
        u.queue.deferred,
    );
}

// --- one layer per id -------------------------------------------------------------------

/// No two layers share an id.
pub open spec fn distinct_ids(layers: Seq<LayerState>) -> bool {
    forall|i: int, j: int|
        0 <= i < j < layers.len() ==> (#[trigger] layers[i]).id != (#[trigger] layers[j]).id
}

/// A layer that arrives under an id not on the map keeps ids distinct.
pub proof fn an_arrival_keeps_ids_distinct(s: Session, layer: LayerState)
    requires
        distinct_ids(s.layers),
        !s.has_layer(layer.id),
    ensures
        distinct_ids(s.land(layer).layers),
        s.land(layer).has_layer(layer.id),
{
    index_is_in_range(s.layers, layer.id, 0);
    let p = landing(s.layers, rank(layer.kind));
    crate::layers::landing_in_range(s.layers, rank(layer.kind));
    let t = s.land(layer);
    assert(t.layers[p] == layer);
    assert forall|i: int, j: int| 0 <= i < j < t.layers.len() implies (#[trigger] t.layers[i]).id != (
    #[trigger] t.layers[j]).id by {
        let a = if i < p { i } else { i - 1 };
        let c = if j < p { j } else { j - 1 };
        if i != p {
            assert(t.layers[i] == s.layers[a]);
        }
        if j != p {
            assert(t.layers[j] == s.layers[c]);
        }
    }
    index_is_in_range(t.layers, layer.id, 0);
}

/// A removed layer is gone for good, and its workers are told to stop.
pub proof fn a_removed_layer_is_gone(s: Session, id: u64)
    requires
        s.flags_known(),
    ensures
        !s.layer_removed(id).has_layer(id),
        s.work.append_cancel.contains_key(id) ==> s.layer_removed(id).flags.raised(
            s.work.append_cancel[id],
        ),
        s.work.rebuild_cancel.contains_key(id) ==> s.layer_removed(id).flags.raised(
            s.work.rebuild_cancel[id],
        ),
        s.layer_removed(id).pick.selection matches Some(p) ==> p.layer_id != id,
{
    crate::arming::held_flags_are_known(s);
    without_has_none(s.layers, id);
    index_is_in_range(s.layer_removed(id).layers, id, 0);
}

proof fn without_has_none(layers: Seq<LayerState>, id: u64)
    ensures
        forall|k: int| 0 <= k < without(layers, id).len() ==> (#[trigger] without(layers, id)[k]).id != id,
    decreases layers.len(),
{
    if layers.len() > 0 {
        let rest = layers.subrange(1, layers.len() as int);
        without_has_none(rest, id);
        assert forall|k: int| 0 <= k < without(layers, id).len() implies (
        #[trigger] without(layers, id)[k]).id != id by {
            if layers[0].id != id {
                if k > 0 {
                    assert(without(layers, id)[k] == without(rest, id)[k - 1]);
                }
            }
        }
    }
}

/// Moving a layer up and down again puts it back.
pub proof fn moving_there_and_back(s: Session, id: u64)
    requires
        distinct_ids(s.layers),
        s.has_layer(id),
        s.index_of(id) + 1 < s.layers.len(),
    ensures
        crate::panel::moved(
            Session { layers: crate::panel::moved(s, id, true), ..s },
            id,
            false,
        ) == s.layers,
{
    index_is_in_range(s.layers, id, 0);
    let i = s.index_of(id);
    let t = Session { layers: crate::panel::moved(s, id, true), ..s };
    assert(t.layers[i + 1].id == id);
    index_is_in_range(t.layers, id, 0);
    let j = t.index_of(id);
    if j != i + 1 {
        assert(t.layers[j].id == id);
        if j == i {
            assert(t.layers[i] == s.layers[i + 1]);
        } else {
            assert(t.layers[j] == s.layers[j]);
        }
    }
    assert(crate::panel::moved(t, id, false) =~= s.layers);
}

// --- the camera ---------------------------------------------------------------------------

/// A moved camera stops every read for the viewport left behind and holds no
/// layer back from reading for the new one.
pub proof fn a_moved_camera_holds_nothing_back(s: Session, id: u64)
    requires
        s.flags_known(),
    ensures
        !s.camera_moved_on().work.refine_hold.contains(id),
        !s.camera_moved_on().work.part_hold.contains(id),
        !s.camera_moved_on().work.refine_deferred.contains_key(id),
        s.work.append_cancel.contains_key(id) ==> s.camera_moved_on().flags.raised(
            s.work.append_cancel[id],
        ),
        s.same_view(id) ==> !s.camera_moved_on().same_view(id),
{
    crate::arming::held_flags_are_known(s);
    if s.work.append_cancel.contains_key(id) {
        assert(s.work.append_cancel.values().contains(s.work.append_cancel[id]));
    }
}

proof fn starting_loads_keeps_the_camera(s: Session, ds: Seq<DeferredLoad>)
    ensures
        s.spawn_loads(ds).cam == s.cam,
    decreases ds.len(),
{
    if ds.len() > 0 {
        starting_loads_keeps_the_camera(
            s.spawn_load(ds[0], false),
            ds.subrange(1, ds.len() as int),
        );
    }
}

/// The first layer onto an empty map is framed as soon as its geometry is in
/// the display's coordinates, whatever projection it brought and even if the
/// camera was touched meanwhile; only a restored session keeps its camera.
pub proof fn the_only_layer_is_framed(
    s: Session,
    job: u64,
    layer: crate::layers::Layer,
    geometry: u64,
    adopt: Option<(u64, bool)>,
)
    requires
        s.layers.len() == 0,
        s.queue.loading.contains_key(job),
        !s.queue.pending_styles.contains_key(job),
    ensures
        ({
            let m = LoadMsg::Loaded { job, layer, geometry, adopt };
            let r = s.poll(seq![m]);
            r.cam.pending_fit || r.cam.fit_after_rebuilds
        }),
{
    let m = LoadMsg::Loaded { job, layer, geometry, adopt };
    let ms = seq![m];
    let p = Session { strip_probe: STRIP_FRAMES, ..s };
    let (t, b) = s.on_message(no_batch(), m);
    assert(ms.subrange(1, 1) =~= Seq::<LoadMsg>::empty());
    assert(t.on_messages(b, ms.subrange(1, 1)) == (t, b));
    assert(s.on_messages(no_batch(), ms) == (t, b));
    crate::layers::landing_in_range(s.layers, rank(layer@.kind));
    let l = p.dressed(job, layer@);
    let a = p.arrive(job, layer@, geometry, adopt);
    assert(a.layers.len() == 1);
    let s1 = a.restore_filter(job, layer@.id);
    assert(s1.layers.len() == 1);
    assert(b.first_layer_fit);
    let accepted = p.accepted(job, adopt);
    let s2 = s1.frame_first(layer@.id, accepted);
    match accepted {
        Some((d, false)) => {
            assert(b.rebuild_display == Some(d));
            let base = t.redisplayed(d);
            rebuild_keeps_the_rest(base, None, 0);
            assert(t.layers.len() == 1);
            assert(t.set_display(d).cam.fit_after_rebuilds);
        },
        Some((d, true)) => {
            rebuild_keeps_the_rest(s2.adopt_display_lite(d), Some(layer@.id), 0);
            assert(b.rebuild_display is None);
            assert(t.cam.pending_fit || t.cam.fit_after_rebuilds);
        },
        None => {
            assert(b.rebuild_display is None);
            assert(t.cam.pending_fit || t.cam.fit_after_rebuilds);
        },
    }
    let u = match b.rebuild_display {
        Some(d) => t.set_display(d),
        None => t,
    };
    starting_loads_keeps_the_camera(
        Session { queue: Loads { deferred: Seq::empty(), ..u.queue }, ..u },
        u.queue.deferred,
    );
}

// --- picking --------------------------------------------------------------------------------

/// Only the latest pick is answered: a newer click, or clearing the
/// selection, disowns whatever was on its way.
pub proof fn an_earlier_pick_is_not_answered(s: Session, sel: Option<Picked>, truncated: Option<Capped>)
    ensures
        s.picking().pick_answered(s.pick.pick_job, sel, truncated) == s.picking(),
        s.clear_selection().pick_answered(s.pick.pick_job, sel, truncated) == s.clear_selection(),
        s.clear_selection().pick.selection is None,
        s.picking().pick_answered(s.picking().pick.pick_job, sel, truncated).pick.selection == sel,
{
}

// --- filters --------------------------------------------------------------------------------

proof fn nothing_to_refine(l: LayerState, hits: Seq<Hit>, rect: u64)
    requires
        forall|g: int|
            0 <= g < l.loaded.len() ==> #[trigger] l.loaded[g] is Full || l.loaded[g] is Rows,
        forall|k: int|
            0 <= k < hits.len() ==> (#[trigger] hits[k]).covered && hits[k].group < l.loaded.len(),
    ensures
        refine_all(l, hits, rect).len() == 0,
    decreases hits.len(),
{
    if hits.len() > 0 {
        let before = hits.drop_last();
        assert forall|k: int| 0 <= k < before.len() implies (#[trigger] before[k]).covered
            && before[k].group < l.loaded.len() by {
            assert(before[k] == hits[k]);
        }
        nothing_to_refine(l, before, rect);
        assert(hits.last() == hits[hits.len() - 1]);
    }
}

/// Panning never adds rows to a filtered layer: the rows of a filter cover
/// every viewport, so that there is nothing left to read.
pub proof fn a_filtered_layer_is_not_refined(
    s: Session,
    id: u64,
    predicate: String,
    rows: FilterRows,
    hits: Seq<Hit>,
    rect: u64,
)
    requires
        s.has_layer(id),
        s.layers[s.index_of(id)].wf(),
        rows.per_group@.len() == s.layers[s.index_of(id)].loaded.len(),
        forall|k: int|
            0 <= k < hits.len() ==> (#[trigger] hits[k]).covered && hits[k].group
                < rows.per_group@.len(),
    ensures
        ({
            let t = s.filter_applied(id, predicate, rows);
            refine_all(t.layers[s.index_of(id)], hits, rect).len() == 0
        }),
{
    index_is_in_range(s.layers, id, 0);
    let i = s.index_of(id);
    let t = s.filter_applied(id, predicate, rows);
    let l = t.layers[i];
    assert(l.loaded == filtered_loads(s.layers[i], rows.per_group@));
    assert forall|g: int| 0 <= g < l.loaded.len() implies #[trigger] l.loaded[g] is Full
        || l.loaded[g] is Rows by {
        assert(l.loaded[g] == crate::layers::filtered_one(
            s.layers[i].group_rows(g),
            rows.per_group@[g],
        ));
    }
    nothing_to_refine(l, hits, rect);
}

} // verus!
