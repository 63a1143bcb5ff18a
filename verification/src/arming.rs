//! Loads and workers go by flags that were handed out to them alone, whatever
//! the session does, and a raised flag stays raised: stopping one stops no
//! other.
use vstd::prelude::*;
use crate::context::{SavedLayer, SavedTable, SavedView};
use crate::filters::{FilterMsg, FilterRows};
use crate::joins::join_finished;
use crate::layers::{Hit, LayerState};
use crate::loader::{Batch, LoadMsg};
use crate::refine::LayerView;
use crate::session::{
    CameraState, DeferredLoad, Effect, Holder, Loads, QualityGate, Session, SourceInfo, ViewerApp, Work,
    STRIP_FRAMES,
};
use crate::viewer::{opened, StartFile};

verus! {

broadcast use vstd::std_specs::hash::group_hash_axioms;

/// From `s` to `t` flags are only handed out and raised, and as long as their
/// numbers suffice, the loads and workers of `t` go by flags handed out to
/// them, if those of `s` do.
pub open spec fn keeps_flags(s: Session, t: Session) -> bool {
    &&& s.flags.up.len() <= t.flags.up.len()
    &&& forall|f: u64| #[trigger] s.flags.raised(f) ==> t.flags.raised(f)
    &&& s.flags_known() && t.flags.up.len() <= u64::MAX ==> t.flags_known()
}

/// The numbers of flags suffice for every session there can be.
pub proof fn numbers_suffice(app: &ViewerApp)
    ensures
        app@.flags.up.len() <= u64::MAX,
{
    app.flags.numbers_suffice();
}

// --- small steps ------------------------------------------------------------------------------

/// Nothing that goes by a flag is touched.
spec fn untouched(s: Session, t: Session) -> bool {
    &&& t.flags == s.flags
    &&& t.queue.loading == s.queue.loading
    &&& t.queue.deferred == s.queue.deferred
    &&& t.work.append_cancel == s.work.append_cancel
    &&& t.work.rebuild_cancel == s.work.rebuild_cancel
    &&& t.work.appending == s.work.appending
    &&& t.queue.next_job == s.queue.next_job
}

proof fn and_then(s: Session, t: Session, u: Session)
    requires
        keeps_flags(s, t),
        keeps_flags(t, u),
    ensures
        keeps_flags(s, u),
{
}

/// The flags of loads and workers, one by one.
pub(crate) proof fn held_flags_are_known(s: Session)
    requires
        s.flags_known(),
    ensures
        forall|job: u64| #[trigger]
            s.queue.loading.contains_key(job) ==> s.flags.known(s.queue.loading[job].flag),
        s.flags.registers(s.work.append_cancel),
        s.flags.registers(s.work.rebuild_cancel),
{
    assert forall|job: u64| #[trigger] s.queue.loading.contains_key(job) implies s.flags.known(
        s.queue.loading[job].flag,
    ) by {
        assert(s.holds(Holder::Load(job), s.queue.loading[job].flag));
    }
    let m = s.work.append_cancel;
    assert forall|id: u64| #[trigger] m.contains_key(id) implies s.flags.known(m[id]) by {
        assert(s.holds(Holder::Read(id), m[id]));
    }
    assert forall|a: u64, b: u64|
        #![trigger m.contains_key(a), m.contains_key(b)]
        m.contains_key(a) && m.contains_key(b) && a != b implies m[a] != m[b] by {
        assert(s.holds(Holder::Read(a), m[a]) && s.holds(Holder::Read(b), m[b]));
    }
    let n = s.work.rebuild_cancel;
    assert forall|id: u64| #[trigger] n.contains_key(id) implies s.flags.known(n[id]) by {
        assert(s.holds(Holder::Rebuild(id), n[id]));
    }
    assert forall|a: u64, b: u64|
        #![trigger n.contains_key(a), n.contains_key(b)]
        n.contains_key(a) && n.contains_key(b) && a != b implies n[a] != n[b] by {
        assert(s.holds(Holder::Rebuild(a), n[a]) && s.holds(Holder::Rebuild(b), n[b]));
    }
}

/// Who goes by a flag in `t` did in `s`, but for `new`, who goes by the flag
/// handed out in between.
proof fn one_more(s: Session, t: Session, new: Holder)
    requires
        t.flags.up.len() == s.flags.up.len() + 1,
        forall|f: u64| #[trigger] s.flags.raised(f) ==> t.flags.raised(f),
        forall|h: Holder, f: u64| #[trigger]
            t.holds(h, f) && t.flags.up.len() <= u64::MAX && s.flags_known() ==> if h == new {
                f == s.flags.next()
            } else {
                s.holds(h, f)
            },
        match new {
            Holder::Load(job) => job == s.queue.next_job && t.queue.next_job
                == s.queue.next_job.wrapping_add(1),
            _ => t.queue.next_job == s.queue.next_job,
        },
        forall|id: u64| #[trigger]
            t.work.append_cancel.contains_key(id) ==> t.work.appending.contains(id)
                || !s.flags_known(),
    ensures
        keeps_flags(s, t),
{
    if s.flags_known() && t.flags.up.len() <= u64::MAX {
        assert(s.flags.next() == s.flags.up.len());
        assert forall|h: Holder, f: u64| #[trigger] t.holds(h, f) implies t.flags.known(f) by {
            if h != new {
                assert(s.holds(h, f));
            }
        }
        assert forall|h: Holder, f: u64, g: u64|
            #![trigger t.holds(h, f), t.holds(h, g)]
            t.holds(h, f) && t.holds(h, g) implies f == g by {
            if h != new {
                assert(s.holds(h, f) && s.holds(h, g));
            }
        }
        assert forall|h: Holder, k: Holder, f: u64|
            #![trigger t.holds(h, f), t.holds(k, f)]
            t.holds(h, f) && t.holds(k, f) implies h == k by {
            if h != new {
                assert(s.holds(h, f));
                assert(s.flags.known(f));
            }
            if k != new {
                assert(s.holds(k, f));
                assert(s.flags.known(f));
            }
        }
        assert forall|job: u64, f: u64| #[trigger] t.holds(Holder::Load(job), f) implies job
            < t.queue.next_job by {
            if Holder::Load(job) != new {
                assert(s.holds(Holder::Load(job), f));
            }
        }
    }
}

/// Loads and workers may go, and flags be raised.
proof fn fewer(s: Session, t: Session)
    requires
        s.flags.up.len() == t.flags.up.len(),
        forall|i: int| #![auto] 0 <= i < s.flags.up.len() && s.flags.up[i] ==> t.flags.up[i],
        t.work.append_cancel.submap_of(s.work.append_cancel),
        t.work.rebuild_cancel.submap_of(s.work.rebuild_cancel),
        forall|job: u64| #[trigger]
            t.queue.loading.contains_key(job) ==> s.queue.loading.contains_key(job)
                && t.queue.loading[job].flag == s.queue.loading[job].flag,
        t.queue.deferred == s.queue.deferred || t.queue.deferred.len() == 0,
        t.queue.next_job == s.queue.next_job,
        forall|id: u64| #[trigger]
            t.work.append_cancel.contains_key(id) && s.work.appending.contains(id)
                ==> t.work.appending.contains(id),
    ensures
        keeps_flags(s, t),
{
    if s.flags_known() {
        assert forall|h: Holder, f: u64| #[trigger] t.holds(h, f) implies s.holds(h, f) by {
            match h {
                Holder::Load(job) => {
                    if t.waits(job, f) {
                        assert(t.queue.deferred.len() > 0);
                        assert(s.waits(job, f));
                    } else {
                        assert(s.queue.loading.contains_key(job));
                    }
                },
                Holder::Read(id) => {
                    assert(t.work.append_cancel.dom().contains(id));
                    assert(s.work.append_cancel.contains_key(id));
                },
                Holder::Rebuild(id) => {
                    assert(t.work.rebuild_cancel.dom().contains(id));
                    assert(s.work.rebuild_cancel.contains_key(id));
                },
            }
        }
        assert forall|id: u64| #[trigger] t.work.append_cancel.contains_key(id) implies t.work.appending.contains(
        id) by {
            assert(s.work.append_cancel.contains_key(id));
        }
        assert forall|h: Holder, f: u64| #[trigger] t.holds(h, f) implies t.flags.known(f) by {
            assert(s.holds(h, f));
        }
        assert forall|job: u64, f: u64| #[trigger] t.holds(Holder::Load(job), f) implies job
            < t.queue.next_job by {
            assert(s.holds(Holder::Load(job), f));
        }
    }
}

proof fn same(s: Session, t: Session)
    requires
        untouched(s, t),
    ensures
        keeps_flags(s, t),
{
    fewer(s, t);
}

proof fn arming_a_rebuild(s: Session, id: u64)
    ensures
        keeps_flags(s, s.arm_rebuild(id)),
{
    let t = s.arm_rebuild(id);
    assert forall|h: Holder, f: u64| #[trigger] t.holds(h, f) implies if h == Holder::Rebuild(id) {
        f == s.flags.next()
    } else {
        s.holds(h, f)
    } by {
        if let Holder::Load(job) = h {
            if t.waits(job, f) {
                assert(s.waits(job, f));
            }
        }
    }
    one_more(s, t, Holder::Rebuild(id));
}

proof fn arming_an_append(s: Session, id: u64)
    ensures
        keeps_flags(s, s.arm_append(id)),
{
    let t = s.arm_append(id);
    assert forall|h: Holder, f: u64| #[trigger] t.holds(h, f) implies if h == Holder::Read(id) {
        f == s.flags.next()
    } else {
        s.holds(h, f)
    } by {
        if let Holder::Load(job) = h {
            if t.waits(job, f) {
                assert(s.waits(job, f));
            }
        }
    }
    one_more(s, t, Holder::Read(id));
}

proof fn one_rebuild(s: Session, i: int)
    ensures
        keeps_flags(s, s.begin_rebuild(i)),
{
    let l = s.layers[i];
    let generation = l.generation.wrapping_add(1);
    let p = Session { layers: s.layers.update(i, LayerState { generation, ..l }), ..s };
    same(s, p);
    arming_a_rebuild(p, l.id);
    same(p.arm_rebuild(l.id), s.begin_rebuild(i));
}

proof fn rebuilds(s: Session, skip: Option<u64>, i: int)
    ensures
        keeps_flags(s, s.rebuild_from(skip, i)),
    decreases s.layers.len() - i,
{
    if i >= s.layers.len() || i < 0 {
    } else if skip == Some(s.layers[i].id) {
        rebuilds(s, skip, i + 1);
    } else {
        one_rebuild(s, i);
        rebuilds(s.begin_rebuild(i), skip, i + 1);
    }
}

proof fn switching(s: Session, d: u64)
    ensures
        keeps_flags(s, s.set_display(d)),
{
    same(s, s.redisplayed(d));
    rebuilds(s.redisplayed(d), None, 0);
    same(s.redisplayed(d).rebuild_from(None, 0), s.set_display(d));
}

proof fn spawning(s: Session, d: DeferredLoad, auto_project: bool)
    ensures
        keeps_flags(s, s.spawn_load(d, auto_project)),
{
    fewer(s, s.spawn_load(d, auto_project));
}

proof fn spawning_all(s: Session, ds: Seq<DeferredLoad>)
    ensures
        keeps_flags(s, s.spawn_loads(ds)),
    decreases ds.len(),
{
    if ds.len() > 0 {
        let t = s.spawn_load(ds[0], false);
        spawning(s, ds[0], false);
        spawning_all(t, ds.subrange(1, ds.len() as int));
    }
}

proof fn flushing(s: Session)
    ensures
        keeps_flags(s, s.flush_deferred()),
{
    let t = Session { queue: Loads { deferred: Seq::empty(), ..s.queue }, ..s };
    fewer(s, t);
    spawning_all(t, s.queue.deferred);
}

proof fn enqueueing(s: Session, source: SourceInfo)
    ensures
        keeps_flags(s, s.enqueue_load(source)),
{
    let t = s.enqueue_load(source);
    let d = s.next_load(source);
    assert forall|h: Holder, f: u64| #[trigger]
        t.holds(h, f) && t.flags.up.len() <= u64::MAX && s.flags_known() implies if h
        == Holder::Load(d.job) {
        f == s.flags.next()
    } else {
        s.holds(h, f)
    } by {
        if let Holder::Load(job) = h {
            if t.waits(job, f) {
                let i = choose|i: int|
                    0 <= i < t.queue.deferred.len() && (#[trigger] t.queue.deferred[i]).job == job
                        && t.queue.deferred[i].flag == f;
                if i < s.queue.deferred.len() {
                    assert(t.queue.deferred[i] == s.queue.deferred[i]);
                    assert(s.waits(job, f));
                    assert(s.holds(h, f));
                } else {
                    assert(t.queue.deferred[i] == d);
                }
            }
        }
    }
    one_more(s, t, Holder::Load(d.job));
}

proof fn cancelling(s: Session)
    ensures
        keeps_flags(s, s.cancel_in_flight()),
{
    fewer(s, s.cancel_in_flight());
}

proof fn merging(s: Session, id: u64)
    ensures
        keeps_flags(s, s.consolidate(id)),
{
    if s.has_layer(id) {
        one_rebuild(s, s.index_of(id));
        same(s.begin_rebuild(s.index_of(id)), s.consolidate(id));
    }
}

/// A worker just armed runs: its flag is not raised. Arming a rebuild stops
/// the one in flight for the layer, and no other layer's; a read is armed only
/// where none is in flight for the layer.
pub proof fn a_new_worker_runs(s: Session, id: u64, other: u64, i: int, hits: Seq<Hit>, rect: u64)
    requires
        s.flags_known(),
        s.flags.up.len() < u64::MAX,
        other != id,
        0 <= i < s.layers.len(),
    ensures
        ({
            let f = s.flags.next();
            let t = s.arm_rebuild(id);
            &&& t.work.rebuild_cancel.contains_pair(id, f)
            &&& t.flags.known(f) && !t.flags.raised(f)
            &&& s.work.rebuild_cancel.contains_key(id) ==> t.flags.raised(
                s.work.rebuild_cancel[id],
            )
            &&& s.work.rebuild_cancel.contains_key(other) ==> t.flags.raised(
                s.work.rebuild_cancel[other],
            ) == s.flags.raised(s.work.rebuild_cancel[other])
        }),
        ({
            let f = s.flags.next();
            let t = s.arm_append(id);
            &&& t.work.append_cancel.contains_pair(id, f)
            &&& t.flags.known(f) && !t.flags.raised(f)
        }),
        s.append_parts(i) != s ==> !s.work.append_cancel.contains_key(s.layers[i].id),
        s.refine(i, hits, rect) != s ==> !s.work.append_cancel.contains_key(s.layers[i].id),
        s.load_all(id) != s ==> !s.work.append_cancel.contains_key(id),
{
    held_flags_are_known(s);
}

/// Stopping a load, a read or the workers of a layer stops no other: whoever
/// else goes by a flag goes by it still, and it is raised only if it was. The
/// same holds of arming a worker, which may stop the one it supersedes, of
/// enqueueing a load, and of a moved camera, which stops reads alone.
pub proof fn stopping_one_stops_no_other(
    s: Session,
    h: Holder,
    flag: u64,
    job: u64,
    id: u64,
    source: SourceInfo,
)
    requires
        s.flags_known(),
        s.flags.up.len() < u64::MAX,
        s.holds(h, flag),
    ensures
        h != Holder::Load(job) ==> s.load_stopped(job).holds(h, flag) && s.load_stopped(
            job,
        ).flags.raised(flag) == s.flags.raised(flag),
        h != Holder::Read(id) ==> s.append_stopped(id).holds(h, flag) && s.append_stopped(
            id,
        ).flags.raised(flag) == s.flags.raised(flag),
        h != Holder::Read(id) && h != Holder::Rebuild(id) ==> s.layer_removed(id).holds(h, flag)
            && s.layer_removed(id).flags.raised(flag) == s.flags.raised(flag),
        h != Holder::Rebuild(id) ==> s.arm_rebuild(id).holds(h, flag) && s.arm_rebuild(
            id,
        ).flags.raised(flag) == s.flags.raised(flag),
        h != Holder::Read(id) ==> s.arm_append(id).holds(h, flag),
        s.arm_append(id).flags.raised(flag) == s.flags.raised(flag),
        s.enqueue_load(source).holds(h, flag),
        s.enqueue_load(source).flags.raised(flag) == s.flags.raised(flag),
        !(h is Read) ==> s.camera_moved_on().holds(h, flag) && s.camera_moved_on().flags.raised(
            flag,
        ) == s.flags.raised(flag),
{
    held_flags_are_known(s);
    if s.queue.loading.contains_key(job) {
        assert(s.holds(Holder::Load(job), s.queue.loading[job].flag));
    }
    if s.work.append_cancel.contains_key(id) {
        assert(s.holds(Holder::Read(id), s.work.append_cancel[id]));
    }
    if s.work.rebuild_cancel.contains_key(id) {
        assert(s.holds(Holder::Rebuild(id), s.work.rebuild_cancel[id]));
    }
    if s.work.append_cancel.values().contains(flag) {
        let k = choose|k: u64| #[trigger]
            s.work.append_cancel.contains_key(k) && s.work.append_cancel[k] == flag;
        assert(s.holds(Holder::Read(k), flag));
    }
    let e = s.enqueue_load(source);
    if let Holder::Load(j) = h {
        assert(j < s.queue.next_job);
        if s.waits(j, flag) {
            let i = choose|i: int|
                0 <= i < s.queue.deferred.len() && (#[trigger] s.queue.deferred[i]).job == j
                    && s.queue.deferred[i].flag == flag;
            assert(e.queue.deferred[i] == s.queue.deferred[i]);
            assert(e.waits(j, flag));
            assert(s.load_stopped(job).queue.deferred[i].job == j);
            assert(s.load_stopped(job).waits(j, flag));
            assert(s.layer_removed(id).queue.deferred[i].job == j);
            assert(s.layer_removed(id).waits(j, flag));
            assert(s.append_stopped(id).queue.deferred[i].job == j);
            assert(s.append_stopped(id).waits(j, flag));
            assert(s.arm_rebuild(id).queue.deferred[i].job == j);
            assert(s.arm_rebuild(id).waits(j, flag));
            assert(s.arm_append(id).queue.deferred[i].job == j);
            assert(s.arm_append(id).waits(j, flag));
            assert(s.camera_moved_on().queue.deferred[i].job == j);
            assert(s.camera_moved_on().waits(j, flag));
        }
    }
}

// --- what the session starts with ------------------------------------------------------------

/// Opening the sources of the command line.
proof fn opening(s: Session, files: Seq<StartFile>)
    ensures
        keeps_flags(s, opened(s, files)),
    decreases files.len(),
{
    if files.len() > 0 {
        let t = if files[0].tabular {
            s.emit(Effect::OpenTable { source: files[0].source.handle, name: None })
        } else {
            s.enqueue_load(files[0].source)
        };
        enqueueing(s, files[0].source);
        if files[0].tabular {
            same(s, t);
        }
        opening(t, files.subrange(1, files.len() as int));
    }
}

/// A session starts with flags in order, whatever it is told to open.
pub proof fn a_session_starts_with_flags_in_order(files: Seq<Seq<char>>, sources: Seq<StartFile>)
    requires
        opened(Session::fresh(files), sources).flags.up.len() <= u64::MAX,
    ensures
        opened(Session::fresh(files), sources).flags_known(),
{
    opening(Session::fresh(files), sources);
}

// --- loads ------------------------------------------------------------------------------------

proof fn delivering(
    p: Session,
    b: Batch,
    job: u64,
    layer: LayerState,
    geometry: u64,
    adopt: Option<(u64, bool)>,
)
    ensures
        keeps_flags(p, p.on_loaded(b, job, layer, geometry, adopt).0),
{
    if p.queue.loading.contains_key(job) {
        let accepted = p.accepted(job, adopt);
        let l = p.dressed(job, layer);
        let s0 = Session {
            queue: Loads {
                loading: p.queue.loading.remove(job),
                pending_names: p.queue.pending_names.remove(job),
                pending_styles: p.queue.pending_styles.remove(job),
                ..p.queue
            },
            ..p
        };
        fewer(p, s0);
        arming_a_rebuild(s0, l.id);
        let s1 = p.arrive(job, layer, geometry, adopt);
        if p.misbuilt(job, adopt) {
            same(s0.arm_rebuild(l.id), s1);
        } else {
            same(s0, s1);
        }
        let s2 = s1.restore_filter(job, layer.id);
        same(s1, s2);
        let first = s2.layers.len() == 1 && !p.queue.pending_styles.contains_key(job);
        let s3 = if first {
            s2.frame_first(layer.id, accepted)
        } else {
            s2
        };
        same(s2, s3);
        let s4 = match accepted {
            Some((d, true)) => {
                let a = s3.adopt_display_lite(d);
                let r = a.rebuild_from(Some(layer.id), 0);
                same(s3, a);
                rebuilds(a, Some(layer.id), 0);
                let c = r.camera_after_adoption(s3.cam.display);
                same(r, c);
                c
            },
            _ => s3,
        };
        assert(keeps_flags(s3, s4));
        same(s4, s4.end_decider(job));
    }
}

proof fn appending(
    s: Session,
    layer_id: u64,
    generation: u64,
    geometry: u64,
    rows: usize,
    ups: Seq<(u32, crate::layers::GroupLoad)>,
    done: bool,
)
    ensures
        keeps_flags(s, s.on_appended(layer_id, generation, geometry, rows, ups, done)),
{
    let t = s.on_appended(layer_id, generation, geometry, rows, ups, done);
    let e = if done {
        Session {
            work: Work {
                appending: s.work.appending.remove(layer_id),
                part_appending: s.work.part_appending.remove(layer_id),
                append_cancel: s.work.append_cancel.remove(layer_id),
                ..s.work
            },
            ..s
        }
    } else {
        s
    };
    fewer(s, e);
    if e.current(layer_id, generation) {
        let i = e.index_of(layer_id);
        let l = e.layers[i];
        let g = e.put(
            i,
            LayerState {
                sections: l.sections.wrapping_add(1),
                feature_count: l.feature_count.wrapping_add(rows),
                loaded: crate::loader::with_updates(l.loaded, ups),
                ..l
            },
        ).emit(Effect::PushSection { layer_id, geometry });
        same(e, g);
        merging(g, layer_id);
        assert(t == g || t == g.consolidate(layer_id));
    } else {
        assert(t == e);
    }
}

/// Every message of a loader keeps the flags in order.
#[verifier::spinoff_prover]
pub proof fn messages_keep_flags_in_order(s: Session, b: Batch, m: LoadMsg)
    ensures
        keeps_flags(s, s.on_message(b, m).0),
{
    let p = Session { strip_probe: STRIP_FRAMES, ..s };
    let t = s.on_message(b, m).0;
    same(s, p);
    match m {
        LoadMsg::Progress { .. } => fewer(p, t),
        LoadMsg::Framed { .. } => fewer(p, t),
        LoadMsg::Loaded { job, layer, geometry, adopt } => {
            delivering(p, b, job, layer@, geometry, adopt)
        },
        LoadMsg::Rebuilt { .. } => fewer(p, t),
        LoadMsg::Reloaded { .. } => fewer(p, t),
        LoadMsg::Appended { layer_id, generation, geometry, rows, updates, done } => {
            appending(p, layer_id, generation, geometry, rows, updates@, done)
        },
        LoadMsg::RebuildFailed { .. } => fewer(p, t),
        LoadMsg::PartsOpened { .. } => same(p, t),
        LoadMsg::AppendEnded { .. } => fewer(p, t),
        LoadMsg::RefineDeferred { .. } => fewer(p, t),
        LoadMsg::Gated { gate } => gated(p, gate),
        LoadMsg::Failed { .. } => fewer(p, t),
    }
}

proof fn resuming(s: Session, g: QualityGate)
    ensures
        keeps_flags(s, s.resume_gated(g)),
{
    let t = s.resume_gated(g);
    let k = Session { flags: s.flags, ..t };
    fewer(s, k);
    if s.flags_known() {
        assert forall|h: Holder, f: u64| #[trigger] t.holds(h, f) implies k.holds(h, f) by {
            if let Holder::Load(job) = h {
                if t.waits(job, f) {
                    assert(k.waits(job, f));
                }
            }
        }
        assert forall|h: Holder, f: u64| #[trigger] t.holds(h, f) implies t.flags.known(f) by {
            assert(k.holds(h, f));
        }
    }
}

proof fn gated(s: Session, g: QualityGate)
    ensures
        keeps_flags(s, s.on_gated(g)),
{
    resuming(s, g);
    if !s.direct_files.contains(crate::session::gate_key(g.label@, g.file_size)) {
        fewer(s, s.on_gated(g));
    }
}

/// The end of a batch keeps the flags in order.
pub proof fn a_batch_ends_with_flags_in_order(s: Session, b: Batch)
    ensures
        keeps_flags(s, s.finish(b)),
{
    let u = match b.rebuild_display {
        Some(d) => {
            switching(s, d);
            let v = s.set_display(d);
            let w = if v.cam.camera_moved && !b.first_layer_fit {
                Session { cam: CameraState { fit_after_rebuilds: false, ..v.cam }, ..v }.emit(
                    Effect::TransferCamera { from: s.cam.display },
                )
            } else {
                v
            };
            same(v, w);
            w
        },
        None => s,
    };
    assert(keeps_flags(s, u));
    flushing(u);
}

proof fn many_messages(s: Session, b: Batch, ms: Seq<LoadMsg>)
    ensures
        keeps_flags(s, s.on_messages(b, ms).0),
    decreases ms.len(),
{
    if ms.len() > 0 {
        let (t, c) = s.on_message(b, ms[0]);
        messages_keep_flags_in_order(s, b, ms[0]);
        many_messages(t, c, ms.subrange(1, ms.len() as int));
    }
}

// --- reading more -----------------------------------------------------------------------------

proof fn growing(s: Session, i: int)
    ensures
        keeps_flags(s, s.append_from(i)),
    decreases s.layers.len() - i,
{
    if 0 <= i < s.layers.len() {
        let id = s.layers[i].id;
        let t = s.append_parts(i);
        arming_an_append(s, id);
        if t != s {
            same(s.arm_append(id), t);
        }
        growing(t, i + 1);
    }
}

proof fn refining_one(s: Session, i: int, hits: Seq<Hit>, rect: u64)
    ensures
        keeps_flags(s, s.refine(i, hits, rect)),
{
    let id = s.layers[i].id;
    arming_an_append(s, id);
    let t = s.refine(i, hits, rect);
    if t != s {
        same(s.arm_append(id), t);
    }
}

proof fn refining(s: Session, i: int, views: Seq<Option<LayerView>>)
    ensures
        keeps_flags(s, s.refine_from(i, views)),
    decreases s.layers.len() - i,
{
    if 0 <= i < s.layers.len() {
        let t = s.refine_seen(i, views);
        if let Some(v) = views[i] {
            refining_one(s, i, v.hits@, v.rect);
        }
        refining(t, i + 1, views);
    }
}

proof fn reloading_one(s: Session, i: int)
    ensures
        keeps_flags(s, s.reload_one(i)),
{
    let l = s.layers[i];
    let t = s.reload_one(i);
    if !l.direct {
        let p = Session {
            work: Work {
                appending: s.work.appending.remove(l.id),
                append_cancel: s.work.append_cancel.remove(l.id),
                ..s.work
            },
            flags: s.flags.raise_of(s.work.append_cancel, l.id),
            ..s
        };
        fewer(s, p);
        arming_a_rebuild(p, l.id);
        same(p.arm_rebuild(l.id), t);
    }
}

proof fn reloading(s: Session, i: int)
    ensures
        keeps_flags(s, s.reload_from(i)),
    decreases s.layers.len() - i,
{
    if 0 <= i < s.layers.len() {
        reloading_one(s, i);
        reloading(s.reload_one(i), i + 1);
    }
}

/// Following the camera keeps the flags in order: stopping reads for the
/// viewport left behind, looking for part files, refining, reading all there
/// is, and reloading for the viewport.
pub proof fn the_camera_keeps_flags_in_order(
    s: Session,
    on_globe: bool,
    views: Seq<Option<LayerView>>,
    id: u64,
)
    ensures
        keeps_flags(s, s.camera_moved_on()),
        keeps_flags(s, s.grown(on_globe)),
        keeps_flags(s, s.grown(on_globe).refine_from(0, views)),
        keeps_flags(s, s.load_all(id)),
        keeps_flags(s, s.append_stopped(id)),
        keeps_flags(s, s.reload_to_viewport()),
{
    fewer(s, s.camera_moved_on());
    fewer(s, s.append_stopped(id));
    growing(s, 0);
    let g = s.grown(on_globe);
    refining(g, 0, views);
    and_then(s, g, g.refine_from(0, views));
    arming_an_append(s, id);
    if s.load_all(id) != s {
        same(s.arm_append(id), s.load_all(id));
    }
    let c = s.clear_selection();
    same(s, c);
    reloading(c, 0);
    same(c.reload_from(0), s.reload_to_viewport());
    and_then(s, c, c.reload_from(0));
}

// --- what the user does -----------------------------------------------------------------------

proof fn filtering(s: Session, id: u64, predicate: String, rows: FilterRows)
    ensures
        keeps_flags(s, s.filter_applied(id, predicate, rows)),
        keeps_flags(s, s.filter_cleared(id)),
{
    if s.has_layer(id) {
        let i = s.index_of(id);
        let l = s.layers[i];
        let a = s.put(
            i,
            LayerState {
                loaded: crate::layers::filtered_loads(l, rows.per_group@),
                filter: Some(crate::layers::LayerFilter { sql: predicate, matched: rows.matched }),
                feature_count: rows.matched,
                ..l
            },
        );
        same(s, a);
        one_rebuild(a, i);
        let c = s.put(
            i,
            LayerState {
                loaded: Seq::new(
                    if l.starts.len() == 0 {
                        0
                    } else {
                        (l.starts.len() - 1) as nat
                    },
                    |g: int| crate::layers::GroupLoad::Full,
                ),
                filter: None,
                feature_count: l.total_rows() as usize,
                ..l
            },
        );
        same(s, c);
        one_rebuild(c, i);
    }
}

/// Filters, their outcomes and new classes keep the flags in order.
pub proof fn filters_keep_flags_in_order(
    s: Session,
    id: u64,
    predicate: String,
    rows: FilterRows,
    m: FilterMsg,
)
    ensures
        keeps_flags(s, s.start_layer_filter(id, predicate)),
        keeps_flags(s, s.filter_applied(id, predicate, rows)),
        keeps_flags(s, s.filter_cleared(id)),
        keeps_flags(s, s.on_filter(m)),
        keeps_flags(s, s.begin_rebuild(s.index_of(id))),
{
    same(s, s.start_layer_filter(id, predicate));
    filtering(s, id, predicate, rows);
    one_rebuild(s, s.index_of(id));
    let p = Session {
        work: Work { filter_pending: s.work.filter_pending.remove(m.layer_id), ..s.work },
        ..s
    };
    same(s, p);
    match m.result {
        Err(e) => same(p, s.on_filter(m)),
        Ok(rows) => filtering(p, m.layer_id, m.predicate, rows),
    }
}

proof fn dropping(s: Session, job: u64)
    ensures
        keeps_flags(s, s.drop_gated(job)),
{
    let t = Session {
        queue: Loads { loading: s.queue.loading.remove(job), ..s.queue },
        ..s
    };
    fewer(s, t);
    same(t, t.end_decider(job));
    flushing(t.end_decider(job));
}

/// Answers to paused loads, and stopping a load, keep the flags in order.
pub proof fn answers_keep_flags_in_order(s: Session, job: u64)
    ensures
        keeps_flags(s, s.gate_load_all()),
        keeps_flags(s, s.gate_cancel()),
        keeps_flags(s, s.load_stopped(job)),
{
    fewer(s, s.load_stopped(job));
    if s.queue.gates.len() > 0 {
        let g = s.queue.gates[0];
        let n = s.next_gate_taken();
        same(s, n);
        dropping(n, g.job);
        let key = crate::session::gate_key(g.label@, g.file_size);
        let k = Session {
            direct_files: if n.direct_files.contains(key) {
                n.direct_files
            } else {
                n.direct_files.push(key)
            },
            ..n
        }.emit(Effect::SaveDirectFiles);
        same(n, k);
        resuming(k, g);
    }
}

/// Loading sources, choosing a projection, removing a layer and starting over
/// keep the flags in order.
pub proof fn choices_keep_flags_in_order(
    s: Session,
    source: SourceInfo,
    name: String,
    pick: Option<u64>,
    auto: bool,
    id: u64,
)
    ensures
        keeps_flags(s, s.enqueue_load(source)),
        keeps_flags(s, s.enqueue_named(source, name)),
        keeps_flags(s, s.projection_chosen(pick, auto)),
        keeps_flags(s, s.layer_removed(id)),
        keeps_flags(s, s.consolidate(id)),
        keeps_flags(s, s.reset_layout()),
{
    enqueueing(s, source);
    same(s.enqueue_load(source), s.enqueue_named(source, name));
    let a = Session { cam: CameraState { auto_projection: auto, ..s.cam }, ..s };
    same(s, a);
    if let Some(d) = pick {
        switching(a, d);
    }
    fewer(s, s.layer_removed(id));
    merging(s, id);
    let c = s.cancel_in_flight();
    cancelling(s);
    reveal_with_fuel(Session::rebuild_from, 2);
    fewer(c, s.reset_layout());
}

proof fn restoring_layers(s: Session, ls: Seq<SavedLayer>)
    ensures
        keeps_flags(s, s.layers_restored(ls)),
    decreases ls.len(),
{
    if ls.len() > 0 {
        let t = s.layer_restored(ls[0]);
        enqueueing(s, ls[0].source);
        same(s.enqueue_load(ls[0].source), t);
        restoring_layers(t, ls.subrange(1, ls.len() as int));
    }
}

/// Restoring a saved session keeps the flags in order.
pub proof fn a_restore_keeps_flags_in_order(
    s: Session,
    display: u64,
    v: SavedView,
    tables: Seq<SavedTable>,
    ls: Seq<SavedLayer>,
)
    ensures
        keeps_flags(s, s.restored(display, v, tables, ls)),
{
    let c = s.cancel_in_flight();
    cancelling(s);
    let e = s.emptied_for(display).with_saved_view(v);
    reveal_with_fuel(Session::rebuild_from, 2);
    fewer(c, e);
    let t = e.tables_opened(tables);
    crate::context::tables_leave_alone(e, tables);
    same(e, t);
    restoring_layers(t, ls);
}

/// Putting joined rows on the map keeps the flags in order.
pub proof fn a_join_keeps_flags_in_order(
    s: Session,
    replaced: Option<u64>,
    source: SourceInfo,
    after: Session,
)
    requires
        join_finished(s, replaced, source, after),
    ensures
        keeps_flags(s, after),
{
    enqueueing(s, source);
    if let Some(id) = replaced {
        let p = Session { layers: crate::panel::without(s.layers, id), ..s };
        same(s, p);
        enqueueing(p, source);
        same(p.enqueue_load(source), after);
    }
}

/// So does whatever changes layers, camera, selection, settings, problems,
/// standing answers and the outbox alone: picking, fitting, renaming, moving
/// and showing layers, and the rest.
pub proof fn other_changes_keep_flags_in_order(s: Session, t: Session)
    requires
        t.work == s.work,
        t.queue == s.queue,
        t.flags == s.flags,
    ensures
        keeps_flags(s, t),
{
    same(s, t);
}

/// A batch of messages keeps the flags in order.
pub proof fn batches_keep_flags_in_order(s: Session, ms: Seq<LoadMsg>)
    ensures
        keeps_flags(s, s.poll(ms)),
{
    let (t, b) = s.on_messages(crate::loader::no_batch(), ms);
    many_messages(s, crate::loader::no_batch(), ms);
    a_batch_ends_with_flags_in_order(t, b);
}

} // verus!
