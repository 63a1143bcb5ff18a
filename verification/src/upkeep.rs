//! Row-group tables and load tables stay in step, whatever the session does.
use vstd::prelude::*;
use crate::context::{SavedLayer, SavedTable, SavedView};
use crate::filters::FilterRows;
use crate::laws::{
    index_is_in_range, rebuild_keeps_the_rest, same_but_generation, spawning_keeps_the_line,
};
use crate::layers::{
    filtered_loads, landing, landing_in_range, rank, GroupLoad, LayerFilter, LayerState,
};
use crate::loader::{with_updates, Batch, LoadMsg};
use crate::panel::{moved, without};
use crate::session::{CameraState, Effect, Loads, Session, SourceInfo, STRIP_FRAMES};

verus! {

/// Every layer's row-group table fits its load table.
pub open spec fn in_step(layers: Seq<LayerState>) -> bool {
    forall|k: int| 0 <= k < layers.len() ==> (#[trigger] layers[k]).wf()
}

/// A row-group table: it ascends, and its groups are small enough for their
/// rows to be numbered.
pub open spec fn row_groups(starts: Seq<u64>) -> bool {
    &&& 0 < starts.len() <= u32::MAX + 1
    &&& forall|g: int|
        0 <= g < starts.len() - 1 ==> #[trigger] starts[g] <= starts[g + 1] && starts[g + 1]
            - starts[g] <= u32::MAX
}

impl LoadMsg {
    /// What the message carries is about the row groups the layer has.
    pub open spec fn fits(self, s: Session) -> bool {
        match self {
            LoadMsg::Loaded { layer, .. } => layer@.wf(),
            LoadMsg::Reloaded { layer_id, loaded, .. } => s.has_layer(layer_id) ==> loaded@.len()
                == s.layers[s.index_of(layer_id)].loaded.len(),
            LoadMsg::PartsOpened { starts, .. } => row_groups(starts@),
            _ => true,
        }
    }
}

/// Layers whose tables are those of `a`.
pub open spec fn same_tables(a: Seq<LayerState>, b: Seq<LayerState>) -> bool {
    &&& a.len() == b.len()
    &&& forall|k: int|
        0 <= k < a.len() ==> {
            &&& (#[trigger] a[k]).starts == (#[trigger] b[k]).starts
            &&& a[k].loaded.len() == b[k].loaded.len()
        }
}

proof fn same_tables_same_step(a: Seq<LayerState>, b: Seq<LayerState>)
    requires
        same_tables(a, b),
        in_step(a),
    ensures
        in_step(b),
{
    assert forall|k: int| 0 <= k < b.len() implies (#[trigger] b[k]).wf() by {
        assert(a[k].wf());
        assert(a[k].starts == b[k].starts);
    }
}

proof fn rebuild_stays_in_step(s: Session, skip: Option<u64>)
    requires
        in_step(s.layers),
    ensures
        in_step(s.rebuild_from(skip, 0).layers),
{
    rebuild_keeps_the_rest(s, skip, 0);
    let t = s.rebuild_from(skip, 0);
    assert forall|k: int| 0 <= k < s.layers.len() implies {
        &&& (#[trigger] s.layers[k]).starts == (#[trigger] t.layers[k]).starts
        &&& s.layers[k].loaded.len() == t.layers[k].loaded.len()
    } by {
        assert(same_but_generation(s.layers[k], t.layers[k]));
    }
    same_tables_same_step(s.layers, t.layers);
}

proof fn updates_keep_the_length(loaded: Seq<GroupLoad>, ups: Seq<(u32, GroupLoad)>)
    ensures
        with_updates(loaded, ups).len() == loaded.len(),
    decreases ups.len(),
{
    if ups.len() > 0 {
        let next = if ups[0].0 < loaded.len() {
            loaded.update(ups[0].0 as int, ups[0].1)
        } else {
            loaded
        };
        updates_keep_the_length(next, ups.subrange(1, ups.len() as int));
    }
}

proof fn a_change_stays_in_step(layers: Seq<LayerState>, i: int, l: LayerState)
    requires
        in_step(layers),
        0 <= i < layers.len(),
        l.wf(),
    ensures
        in_step(layers.update(i, l)),
{
}

proof fn an_arrival_stays_in_step(s: Session, layer: LayerState)
    requires
        in_step(s.layers),
        layer.wf(),
    ensures
        in_step(s.land(layer).layers),
{
    let p = landing(s.layers, rank(layer.kind));
    landing_in_range(s.layers, rank(layer.kind));
    let t = s.land(layer).layers;
    assert forall|k: int| 0 <= k < t.len() implies (#[trigger] t[k]).wf() by {
        if k < p {
            assert(t[k] == s.layers[k]);
        } else if k > p {
            assert(t[k] == s.layers[k - 1]);
        }
    }
}

proof fn a_delivery_stays_in_step(
    p: Session,
    b: Batch,
    job: u64,
    layer: LayerState,
    geometry: u64,
    adopt: Option<(u64, bool)>,
)
    requires
        in_step(p.layers),
        layer.wf(),
    ensures
        in_step(p.on_loaded(b, job, layer, geometry, adopt).0.layers),
{
    if p.queue.loading.contains_key(job) {
        let l = p.dressed(job, layer);
        assert(l.wf());
        an_arrival_stays_in_step(
            p,
            LayerState { generation: l.generation.wrapping_add(1), ..l },
        );
        an_arrival_stays_in_step(p, l);
        let s1 = p.arrive(job, layer, geometry, adopt);
        assert(in_step(s1.layers));
        let s2 = s1.restore_filter(job, layer.id);
        let s3 = if s2.layers.len() == 1 && !p.queue.pending_styles.contains_key(job) {
            s2.frame_first(layer.id, p.accepted(job, adopt))
        } else {
            s2
        };
        assert(s3.layers == s1.layers);
        if let Some((d, true)) = p.accepted(job, adopt) {
            rebuild_stays_in_step(s3.adopt_display_lite(d), Some(layer.id));
        }
    }
}

proof fn a_rebuild_stays_in_step(s: Session, i: int)
    requires
        in_step(s.layers),
        0 <= i < s.layers.len(),
    ensures
        in_step(s.begin_rebuild(i).layers),
{
    let l = s.layers[i];
    let t = s.begin_rebuild(i);
    assert(t.layers == s.layers.update(
        i,
        LayerState { generation: l.generation.wrapping_add(1), ..l },
    ));
    same_tables_same_step(s.layers, t.layers);
}

proof fn merging_stays_in_step(s: Session, id: u64)
    requires
        in_step(s.layers),
    ensures
        in_step(s.consolidate(id).layers),
{
    index_is_in_range(s.layers, id, 0);
    if s.has_layer(id) {
        a_rebuild_stays_in_step(s, s.index_of(id));
    }
}

proof fn an_append_stays_in_step(
    s: Session,
    layer_id: u64,
    generation: u64,
    geometry: u64,
    rows: usize,
    ups: Seq<(u32, GroupLoad)>,
    done: bool,
)
    requires
        in_step(s.layers),
    ensures
        in_step(s.on_appended(layer_id, generation, geometry, rows, ups, done).layers),
{
    index_is_in_range(s.layers, layer_id, 0);
    if s.current(layer_id, generation) {
        let i = s.index_of(layer_id);
        let l = s.layers[i];
        updates_keep_the_length(l.loaded, ups);
        let grown = LayerState {
            sections: l.sections.wrapping_add(1),
            feature_count: l.feature_count.wrapping_add(rows),
            loaded: with_updates(l.loaded, ups),
            ..l
        };
        let r = s.on_appended(layer_id, generation, geometry, rows, ups, false);
        let d = s.on_appended(layer_id, generation, geometry, rows, ups, done);
        same_tables_same_step(s.layers, s.layers.update(i, grown));
        assert(r.layers == s.layers.update(i, grown));
        if d.layers != r.layers {
            let e = Session {
                work: crate::session::Work {
                    appending: s.work.appending.remove(layer_id),
                    part_appending: s.work.part_appending.remove(layer_id),
                    append_cancel: s.work.append_cancel.remove(layer_id),
                    ..s.work
                },
                ..s
            };
            merging_stays_in_step(
                e.put(i, grown).emit(Effect::PushSection { layer_id, geometry }),
                layer_id,
            );
        }
    }
}

proof fn new_parts_stay_in_step(
    s: Session,
    layer_id: u64,
    generation: u64,
    store: u64,
    starts: Seq<u64>,
    added_boxes: usize,
    added_groups: usize,
    names: usize,
)
    requires
        in_step(s.layers),
        row_groups(starts),
    ensures
        in_step(
            s.on_parts_opened(
                layer_id,
                generation,
                store,
                starts,
                added_boxes,
                added_groups,
                names,
            ).layers,
        ),
{
    index_is_in_range(s.layers, layer_id, 0);
    if s.current(layer_id, generation) {
        let i = s.index_of(layer_id);
        let t = s.on_parts_opened(
            layer_id,
            generation,
            store,
            starts,
            added_boxes,
            added_groups,
            names,
        );
        let l = t.layers[i];
        assert(l.starts == starts);
        assert(l.loaded.len() == starts.len() - 1);
        assert(l.wf());
        a_change_stays_in_step(s.layers, i, l);
        assert(t.layers =~= s.layers.update(i, l));
    }
}

/// A message about the row groups a layer has keeps every layer's tables in
/// step.
#[verifier::spinoff_prover]
pub proof fn messages_keep_layers_in_step(s: Session, b: Batch, m: LoadMsg)
    requires
        in_step(s.layers),
        m.fits(s),
    ensures
        in_step(s.on_message(b, m).0.layers),
{
    let p = Session { strip_probe: STRIP_FRAMES, ..s };
    match m {
        LoadMsg::Loaded { job, layer, geometry, adopt } => {
            a_delivery_stays_in_step(p, b, job, layer@, geometry, adopt);
        },
        LoadMsg::Rebuilt { layer_id, generation, geometry, build_ms, bad_geoms } => {
            index_is_in_range(s.layers, layer_id, 0);
            let t = p.on_rebuilt(layer_id, generation, geometry, build_ms, bad_geoms);
            same_tables_same_step(s.layers, t.layers);
        },
        LoadMsg::Reloaded { layer_id, generation, geometry, loaded, rows, bad_geoms, build_ms } => {
            index_is_in_range(s.layers, layer_id, 0);
            let t = p.on_reloaded(
                layer_id,
                generation,
                geometry,
                loaded@,
                rows,
                bad_geoms,
                build_ms,
            );
            same_tables_same_step(s.layers, t.layers);
        },
        LoadMsg::Appended { layer_id, generation, geometry, rows, updates, done } => {
            an_append_stays_in_step(p, layer_id, generation, geometry, rows, updates@, done);
        },
        LoadMsg::PartsOpened {
            layer_id,
            generation,
            store,
            starts,
            added_boxes,
            added_groups,
            names,
        } => {
            new_parts_stay_in_step(
                p,
                layer_id,
                generation,
                store,
                starts@,
                added_boxes,
                added_groups,
                names,
            );
        },
        _ => {},
    }
}

/// The end of a batch keeps every layer's tables in step.
pub proof fn a_batch_ends_in_step(s: Session, b: Batch)
    requires
        in_step(s.layers),
    ensures
        in_step(s.finish(b).layers),
{
    let u = match b.rebuild_display {
        Some(d) => {
            rebuild_stays_in_step(s.redisplayed(d), None);
            let v = s.set_display(d);
            if v.cam.camera_moved && !b.first_layer_fit {
                Session { cam: CameraState { fit_after_rebuilds: false, ..v.cam }, ..v }.emit(
                    Effect::TransferCamera { from: s.cam.display },
                )
            } else {
                v
            }
        },
        None => s,
    };
    spawning_keeps_the_line(
        Session { queue: Loads { deferred: Seq::empty(), ..u.queue }, ..u },
        u.queue.deferred,
    );
}

proof fn reload_stays_in_step(s: Session, i: int)
    requires
        0 <= i <= s.layers.len(),
        in_step(s.layers),
    ensures
        in_step(s.reload_from(i).layers),
    decreases s.layers.len() - i,
{
    if i < s.layers.len() {
        let t = s.reload_one(i);
        assert(s.layers[i].wf());
        assert(t.layers[i].wf());
        assert forall|k: int| 0 <= k < t.layers.len() implies (#[trigger] t.layers[k]).wf() by {
            if k != i {
                assert(t.layers[k] == s.layers[k]);
            }
        }
        reload_stays_in_step(t, i + 1);
    }
}

proof fn removal_stays_in_step(layers: Seq<LayerState>, id: u64)
    requires
        in_step(layers),
    ensures
        in_step(without(layers, id)),
    decreases layers.len(),
{
    if layers.len() > 0 {
        let rest = layers.subrange(1, layers.len() as int);
        assert forall|k: int| 0 <= k < rest.len() implies (#[trigger] rest[k]).wf() by {
            assert(layers[k + 1].wf());
        }
        removal_stays_in_step(rest, id);
        assert forall|k: int| 0 <= k < without(layers, id).len() implies (
        #[trigger] without(layers, id)[k]).wf() by {
            if layers[0].id != id && k > 0 {
                assert(without(layers, id)[k] == without(rest, id)[k - 1]);
            } else if layers[0].id == id {
                assert(without(layers, id)[k] == without(rest, id)[k]);
            }
        }
    }
}

proof fn moving_stays_in_step(s: Session, id: u64, up: bool)
    requires
        in_step(s.layers),
    ensures
        in_step(moved(s, id, up)),
{
    index_is_in_range(s.layers, id, 0);
}

proof fn filters_stay_in_step(s: Session, id: u64, predicate: String, rows: FilterRows)
    requires
        in_step(s.layers),
        s.has_layer(id) ==> rows.per_group@.len() == s.layers[s.index_of(id)].loaded.len(),
    ensures
        in_step(s.filter_cleared(id).layers),
        in_step(s.filter_applied(id, predicate, rows).layers),
{
    index_is_in_range(s.layers, id, 0);
    if s.has_layer(id) {
        let i = s.index_of(id);
        let l = s.layers[i];
        assert(l.wf());
        let whole = LayerState {
            loaded: Seq::new((l.starts.len() - 1) as nat, |g: int| GroupLoad::Full),
            filter: None,
            feature_count: l.total_rows() as usize,
            ..l
        };
        same_tables_same_step(s.layers, s.put(i, whole).layers);
        a_rebuild_stays_in_step(s.put(i, whole), i);
        let matching = LayerState {
            loaded: filtered_loads(l, rows.per_group@),
            filter: Some(LayerFilter { sql: predicate, matched: rows.matched }),
            feature_count: rows.matched,
            ..l
        };
        same_tables_same_step(s.layers, s.put(i, matching).layers);
        a_rebuild_stays_in_step(s.put(i, matching), i);
    }
}

/// What the user does to layers keeps their tables in step: switching the
/// projection, reloading, removing and moving a layer, clearing a filter, and
/// setting one whose rows are given for each of the layer's row groups.
pub proof fn layers_stay_in_step(
    s: Session,
    display: u64,
    id: u64,
    up: bool,
    predicate: String,
    rows: FilterRows,
)
    requires
        in_step(s.layers),
        s.has_layer(id) ==> rows.per_group@.len() == s.layers[s.index_of(id)].loaded.len(),
    ensures
        in_step(s.set_display(display).layers),
        in_step(s.reload_to_viewport().layers),
        in_step(s.layer_removed(id).layers),
        in_step(moved(s, id, up)),
        in_step(s.filter_cleared(id).layers),
        in_step(s.filter_applied(id, predicate, rows).layers),
        in_step(s.consolidate(id).layers),
{
    rebuild_stays_in_step(s.redisplayed(display), None);
    reload_stays_in_step(s.clear_selection(), 0);
    removal_stays_in_step(s.layers, id);
    merging_stays_in_step(s, id);
    filters_stay_in_step(s, id, predicate, rows);
    moving_stays_in_step(s, id, up);
}

/// A session without layers is in step, and asking for a load or restoring a
/// session changes no layer's tables.
pub proof fn a_session_starts_in_step(
    s: Session,
    files: Seq<Seq<char>>,
    source: SourceInfo,
    display: u64,
    v: SavedView,
    tables: Seq<SavedTable>,
    ls: Seq<SavedLayer>,
)
    ensures
        in_step(Session::fresh(files).layers),
        in_step(s.reset_layout().layers),
        in_step(s.restored(display, v, tables, ls).layers),
        s.enqueue_load(source).layers == s.layers,
{
    crate::laws::reset_is_a_fresh_start(s);
    crate::context::a_restore_replaces_the_session(s, display, v, tables, ls);
}

} // verus!
