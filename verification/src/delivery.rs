//! What the messages of the loaders come to: what each of them changes, and
//! what it leaves as it is.
use vstd::prelude::*;
use crate::laws::{index_is_in_range, rebuild_keeps_the_rest, same_but_generation};
use crate::layers::{landing, landing_in_range, rank, GroupLoad, LayerState};
use crate::loader::{bad_geoms_text, failure_text, replaces_boxes, with_updates, Batch};
use crate::session::{
    CameraState, Effect, EndReason, Loads, QualityGate, Session, Stage,
};
use crate::text::{decimal, occurs, occurs_at};

verus! {

broadcast use vstd::std_specs::hash::group_hash_axioms;

// --- load tables ------------------------------------------------------------------

/// A group goes by the last update that names it, and stays as it is where none
/// does.
pub proof fn the_last_update_counts(loaded: Seq<GroupLoad>, ups: Seq<(u32, GroupLoad)>, g: int, k: int)
    requires
        0 <= g < loaded.len(),
    ensures
        with_updates(loaded, ups).len() == loaded.len(),
        (forall|j: int| 0 <= j < ups.len() ==> (#[trigger] ups[j]).0 != g) ==> with_updates(
            loaded,
            ups,
        )[g] == loaded[g],
        0 <= k < ups.len() && ups[k].0 == g && (forall|j: int|
            k < j < ups.len() ==> (#[trigger] ups[j]).0 != g) ==> with_updates(loaded, ups)[g]
            == ups[k].1,
    decreases ups.len(),
{
    if ups.len() > 0 {
        let rest = ups.subrange(1, ups.len() as int);
        let next = if ups[0].0 < loaded.len() {
            loaded.update(ups[0].0 as int, ups[0].1)
        } else {
            loaded
        };
        the_last_update_counts(next, rest, g, k - 1);
        if forall|j: int| 0 <= j < ups.len() ==> (#[trigger] ups[j]).0 != g {
            assert(ups[0].0 != g);
            assert forall|j: int| 0 <= j < rest.len() implies (#[trigger] rest[j]).0 != g by {
                assert(ups[j + 1].0 != g);
            }
        }
        if 0 <= k < ups.len() && ups[k].0 == g && (forall|j: int|
            k < j < ups.len() ==> (#[trigger] ups[j]).0 != g) {
            assert forall|j: int| k - 1 < j < rest.len() implies (#[trigger] rest[j]).0 != g by {
                assert(ups[j + 1].0 != g);
            }
            if k > 0 {
                assert(rest[k - 1] == ups[k]);
            }
        }
    }
}

/// A group that was drawn as a box and is named by an update is a box replaced;
/// without such a group, none is, unless an update itself puts a box there.
pub proof fn updated_boxes_are_replaced(loaded: Seq<GroupLoad>, ups: Seq<(u32, GroupLoad)>, k: int)
    ensures
        0 <= k < ups.len() && ups[k].0 < loaded.len() && loaded[ups[k].0 as int] is Boxes
            ==> replaces_boxes(loaded, ups),
        (forall|j: int|
            0 <= j < ups.len() ==> !((#[trigger] ups[j]).1 is Boxes) && (ups[j].0 < loaded.len()
                ==> !(loaded[ups[j].0 as int] is Boxes))) ==> !replaces_boxes(loaded, ups),
    decreases ups.len(),
{
    if ups.len() > 0 {
        let rest = ups.subrange(1, ups.len() as int);
        let next = if ups[0].0 < loaded.len() {
            loaded.update(ups[0].0 as int, ups[0].1)
        } else {
            loaded
        };
        updated_boxes_are_replaced(next, rest, k - 1);
        if 0 < k < ups.len() {
            assert(rest[k - 1] == ups[k]);
        }
        if forall|j: int|
            0 <= j < ups.len() ==> !((#[trigger] ups[j]).1 is Boxes) && (ups[j].0 < loaded.len()
                ==> !(loaded[ups[j].0 as int] is Boxes)) {
            assert(!(ups[0].1 is Boxes));
            assert forall|j: int| 0 <= j < rest.len() implies !((#[trigger] rest[j]).1 is Boxes) && (
            rest[j].0 < next.len() ==> !(next[rest[j].0 as int] is Boxes)) by {
                assert(!(ups[j + 1].1 is Boxes));
            }
        }
    }
}

// --- loads ------------------------------------------------------------------------

/// Progress is shown on the job it is about, and changes nothing else of it.
pub proof fn progress_is_shown(s: Session, job: u64, other: u64, frac_bits: u32, stage: String)
    ensures
        ({
            let t = s.on_progress(job, frac_bits, stage);
            &&& s.queue.loading.contains_key(job) ==> {
                &&& t.queue.loading.contains_key(job)
                &&& t.queue.loading[job].frac_bits == frac_bits
                &&& t.queue.loading[job].stage == Stage::Reported(stage)
                &&& t.queue.loading[job].label == s.queue.loading[job].label
                &&& t.queue.loading[job].flag == s.queue.loading[job].flag
                &&& t.queue.loading[job].display_gen == s.queue.loading[job].display_gen
            }
            &&& !s.queue.loading.contains_key(job) ==> t == s
            &&& other != job ==> t.queue.loading.contains_key(other)
                == s.queue.loading.contains_key(other) && t.queue.loading[other]
                == s.queue.loading[other]
            &&& t.layers == s.layers && t.cam == s.cam && t.outbox == s.outbox
        }),
{
}

/// The first layer onto an empty map is framed while it is on its way, in the
/// projection it suggests, unless the camera was moved by hand or comes from a
/// saved session; otherwise the frame is not moved.
pub proof fn the_first_layer_is_framed_early(s: Session, job: u64, display: Option<u64>, world: u64)
    ensures
        ({
            let t = s.on_framed(job, display, world);
            let first = s.layers.len() == 0 && !s.cam.camera_moved && !s.queue.pending_styles.contains_key(
                job,
            ) && s.queue.loading.contains_key(job);
            &&& !first ==> t == s
            &&& first ==> t.cam.frame_bounds == Some(world)
            &&& first && display is None ==> t.cam.display == s.cam.display && t.queue == s.queue
            &&& first && display is Some ==> t.cam.display == display->0 && t.cam.display_gen
                == s.cam.display_gen.wrapping_add(1) && t.queue.loading[job].display_gen
                == t.cam.display_gen
        }),
{
}

/// A layer arrives under the name kept for its load, if there is one, and in
/// the style kept for it; what it holds is what was read.
pub proof fn a_layer_arrives_as_asked(s: Session, job: u64, layer: LayerState)
    ensures
        ({
            let d = s.dressed(job, layer);
            &&& d.name == (if s.queue.pending_names.contains_key(job) {
                s.queue.pending_names[job]@
            } else {
                layer.name
            })
            &&& d.style == (if s.queue.pending_styles.contains_key(job) {
                s.queue.pending_styles[job]
            } else {
                layer.style
            })
            &&& d == (LayerState { name: d.name, style: d.style, ..layer })
        }),
{
}

/// What has arrived is on the map, on top of its category, and the other layers
/// stay, in order.
#[verifier::spinoff_prover]
pub proof fn an_arrival_joins_the_map(
    s: Session,
    job: u64,
    layer: LayerState,
    geometry: u64,
    adopt: Option<(u64, bool)>,
)
    requires
        s.queue.loading.contains_key(job),
    ensures
        ({
            let t = s.arrive(job, layer, geometry, adopt);
            let p = landing(s.layers, rank(layer.kind));
            &&& t.layers.len() == s.layers.len() + 1
            &&& 0 <= p <= s.layers.len()
            &&& t.layers[p].id == layer.id && t.layers[p].loaded == layer.loaded && t.layers[p].starts
                == layer.starts
            &&& t.layers.remove(p) == s.layers
        }),
{
    landing_in_range(s.layers, rank(layer.kind));
    let p = landing(s.layers, rank(layer.kind));
    let t = s.arrive(job, layer, geometry, adopt);
    let l = t.layers[p];
    assert(t.layers == s.layers.insert(p, l));
    assert(s.layers.insert(p, l).remove(p) =~= s.layers);
}

/// A load whose layer has arrived is over, and what was kept for it is used up,
/// but for a filter that is computed next. Bad geometries are reported by their
/// number. A projection suggested is taken only while it is chosen
/// automatically and was not changed meanwhile.
#[verifier::spinoff_prover]
pub proof fn an_arrival_ends_its_load(
    s: Session,
    job: u64,
    layer: LayerState,
    geometry: u64,
    adopt: Option<(u64, bool)>,
)
    requires
        s.queue.loading.contains_key(job),
    ensures
        ({
            let t = s.arrive(job, layer, geometry, adopt);
            let taken = s.queue.loading[job].display_gen == s.cam.display_gen && s.cam.auto_projection;
            &&& !t.queue.loading.contains_key(job) && !t.queue.pending_names.contains_key(job)
                && !t.queue.pending_styles.contains_key(job)
            &&& t.queue.pending_filters == s.queue.pending_filters
            &&& t.queue.projection_decider == s.queue.projection_decider
            &&& t.cam == s.cam
            &&& layer.bad_geoms == 0 ==> t.errors == s.errors
            &&& layer.bad_geoms > 0 ==> t.errors == s.errors.push(
                bad_geoms_text(layer.name, layer.bad_geoms),
            ) && t.show_errors
            &&& taken ==> s.accepted(job, adopt) == adopt
            &&& !taken ==> s.accepted(job, adopt) is None
        }),
{
}

/// A layer built for another display than the current one is built anew; any
/// other is shown as it was built.
#[verifier::spinoff_prover]
pub proof fn a_stale_arrival_is_built_anew(
    s: Session,
    job: u64,
    layer: LayerState,
    geometry: u64,
    adopt: Option<(u64, bool)>,
)
    requires
        s.queue.loading.contains_key(job),
    ensures
        ({
            let t = s.arrive(job, layer, geometry, adopt);
            let p = landing(s.layers, rank(layer.kind));
            let stale = s.queue.loading[job].display_gen != s.cam.display_gen || (!s.cam.auto_projection && (
            adopt matches Some((_, built)) && built));
            &&& !stale ==> t.layers[p].generation == layer.generation && t.work.rebuilding
                == s.work.rebuilding && t.outbox == s.outbox.push(
                Effect::ReplaceSections { layer_id: layer.id, geometry },
            )
            &&& stale ==> t.work.rebuilding.contains(layer.id) && t.outbox.len() == s.outbox.len() + 2
                && t.outbox[s.outbox.len() as int] == (Effect::ReplaceSections {
                layer_id: layer.id,
                geometry,
            }) && t.outbox.last() is SpawnRebuild && t.layers[p].generation
                == layer.generation.wrapping_add(1)
        }),
{
    landing_in_range(s.layers, rank(layer.kind));
}

/// Whatever it suggests for the projection and whatever filter waits for it, a
/// load that delivers adds one layer to the map and is over; one that arrives
/// for the first time on a map is noted as such, unless it is restored, and a
/// suggestion that takes a rebuild is noted for the end of the batch.
pub proof fn a_delivery_adds_one_layer(
    s: Session,
    b: Batch,
    job: u64,
    layer: LayerState,
    geometry: u64,
    adopt: Option<(u64, bool)>,
)
    requires
        s.queue.loading.contains_key(job),
    ensures
        ({
            let (t, c) = s.on_loaded(b, job, layer, geometry, adopt);
            let taken = s.queue.loading[job].display_gen == s.cam.display_gen && s.cam.auto_projection;
            &&& t.layers.len() == s.layers.len() + 1
            &&& t.has_layer(layer.id)
            &&& !t.queue.loading.contains_key(job)
            &&& !t.queue.pending_filters.contains_key(job)
            &&& s.queue.pending_filters.contains_key(job) ==> t.work.filter_pending.contains(layer.id)
            &&& s.layers.len() == 0 && !s.queue.pending_styles.contains_key(job) ==> c.first_layer_fit
            &&& s.layers.len() > 0 || s.queue.pending_styles.contains_key(job) ==> c.first_layer_fit
                == b.first_layer_fit
            &&& s.queue.projection_decider == Some(job) ==> c.decider_done
                && t.queue.projection_decider is None
            &&& s.queue.projection_decider != Some(job) ==> c.decider_done == b.decider_done
                && t.queue.projection_decider == s.queue.projection_decider
            &&& adopt matches Some((d, built)) ==> (taken && built ==> t.cam.display == d)
            &&& adopt matches Some((d, built)) ==> (taken && !built ==> c.rebuild_display == Some(d)
                && t.cam.display == s.cam.display)
            &&& !taken || adopt is None ==> c.rebuild_display == b.rebuild_display && t.cam.display
                == s.cam.display
        }),
{
    an_arrival_joins_the_map(s, job, layer, geometry, adopt);
    an_arrival_ends_its_load(s, job, layer, geometry, adopt);
    let a = s.arrive(job, layer, geometry, adopt);
    let s1 = a.restore_filter(job, layer.id);
    let p = landing(s.layers, rank(layer.kind));
    index_is_in_range(a.layers, layer.id, 0);
    assert(a.layers[p].id == layer.id);
    let accepted = s.accepted(job, adopt);
    let first = s1.layers.len() == 1 && !s.queue.pending_styles.contains_key(job);
    let s2 = if first {
        s1.frame_first(layer.id, accepted)
    } else {
        s1
    };
    let (t, c) = s.on_loaded(b, job, layer, geometry, adopt);
    if let Some((d, true)) = accepted {
        let u = s2.adopt_display_lite(d);
        rebuild_keeps_the_rest(u, Some(layer.id), 0);
        assert(same_but_generation(u.layers[p], t.layers[p]));
    }
    index_is_in_range(t.layers, layer.id, 0);
    assert(t.layers[p].id == layer.id);
}

/// A load that failed is over; its message says what went wrong and where, and
/// a load given up on purpose says nothing.
pub proof fn a_failed_load_is_over(s: Session, b: Batch, job: u64, source: Seq<char>, e: String)
    ensures
        ({
            let (t, c) = s.on_failed(b, job, source, Some(e));
            let (u, d) = s.on_failed(b, job, source, None);
            &&& !t.queue.loading.contains_key(job) && !u.queue.loading.contains_key(job)
            &&& t.layers == s.layers && u.layers == s.layers
            &&& t.errors.len() == s.errors.len() + 1 && t.errors.drop_last() == s.errors
            &&& t.show_errors
            &&& occurs(e@, t.errors.last()) && occurs(source, t.errors.last())
            &&& source.is_prefix_of(e@) ==> t.errors.last() == e@
            &&& u.errors == s.errors && u.show_errors == s.show_errors
            &&& c == d
            &&& c.decider_done == (b.decider_done || s.queue.projection_decider == Some(job))
            &&& t.queue.projection_decider != Some(job) && (s.queue.projection_decider != Some(job)
                ==> t.queue.projection_decider == s.queue.projection_decider)
            &&& c.rebuild_display == b.rebuild_display && c.first_layer_fit == b.first_layer_fit
        }),
{
    let (t, c) = s.on_failed(b, job, source, Some(e));
    let said = failure_text(source, e@);
    assert(t.errors.drop_last() =~= s.errors);
    assert(said.subrange(0, source.len() as int) =~= source);
    assert(occurs_at(source, said, 0));
    let at = said.len() - e@.len();
    assert(said.subrange(at, at + e@.len()) =~= e@);
    assert(occurs_at(e@, said, at));
}

/// The number of bad geometries is in the message about them, and so is the
/// layer's name.
pub proof fn bad_geometries_are_counted(name: Seq<char>, n: usize)
    ensures
        name.is_prefix_of(bad_geoms_text(name, n)),
        occurs(decimal(n as nat), bad_geoms_text(name, n)),
{
    let t = bad_geoms_text(name, n);
    let d = decimal(n as nat);
    assert(t.subrange(0, name.len() as int) =~= name);
    let at = (name.len() + ": "@.len()) as int;
    assert(t.subrange(at, at + d.len()) =~= d);
    assert(occurs_at(d, t, at));
}

/// A paused load waits behind those already paused, and says so, unless the
/// file was answered for: then it goes on, and reads all rows.
pub proof fn a_paused_load_waits_its_turn(s: Session, g: QualityGate)
    ensures
        ({
            let t = s.on_gated(g);
            let answered = s.direct_files.contains(g.label@ + "|"@ + decimal(g.file_size as nat));
            &&& answered ==> t.queue.gates == s.queue.gates && t.outbox.len() == s.outbox.len() + 1
            &&& answered ==> (t.outbox.last() matches Effect::SpawnGated {
                job,
                layer_id,
                opened,
                tint,
                auto_project,
                ..
            } && job == g.job && layer_id == g.layer_id && opened == g.opened && tint == g.tint
                && auto_project == g.auto_project)
            &&& answered && s.queue.loading.contains_key(g.job) ==> t.queue.loading[g.job].stage
                is LoadingAllRows && t.queue.loading[g.job].flag == s.queue.loading[g.job].flag
            &&& !answered ==> t.queue.gates == s.queue.gates.push(g) && t.outbox == s.outbox
            &&& !answered && s.queue.loading.contains_key(g.job) ==> t.queue.loading[g.job].stage
                is WaitingForAnswer
            &&& t.layers == s.layers
        }),
{
}

// --- geometry ---------------------------------------------------------------------

/// Geometry built anew replaces what was drawn, and the layer is no longer
/// being built; once the last layer is, a fit that waited for it is due.
pub proof fn rebuilt_geometry_is_shown(
    s: Session,
    id: u64,
    generation: u64,
    geometry: u64,
    build_ms: u64,
    bad_geoms: usize,
    k: int,
)
    requires
        s.has_layer(id),
        s.layers[s.index_of(id)].generation == generation,
    ensures
        ({
            let t = s.on_rebuilt(id, generation, geometry, build_ms, bad_geoms);
            let i = s.index_of(id);
            let l = s.layers[i];
            &&& t.layers[i] == (LayerState {
                sections: 1,
                draw_gen: l.draw_gen.wrapping_add(1),
                build_ms,
                bad_geoms,
                ..l
            })
            &&& 0 <= k < s.layers.len() && k != i ==> t.layers[k] == s.layers[k]
            &&& t.outbox == s.outbox.push(Effect::ReplaceSections { layer_id: id, geometry })
            &&& t.work.rebuilding == s.work.rebuilding.remove(id)
            &&& !t.work.consolidating.contains(id) && !t.work.rebuild_cancel.contains_key(id)
            &&& s.work.rebuilding.remove(id).is_empty() ==> !t.cam.fit_after_rebuilds && (
            t.cam.pending_fit <==> s.cam.pending_fit || s.cam.fit_after_rebuilds)
            &&& !s.work.rebuilding.remove(id).is_empty() ==> t.cam == s.cam
        }),
{
    index_is_in_range(s.layers, id, 0);
}

/// A reloaded layer holds what was reloaded, and memory is given back once no
/// layer is being built any more.
pub proof fn a_reloaded_layer_holds_what_was_read(
    s: Session,
    id: u64,
    generation: u64,
    geometry: u64,
    loaded: Seq<GroupLoad>,
    rows: usize,
    bad_geoms: usize,
    build_ms: u64,
    k: int,
)
    requires
        s.has_layer(id),
        s.layers[s.index_of(id)].generation == generation,
    ensures
        ({
            let t = s.on_reloaded(id, generation, geometry, loaded, rows, bad_geoms, build_ms);
            let i = s.index_of(id);
            let l = s.layers[i];
            &&& t.layers[i] == (LayerState {
                sections: 1,
                draw_gen: l.draw_gen.wrapping_add(1),
                loaded,
                feature_count: rows,
                build_ms,
                bad_geoms,
                ..l
            })
            &&& 0 <= k < s.layers.len() && k != i ==> t.layers[k] == s.layers[k]
            &&& t.work.rebuilding == s.work.rebuilding.remove(id)
            &&& t.outbox.len() > s.outbox.len() && t.outbox[s.outbox.len() as int] == (
            Effect::ReplaceSections { layer_id: id, geometry })
            &&& t.outbox.last() is ReleaseMemory <==> s.work.rebuilding.remove(id).is_empty()
        }),
{
    index_is_in_range(s.layers, id, 0);
}

/// Rows that were read are added to those the layer shows, as one more section;
/// the last of them ends the read. Boxes they replace, and a layer of boxes,
/// are then built anew while it stays drawn; nothing else is.
pub proof fn read_rows_are_added(
    s: Session,
    id: u64,
    generation: u64,
    geometry: u64,
    rows: usize,
    ups: Seq<(u32, GroupLoad)>,
    done: bool,
    k: int,
)
    requires
        s.has_layer(id),
        s.layers[s.index_of(id)].generation == generation,
    ensures
        ({
            let t = s.on_appended(id, generation, geometry, rows, ups, done);
            let i = s.index_of(id);
            let l = s.layers[i];
            let merges = done && (l.box_layer || replaces_boxes(l.loaded, ups));
            &&& t.layers[i].sections == l.sections.wrapping_add(1)
            &&& l.feature_count + rows <= usize::MAX ==> t.layers[i].feature_count == l.feature_count
                + rows
            &&& t.layers[i].loaded == with_updates(l.loaded, ups)
            &&& t.layers[i].draw_gen == l.draw_gen && t.layers[i].id == id && t.layers[i].filter
                == l.filter && t.layers[i].starts == l.starts
            &&& 0 <= k < s.layers.len() && k != i ==> t.layers[k] == s.layers[k]
            &&& t.outbox.len() > s.outbox.len() && t.outbox[s.outbox.len() as int] == (
            Effect::PushSection { layer_id: id, geometry })
            &&& done ==> !t.work.appending.contains(id) && !t.work.part_appending.contains(id)
                && !t.work.append_cancel.contains_key(id)
            &&& !done ==> t.work.appending == s.work.appending && t.work.append_cancel
                == s.work.append_cancel
            &&& merges ==> t.work.rebuilding.contains(id) && t.work.consolidating.contains(id)
                && t.layers[i].generation == l.generation.wrapping_add(1) && t.outbox.last()
                is SpawnRebuild
            &&& !merges ==> t.work.rebuilding == s.work.rebuilding && t.layers[i].generation
                == l.generation && t.outbox.len() == s.outbox.len() + 1
        }),
{
    index_is_in_range(s.layers, id, 0);
    let i = s.index_of(id);
    let t = s.on_appended(id, generation, geometry, rows, ups, done);
    let l = s.layers[i];
    let put = s.layers.update(
        i,
        LayerState {
            sections: l.sections.wrapping_add(1),
            feature_count: l.feature_count.wrapping_add(rows),
            loaded: with_updates(l.loaded, ups),
            ..l
        },
    );
    assert forall|j: int| 0 <= j < put.len() implies (#[trigger] put[j]).id == s.layers[j].id by {}
    same_ids_same_index(s.layers, put, id, 0);
}

proof fn same_ids_same_index(a: Seq<LayerState>, b: Seq<LayerState>, id: u64, i: int)
    requires
        0 <= i <= a.len(),
        a.len() == b.len(),
        forall|j: int| 0 <= j < b.len() ==> (#[trigger] b[j]).id == a[j].id,
    ensures
        crate::session::index_from(a, id, i) == crate::session::index_from(b, id, i),
    decreases a.len() - i,
{
    if i < a.len() {
        assert(b[i].id == a[i].id);
        same_ids_same_index(a, b, id, i + 1);
    }
}

/// A rebuild that failed is over, and what was drawn stays; the failure is
/// listed unless there is none to tell.
pub proof fn a_failed_rebuild_is_over(s: Session, id: u64, generation: u64, e: String)
    requires
        s.has_layer(id),
        s.layers[s.index_of(id)].generation == generation,
    ensures
        ({
            let t = s.on_rebuild_failed(id, generation, Some(e));
            let u = s.on_rebuild_failed(id, generation, None);
            &&& t.layers == s.layers && u.layers == s.layers && t.outbox == s.outbox
            &&& !t.work.rebuilding.contains(id) && !u.work.rebuilding.contains(id)
            &&& t.errors == s.errors.push(e@) && t.show_errors
            &&& u.errors == s.errors && u.show_errors == s.show_errors
        }),
{
}

/// Opened part files add their groups at the end, unseen: what was loaded stays
/// loaded. The boxes go on being used only while there is one for every group.
pub proof fn opened_parts_add_groups(
    s: Session,
    id: u64,
    generation: u64,
    store: u64,
    starts: Seq<u64>,
    added_boxes: usize,
    added_groups: usize,
    names: usize,
    g: int,
)
    requires
        s.has_layer(id),
        s.layers[s.index_of(id)].generation == generation,
        starts.len() > 0,
    ensures
        ({
            let t = s.on_parts_opened(
                id,
                generation,
                store,
                starts,
                added_boxes,
                added_groups,
                names,
            );
            let i = s.index_of(id);
            let l = s.layers[i];
            let r = t.layers[i];
            let kept = if added_boxes == added_groups { added_boxes as int } else { 0 };
            &&& r.starts == starts && r.loaded.len() == starts.len() - 1
            &&& 0 <= g < l.loaded.len() && g < r.loaded.len() ==> r.loaded[g] == l.loaded[g]
            &&& l.loaded.len() <= g < r.loaded.len() ==> r.loaded[g] is Unseen
            &&& l.files + names <= usize::MAX ==> r.files == l.files + names
            &&& l.boxes is None ==> r.boxes is None
            &&& l.boxes matches Some(n) ==> (n + kept <= usize::MAX ==> (r.boxes is Some <==> n + kept
                == starts.len() - 1) && (r.boxes is Some ==> r.boxes->0 == n + kept))
            &&& t.outbox.len() == s.outbox.len() + 1
            &&& (t.outbox.last() matches Effect::AdoptStore { layer_id, store: to, extend_boxes, drop_boxes }
                && layer_id == id && to == store && (extend_boxes <==> l.boxes is Some && added_boxes
                == added_groups) && (drop_boxes <==> l.boxes is Some && r.boxes is None))
            &&& r.id == l.id && r.name == l.name && r.feature_count == l.feature_count
        }),
{
    index_is_in_range(s.layers, id, 0);
}

/// A read that ended is over. One that found nothing to append holds its layer
/// back from looking for part files; any other end holds it back from reading
/// again, while the camera stays where it was when it was started. Only an
/// error is listed.
pub proof fn an_ended_read_holds_its_layer_back(s: Session, id: u64, other: u64, e: EndReason)
    ensures
        ({
            let t = s.on_append_ended(id, e);
            let parts = s.work.part_appending.contains(id);
            let still = s.work.refine_epoch.contains_key(id) && s.work.refine_epoch[id]
                == s.cam.cam_epoch;
            let empty = parts && e is NothingToAppend;
            &&& !t.work.appending.contains(id) && !t.work.append_cancel.contains_key(id)
                && !t.work.part_appending.contains(id)
            &&& empty ==> t.work.part_hold.contains(id) && t.work.refine_hold == s.work.refine_hold
            &&& !empty && still ==> t.work.refine_hold.contains(id) && (parts
                ==> t.work.part_hold.contains(id)) && (!parts ==> t.work.part_hold
                == s.work.part_hold)
            &&& !empty && !still ==> t.work.refine_hold == s.work.refine_hold && t.work.part_hold
                == s.work.part_hold
            &&& other != id ==> t.work.refine_hold.contains(other) == s.work.refine_hold.contains(
                other,
            ) && t.work.part_hold.contains(other) == s.work.part_hold.contains(other)
                && t.work.appending.contains(other) == s.work.appending.contains(other)
            &&& e matches EndReason::Error(m) ==> t.errors == s.errors.push(m@) && t.show_errors
            &&& !(e is Error) ==> t.errors == s.errors && t.show_errors == s.show_errors
            &&& t.layers == s.layers
        }),
{
}

/// A read put off for its size is over, and what it would take is kept for the
/// user to see, with the layer held back, while the camera stays where it was.
pub proof fn a_deferred_read_is_kept_in_mind(s: Session, id: u64, rows: u64, bytes: Option<u64>)
    ensures
        ({
            let t = s.on_refine_deferred(id, rows, bytes);
            let still = s.work.refine_epoch.contains_key(id) && s.work.refine_epoch[id]
                == s.cam.cam_epoch;
            &&& !t.work.appending.contains(id) && !t.work.append_cancel.contains_key(id)
            &&& still ==> t.work.refine_hold.contains(id) && t.work.refine_deferred.contains_key(id)
                && t.work.refine_deferred[id] == (rows, bytes)
            &&& !still ==> t.work.refine_hold == s.work.refine_hold && t.work.refine_deferred
                == s.work.refine_deferred
            &&& t.layers == s.layers && t.errors == s.errors
        }),
{
}

// --- the end of a batch -------------------------------------------------------------

/// At the end of a batch the projection suggested in it is switched to, the
/// camera kept on the same place where it was moved by hand; and where the
/// decision is made, no load waits for it any more.
pub proof fn a_batch_settles_the_projection(s: Session, b: Batch)
    ensures
        ({
            let t = s.finish(b);
            &&& b.rebuild_display matches Some(d) ==> t.cam.display == d
            &&& b.rebuild_display is None ==> t.cam.display == s.cam.display && t.layers == s.layers
            &&& b.decider_done ==> t.queue.deferred.len() == 0
            &&& !b.decider_done ==> t.queue.deferred == s.queue.deferred
            &&& b.rebuild_display is Some && s.cam.camera_moved && !b.first_layer_fit && s.layers.len()
                > 0 ==> t.cam.fit_after_rebuilds == false && t.cam.pending_fit == s.cam.pending_fit
            &&& b.rebuild_display is Some && (!s.cam.camera_moved || b.first_layer_fit)
                ==> t.cam.fit_after_rebuilds || t.cam.pending_fit
            &&& b.rebuild_display is None && !b.decider_done ==> t == s
        }),
{
    let u = match b.rebuild_display {
        Some(d) => {
            rebuild_keeps_the_rest(s.redisplayed(d), None, 0);
            let t = s.set_display(d);
            if t.cam.camera_moved && !b.first_layer_fit {
                Session { cam: CameraState { fit_after_rebuilds: false, ..t.cam }, ..t }.emit(
                    Effect::TransferCamera { from: s.cam.display },
                )
            } else {
                t
            }
        },
        None => s,
    };
    if b.decider_done {
        let v = Session { queue: Loads { deferred: Seq::empty(), ..u.queue }, ..u };
        crate::laws::spawning_keeps_the_rest(v, u.queue.deferred, 0);
    }
}

} // verus!
