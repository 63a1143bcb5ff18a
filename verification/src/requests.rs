//! What the requests of the window come to: what each of them changes, and what
//! it leaves as it is.
use vstd::prelude::*;
use crate::cancel::Flags;
use crate::laws::{rebuild_keeps_the_rest, spawning_keeps_the_rest};
use crate::layers::LayerState;
use crate::loader::{no_batch, Batch, LoadMsg};
use crate::session::{
    default_view, gate_key, Capped, DeferredLoad, Effect, Loads, Picked,
    QualityGate, Session, SourceInfo, Tint,
};
use crate::text::{a_number_is_spelled_out, decimal};
use crate::viewer::{opened, StartFile};

verus! {

broadcast use vstd::std_specs::hash::group_hash_axioms;

/// A session starts with nothing on the map, the first basemap, opaque, the
/// graticule and the embedded coastline shown, boxes below 3 pixels, a budget
/// of 512 MB, and a projection its first layer picks. Three and full opacity
/// are 0x4008000000000000 and 0x3f800000 as bits.
pub proof fn a_session_starts_from_the_defaults(files: Seq<Seq<char>>)
    ensures
        ({
            let s = Session::fresh(files);
            &&& s.layers.len() == 0 && s.errors.len() == 0 && !s.show_errors
            &&& s.queue.loading.is_empty() && s.queue.deferred.len() == 0 && s.queue.gates.len() == 0
            &&& s.queue.projection_decider is None && s.queue.palette_idx == 0
            &&& s.work.rebuilding.is_empty() && s.work.appending.is_empty()
            &&& s.cam.display == 0 && s.cam.auto_projection && s.cam.pending_fit
                && !s.cam.camera_moved && s.cam.fit_bounds is None && s.cam.frame_bounds is None
            &&& s.pick.selection is None && !s.pick.highlight && !s.pick.pick_pending
                && !s.pick.sql_highlight
            &&& s.direct_files == files
            &&& s.view == default_view()
            &&& s.view.basemap == Some(0usize) && s.view.last_basemap == 0
            &&& s.view.basemap_opacity == 0x3f80_0000
            &&& s.view.show_graticule && s.view.show_coastline && s.view.coast_level is Embedded
            &&& s.view.box_threshold_px == 0x4008_0000_0000_0000
            &&& s.view.refine_budget_mb == 512
            &&& s.view.layers_open
        }),
{
}

/// A load asked for is registered under a number of its own, with its label,
/// and its layer gets a number of its own. A themed source has its theme's
/// colour, any other the next of the palette, and only those use one up.
pub proof fn a_request_is_registered(s: Session, source: SourceInfo, job: u64)
    ensures
        ({
            let t = s.enqueue_load(source);
            let j = s.queue.next_job;
            &&& t.queue.loading.contains_key(j) && t.queue.loading[j].label == source.label
                && t.queue.loading[j].frac_bits == 0 && t.queue.loading[j].flag == s.flags.next()
                && t.queue.loading[j].display_gen == s.cam.display_gen
            &&& job != j ==> t.queue.loading.contains_key(job) == s.queue.loading.contains_key(job)
                && t.queue.loading[job] == s.queue.loading[job]
            &&& j < u64::MAX ==> t.queue.next_job == j + 1
            &&& s.queue.next_layer_id < u64::MAX ==> t.queue.next_layer_id == s.queue.next_layer_id + 1
            &&& source.theme is Some ==> t.queue.palette_idx == s.queue.palette_idx
            &&& source.theme is None && s.queue.palette_idx < usize::MAX ==> t.queue.palette_idx
                == s.queue.palette_idx + 1
            &&& s.next_load(source).job == j && s.next_load(source).layer_id == s.queue.next_layer_id
                && s.next_load(source).source == source.handle
            &&& source.theme matches Some(c) ==> s.next_load(source).tint == Tint::Thematic(c)
            &&& source.theme is None ==> s.next_load(source).tint == Tint::Palette(s.queue.palette_idx)
            &&& t.layers == s.layers && t.cam == s.cam && t.view == s.view && t.errors == s.errors
        }),
{
}

/// The first load of a session whose projection is automatic decides it, and
/// starts at once. While a load is to decide, another waits behind those that
/// wait already; otherwise it starts at once.
pub proof fn a_request_starts_or_waits(s: Session, source: SourceInfo)
    ensures
        ({
            let t = s.enqueue_load(source);
            let j = s.queue.next_job;
            let d = s.next_load(source);
            let decides = s.cam.auto_projection && s.layers.len() == 0 && s.queue.loading.is_empty()
                && s.queue.pending_styles.is_empty();
            let waits = !decides && s.queue.projection_decider is Some && s.queue.projection_decider
                != Some(j);
            &&& decides ==> t.queue.projection_decider == Some(j)
            &&& !decides ==> t.queue.projection_decider == s.queue.projection_decider
            &&& waits ==> t.queue.deferred == s.queue.deferred.push(d) && t.outbox == s.outbox
                && t.queue.loading[j].stage is WaitingForProjection
            &&& !waits ==> t.queue.deferred == s.queue.deferred && t.queue.loading[j].stage is Queued
                && t.outbox == s.outbox.push(
                Effect::SpawnLoad {
                    job: d.job,
                    layer_id: d.layer_id,
                    source: source.handle,
                    tint: d.tint,
                    auto_project: decides,
                    flag: s.flags.next(),
                },
            )
        }),
{
}

/// A load asked for under a name keeps the name for its layer, and is otherwise
/// like any other.
pub proof fn a_name_is_kept_for_the_layer(s: Session, source: SourceInfo, name: String, job: u64)
    ensures
        ({
            let t = s.enqueue_named(source, name);
            let u = s.enqueue_load(source);
            &&& t.queue.pending_names.contains_key(s.queue.next_job)
                && t.queue.pending_names[s.queue.next_job] == name
            &&& job != s.queue.next_job ==> t.queue.pending_names.contains_key(job)
                == s.queue.pending_names.contains_key(job)
            &&& t.queue.loading == u.queue.loading && t.outbox == u.outbox && t.queue.deferred
                == u.queue.deferred
        }),
{
}

/// A load that waited starts for the display as it is by then.
pub proof fn a_load_starts_for_the_display_there_is(s: Session, d: DeferredLoad, auto_project: bool)
    ensures
        ({
            let t = s.spawn_load(d, auto_project);
            &&& s.queue.loading.contains_key(d.job) ==> t.queue.loading[d.job].display_gen
                == s.cam.display_gen && t.queue.loading[d.job].stage is Queued
                && t.queue.loading[d.job].label == s.queue.loading[d.job].label
                && t.queue.loading[d.job].flag == s.queue.loading[d.job].flag
            &&& t.outbox == s.outbox.push(
                Effect::SpawnLoad {
                    job: d.job,
                    layer_id: d.layer_id,
                    source: d.source,
                    tint: d.tint,
                    auto_project,
                    flag: d.flag,
                },
            )
        }),
{
}

/// The command line's sources are opened in order, each once: tables as tables,
/// the others as layers.
pub proof fn start_files_are_opened_in_order(s: Session, a: Seq<StartFile>, b: Seq<StartFile>, f: StartFile)
    ensures
        opened(s, a + b) == opened(opened(s, a), b),
        opened(s, Seq::empty()) == s,
        f.tabular ==> opened(s, seq![f]) == s.emit(
            Effect::OpenTable { source: f.source.handle, name: None },
        ),
        !f.tabular ==> opened(s, seq![f]) == s.enqueue_load(f.source),
    decreases a.len(),
{
    reveal_with_fuel(opened, 2);
    if a.len() > 0 {
        let t = if a[0].tabular {
            s.emit(Effect::OpenTable { source: a[0].source.handle, name: None })
        } else {
            s.enqueue_load(a[0].source)
        };
        let rest = a.subrange(1, a.len() as int);
        assert((a + b).subrange(1, (a + b).len() as int) =~= rest + b);
        start_files_are_opened_in_order(t, rest, b, f);
    } else {
        assert(a + b =~= b);
    }
    assert(seq![f].subrange(1, 1) =~= Seq::<StartFile>::empty());
}

/// A pick is answered with what was found: it is the selection from then on,
/// highlighted, and nothing is being picked. Nothing found selects nothing.
pub proof fn a_pick_selects_what_it_finds(s: Session, sel: Option<Picked>, truncated: Option<Capped>)
    ensures
        ({
            let t = s.picking();
            let u = t.pick_answered(t.pick.pick_job, sel, truncated);
            &&& t.pick.pick_pending && t.pick.selection == s.pick.selection
            &&& u.pick.selection == sel && u.pick.attrs_truncated == truncated
            &&& u.pick.highlight <==> sel is Some
            &&& !u.pick.pick_pending
            &&& s.pick.selection_generation < u64::MAX ==> u.pick.selection_generation
                == s.pick.selection_generation + 1
            &&& u.layers == s.layers && u.cam == s.cam && u.pick.sql_highlight == s.pick.sql_highlight
            &&& s.clear_selection().pick.selection is None && !s.clear_selection().pick.highlight
                && !s.clear_selection().pick.pick_pending
            &&& s.clear_selection().pick.attrs_truncated is None
        }),
{
}

/// A layer built anew goes on as it is under its next generation, which the
/// worker is given along with a flag of its own.
pub proof fn a_rebuild_is_for_the_next_generation(s: Session, i: int, k: int)
    requires
        0 <= i < s.layers.len(),
    ensures
        ({
            let t = s.begin_rebuild(i);
            let l = s.layers[i];
            &&& t.layers[i] == (LayerState { generation: l.generation.wrapping_add(1), ..l })
            &&& 0 <= k < s.layers.len() && k != i ==> t.layers[k] == s.layers[k]
            &&& t.layers.len() == s.layers.len()
            &&& t.work.rebuilding.contains(l.id) && t.work.rebuild_cancel[l.id] == s.flags.next()
            &&& t.outbox == s.outbox.push(
                Effect::SpawnRebuild {
                    layer_id: l.id,
                    generation: l.generation.wrapping_add(1),
                    flag: s.flags.next(),
                },
            )
            &&& s.work.rebuild_cancel.contains_key(l.id) && s.flags.known(s.work.rebuild_cancel[l.id])
                ==> t.flags.raised(s.work.rebuild_cancel[l.id])
        }),
{
}

/// A projection is switched to for good: the display is the new one, under the
/// next generation, what is drawn over and under the map is built for it, and
/// nothing stays selected. The camera is fitted, once the layers are built or
/// at once where there are none.
pub proof fn a_projection_is_switched(s: Session, d: u64)
    ensures
        ({
            let t = s.set_display(d);
            let a = s.adopt_display_lite(d);
            &&& t.cam.display == d && a.cam.display == d
            &&& s.cam.display_gen < u64::MAX ==> t.cam.display_gen == s.cam.display_gen + 1
                && a.cam.display_gen == s.cam.display_gen + 1
            &&& t.cam.graticule_generation == s.cam.graticule_generation.wrapping_add(1)
                && a.cam.graticule_generation == s.cam.graticule_generation.wrapping_add(1)
            &&& t.pick.selection is None && !t.pick.highlight && !t.pick.sql_highlight
            &&& a.pick.selection is None && !a.pick.highlight && !a.pick.pick_pending
            &&& s.layers.len() == 0 ==> t.cam.pending_fit
            &&& s.layers.len() > 0 ==> t.cam.fit_after_rebuilds && t.cam.pending_fit
                == s.cam.pending_fit
            &&& a.layers == s.layers && a.work == s.work
            &&& a.outbox == s.outbox.push(Effect::BuildOverlays).push(Effect::DropRowGroupOverlays)
            &&& t.cam.camera_moved == s.cam.camera_moved && a.cam.camera_moved == s.cam.camera_moved
        }),
{
    rebuild_keeps_the_rest(s.redisplayed(d), None, 0);
}

/// When a layer picks the projection, a camera that was moved by hand goes on
/// showing its place, and any other is fitted.
pub proof fn a_moved_camera_stays_on_its_place(s: Session, old: u64)
    ensures
        s.cam.camera_moved ==> s.camera_after_adoption(old).outbox == s.outbox.push(
            Effect::TransferCamera { from: old },
        ) && s.camera_after_adoption(old).cam == s.cam,
        !s.cam.camera_moved ==> s.camera_after_adoption(old).cam.pending_fit
            && s.camera_after_adoption(old).outbox == s.outbox,
{
}

/// A filter asked for is computed, and awaited, where its layer is on the map;
/// the row-group boxes help where there is one for every row group.
pub proof fn a_filter_asked_for_is_computed(s: Session, id: u64, predicate: String)
    ensures
        ({
            let t = s.start_layer_filter(id, predicate);
            let l = s.layers[s.index_of(id)];
            &&& !s.has_layer(id) ==> t == s
            &&& s.has_layer(id) ==> {
                &&& t.work.filter_pending.contains(id)
                &&& t.layers == s.layers
                &&& t.outbox.len() == s.outbox.len() + 1
                &&& t.outbox.last() matches Effect::SpawnFilter {
                    layer_id,
                    predicate: asked,
                    use_boxes,
                } && layer_id == id && asked == predicate && (use_boxes <==> l.boxes is Some && (
                l.starts.len() > 0 ==> l.boxes->0 == l.starts.len() - 1) && (l.starts.len() == 0
                    ==> l.boxes->0 == 0))
            }
        }),
{
}

/// A paused load that goes on reads all rows of the file that was opened, under
/// the flag it was started with; one that is dropped is over, and where it was
/// to decide the projection, the loads that waited for it start.
pub proof fn a_paused_load_goes_on_or_ends(s: Session, g: QualityGate)
    ensures
        ({
            let t = s.resume_gated(g);
            let u = s.drop_gated(g.job);
            let known = s.queue.loading.contains_key(g.job);
            &&& known ==> t.queue.loading[g.job].stage is LoadingAllRows
                && t.queue.loading[g.job].flag == s.queue.loading[g.job].flag && t.flags == s.flags
            &&& !known ==> t.queue == s.queue
            &&& t.outbox == s.outbox.push(
                Effect::SpawnGated {
                    job: g.job,
                    layer_id: g.layer_id,
                    opened: g.opened,
                    tint: g.tint,
                    auto_project: g.auto_project,
                    flag: if known {
                        s.queue.loading[g.job].flag
                    } else {
                        s.flags.next()
                    },
                },
            )
            &&& !u.queue.loading.contains_key(g.job)
            &&& s.queue.projection_decider == Some(g.job) ==> u.queue.deferred.len() == 0
                && u.queue.projection_decider is None
            &&& s.queue.projection_decider != Some(g.job) ==> u.queue.deferred == s.queue.deferred
                && u.outbox == s.outbox && u.queue.projection_decider == s.queue.projection_decider
            &&& u.layers == s.layers && t.layers == s.layers
        }),
{
    if s.queue.projection_decider == Some(g.job) {
        let a = Session {
            queue: Loads { loading: s.queue.loading.remove(g.job), ..s.queue },
            ..s
        }.end_decider(g.job);
        let v = Session { queue: Loads { deferred: Seq::empty(), ..a.queue }, ..a };
        spawning_keeps_the_rest(v, a.queue.deferred, g.job);
        deciding_is_over(v, a.queue.deferred);
    }
}

proof fn deciding_is_over(s: Session, ds: Seq<DeferredLoad>)
    ensures
        s.spawn_loads(ds).queue.projection_decider == s.queue.projection_decider,
    decreases ds.len(),
{
    if ds.len() > 0 {
        deciding_is_over(s.spawn_load(ds[0], false), ds.subrange(1, ds.len() as int));
    }
}

/// Files of different sizes, and files of one size under different labels, are
/// remembered apart.
pub proof fn answers_are_kept_apart(a: Seq<char>, b: Seq<char>, m: u64, n: u64)
    ensures
        gate_key(a, m) == gate_key(a, n) ==> m == n,
        gate_key(a, n) == gate_key(b, n) ==> a == b,
{
    a_number_is_spelled_out(m as nat);
    a_number_is_spelled_out(n as nat);
    let bar = "|"@;
    let x = gate_key(a, m);
    let y = gate_key(a, n);
    let head = (a.len() + bar.len()) as int;
    if x == y {
        assert(x.subrange(head, x.len() as int) =~= decimal(m as nat));
        assert(y.subrange(head, y.len() as int) =~= decimal(n as nat));
    }
    let p = gate_key(a, n);
    let q = gate_key(b, n);
    if p == q {
        let d = decimal(n as nat);
        assert(p.len() == a.len() + bar.len() + d.len());
        assert(q.len() == b.len() + bar.len() + d.len());
        assert(p.subrange(0, a.len() as int) =~= a);
        assert(q.subrange(0, b.len() as int) =~= b);
    }
}

/// A problem is listed after those before it, and the list is shown.
pub proof fn problems_are_listed_in_order(s: Session, e: Seq<char>)
    ensures
        s.push_error(e).errors == s.errors.push(e),
        s.push_error(e).show_errors,
        s.push_error(e).layers == s.layers,
{
}

/// Raising a flag raises that one, and a flag handed out is not raised.
pub proof fn a_flag_is_raised_alone(f: Flags, flag: u64, other: u64, all: Set<u64>)
    requires
        f.up.len() < u64::MAX,
    ensures
        f.raise(flag).raised(other) <==> f.raised(other) || (other == flag && f.known(flag)),
        f.raise_all(all).raised(other) <==> f.raised(other) || (f.known(other) && all.contains(other)),
        f.issued().known(f.next()) && !f.issued().raised(f.next()),
        !f.known(f.next()),
        f.known(other) ==> f.issued().raised(other) == f.raised(other),
        f.raise(flag).known(other) == f.known(other),
{
}

/// The messages of a batch are taken in order, and each owes the frames in
/// which what it brought is uploaded.
pub proof fn messages_are_taken_in_order(s: Session, b: Batch, x: Seq<LoadMsg>, y: Seq<LoadMsg>, m: LoadMsg)
    ensures
        s.on_messages(b, x + y) == s.on_messages(b, x).0.on_messages(s.on_messages(b, x).1, y),
        s.on_messages(b, Seq::empty()) == (s, b),
        s.on_messages(b, seq![m]) == s.on_message(b, m),
        no_batch().rebuild_display is None && !no_batch().decider_done && !no_batch().first_layer_fit,
    decreases x.len(),
{
    reveal_with_fuel(Session::on_messages, 2);
    if x.len() > 0 {
        let (t, c) = s.on_message(b, x[0]);
        let rest = x.subrange(1, x.len() as int);
        assert((x + y).subrange(1, (x + y).len() as int) =~= rest + y);
        messages_are_taken_in_order(t, c, rest, y, m);
    } else {
        assert(x + y =~= y);
    }
    assert(seq![m].subrange(1, 1) =~= Seq::<LoadMsg>::empty());
}

/// Every message owes eight frames, in which what it brought is uploaded and
/// its copies are freed.
pub proof fn a_message_owes_frames(s: Session, b: Batch, m: LoadMsg)
    ensures
        s.on_message(b, m).0.strip_probe == 8,
{
    let t = Session { strip_probe: 8, ..s };
    if let LoadMsg::Loaded { job, layer, geometry, adopt } = m {
        if t.queue.loading.contains_key(job) {
            crate::layers::landing_in_range(t.layers, crate::layers::rank(layer@.kind));
            let accepted = t.accepted(job, adopt);
            let s1 = t.arrive(job, layer@, geometry, adopt).restore_filter(job, layer@.id);
            let first = s1.layers.len() == 1 && !t.queue.pending_styles.contains_key(job);
            let s2 = if first {
                s1.frame_first(layer@.id, accepted)
            } else {
                s1
            };
            if let Some((d, true)) = accepted {
                rebuild_keeps_the_rest(s2.adopt_display_lite(d), Some(layer@.id), 0);
            }
        }
    }
}

} // verus!
