//! The layers panel: what can be done to the list of layers, the answers to
//! paused loads, and the notes beside each layer.
use vstd::prelude::*;
use crate::counts::{count_text, fmt_count};
use crate::layers::{states, GroupCounts, Layer, LayerState};
use crate::session::{gate_key, Effect, LoadingJob, Loads, Session, Stage, ViewerApp, Work};
use crate::text::{dec, decimal, push_text, trim, trimmed};

verus! {

broadcast use vstd::std_specs::hash::group_hash_axioms;

/// The layers but those with this id.
pub open spec fn without(layers: Seq<LayerState>, id: u64) -> Seq<LayerState>
    decreases layers.len(),
{
    if layers.len() == 0 {
        Seq::empty()
    } else if layers[0].id == id {
        without(layers.subrange(1, layers.len() as int), id)
    } else {
        seq![layers[0]] + without(layers.subrange(1, layers.len() as int), id)
    }
}

/// The list with positions `i` and `j` exchanged.
pub open spec fn swapped(layers: Seq<LayerState>, i: int, j: int) -> Seq<LayerState> {
    layers.update(i, layers[j]).update(j, layers[i])
}

/// The list with the layer of this id moved by one place: up is towards the
/// end, which is drawn last. At the end of the list it stays.
pub open spec fn moved(s: Session, id: u64, up: bool) -> Seq<LayerState> {
    let i = s.index_of(id);
    if i >= s.layers.len() {
        s.layers
    } else if up && i + 1 < s.layers.len() {
        swapped(s.layers, i, i + 1)
    } else if !up && i > 0 {
        swapped(s.layers, i, i - 1)
    } else {
        s.layers
    }
}

impl Session {
    /// The layer is gone, and its workers are told to stop.
    pub open spec fn layer_removed(self, id: u64) -> Session {
        let s = Session {
            layers: without(self.layers, id),
            work: Work {
                rebuilding: self.work.rebuilding.remove(id),
                consolidating: self.work.consolidating.remove(id),
                appending: self.work.appending.remove(id),
                refine_hold: self.work.refine_hold.remove(id),
                part_hold: self.work.part_hold.remove(id),
                refine_deferred: self.work.refine_deferred.remove(id),
                append_cancel: self.work.append_cancel.remove(id),
                rebuild_cancel: self.work.rebuild_cancel.remove(id),
                ..self.work
            },
            flags: self.flags.raise_of(self.work.append_cancel, id).raise_of(
                self.work.rebuild_cancel,
                id,
            ),
            ..self
        };
        let t = match s.pick.selection {
            Some(p) => if p.layer_id == id {
                s.clear_selection()
            } else {
                s
            },
            None => s,
        };
        t.emit(Effect::ReleaseMemory)
    }

    /// The paused load at the head of the line is answered.
    pub open spec fn next_gate_taken(self) -> Session {
        Session {
            queue: Loads {
                gates: self.queue.gates.subrange(1, self.queue.gates.len() as int),
                ..self.queue
            },
            ..self
        }
    }

    /// "Load all", remembered for the file.
    pub open spec fn gate_load_all(self) -> Session {
        if self.queue.gates.len() == 0 {
            self
        } else {
            let g = self.queue.gates[0];
            let key = gate_key(g.label@, g.file_size);
            let s = self.next_gate_taken();
            Session {
                direct_files: if s.direct_files.contains(key) {
                    s.direct_files
                } else {
                    s.direct_files.push(key)
                },
                ..s
            }.emit(Effect::SaveDirectFiles).resume_gated(g)
        }
    }

    /// The paused load at the head of the line is abandoned.
    pub open spec fn gate_cancel(self) -> Session {
        if self.queue.gates.len() == 0 {
            self
        } else {
            self.next_gate_taken().drop_gated(self.queue.gates[0].job)
        }
    }

    /// A load in flight is told to stop.
    pub open spec fn load_stopped(self, job: u64) -> Session {
        if self.queue.loading.contains_key(job) {
            Session {
                flags: self.flags.raise(self.queue.loading[job].flag),
                queue: Loads {
                    loading: self.queue.loading.insert(
                        job,
                        LoadingJob { stage: Stage::Cancelling, ..self.queue.loading[job] },
                    ),
                    ..self.queue
                },
                ..self
            }
        } else {
            self
        }
    }
}

impl ViewerApp {
    pub(crate) fn drop_layers(&mut self, id: u64)
        ensures
            final(self)@ == (Session { layers: without(old(self)@.layers, id), ..old(self)@ }),
    {
        let mut rest: Vec<Layer> = Vec::new();
        std::mem::swap(&mut rest, &mut self.layers);
        let ghost all = states(rest@);
        while rest.len() > 0
            invariant
                without(all, id) =~= self@.layers + without(states(rest@), id),
                self@ == (Session { layers: self@.layers, ..old(self)@ }),
            decreases rest@.len(),
        {
            let ghost before = states(rest@);
            let ghost kept = self@.layers;
            let l = rest.remove(0);
            assert(states(rest@) =~= before.subrange(1, before.len() as int));
            assert(l@ == before[0]);
            if l.id != id {
                self.layers.push(l);
                assert(self@.layers =~= kept.push(l@));
            }
        }
        assert(without(states(rest@), id) =~= Seq::empty());
    }

    /// Remove a layer.
    pub fn remove_layer(&mut self, id: u64)
        ensures
            final(self)@ == old(self)@.layer_removed(id),
    {
        self.drop_layers(id);
        self.work.rebuilding.remove(&id);
        self.work.consolidating.remove(&id);
        self.work.appending.remove(&id);
        self.work.refine_hold.remove(&id);
        self.work.part_hold.remove(&id);
        self.work.refine_deferred.remove(&id);
        if let Some(flag) = self.work.append_cancel.remove(&id) {
            self.flags.raise(flag);
        }
        if let Some(flag) = self.work.rebuild_cancel.remove(&id) {
            self.flags.raise(flag);
        }
        assert(self@.work.append_cancel =~= old(self)@.work.append_cancel.remove(id));
        assert(self@.work.rebuild_cancel =~= old(self)@.work.rebuild_cancel.remove(id));
        if let Some(p) = self.pick.selection {
            if p.layer_id == id {
                self.clear_selection();
            }
        }
        self.emit(Effect::ReleaseMemory);
    }

    fn swap_layers(&mut self, lower: usize)
        requires
            lower + 1 < old(self).layers@.len(),
        ensures
            final(self)@ == (Session {
                layers: swapped(old(self)@.layers, lower as int, lower + 1),
                ..old(self)@
            }),
    {
        let ghost before = self@.layers;
        let n: usize = self.layers.len();
        assert(lower + 1 < n);
        let l = self.layers.remove(lower + 1);
        self.layers.insert(lower, l);
        assert(self@.layers =~= swapped(before, lower as int, lower + 1));
    }

    /// Move a layer by one place: up draws it later.
    pub fn move_layer(&mut self, id: u64, up: bool)
        ensures
            final(self)@ == (Session { layers: moved(old(self)@, id, up), ..old(self)@ }),
    {
        if let Some(i) = self.position(id) {
            if up {
                if i < self.layers.len() - 1 {
                    self.swap_layers(i);
                }
            } else if i > 0 {
                self.swap_layers(i - 1);
                assert(swapped(old(self)@.layers, i - 1, i as int) =~= swapped(
                    old(self)@.layers,
                    i as int,
                    i - 1,
                ));
            }
        }
    }

    /// Take in a layer's new name; a blank one changes nothing.
    pub fn rename_layer(&mut self, id: u64, draft: &str)
        ensures
            final(self)@ == if old(self)@.has_layer(id) && trimmed(draft@).len() > 0 {
                old(self)@.put(
                    old(self)@.index_of(id),
                    LayerState {
                        name: trimmed(draft@),
                        ..old(self)@.layers[old(self)@.index_of(id)]
                    },
                )
            } else {
                old(self)@
            },
    {
        let ghost before = self@;
        let t = trim(draft);
        if t.as_str().is_empty() {
            return;
        }
        if let Some(i) = self.position(id) {
            self.layers[i].name = t;
            assert(self@.layers =~= before.layers.update(
                i as int,
                LayerState { name: t@, ..before.layers[i as int] },
            ));
        }
    }

    /// Show or hide a layer.
    pub fn show_layer(&mut self, id: u64, visible: bool)
        ensures
            final(self)@ == if old(self)@.has_layer(id) {
                old(self)@.put(
                    old(self)@.index_of(id),
                    LayerState { visible, ..old(self)@.layers[old(self)@.index_of(id)] },
                )
            } else {
                old(self)@
            },
    {
        let ghost before = self@;
        if let Some(i) = self.position(id) {
            self.layers[i].visible = visible;
            assert(self@.layers =~= before.layers.update(
                i as int,
                LayerState { visible, ..before.layers[i as int] },
            ));
        }
    }

    /// Show or hide the row-group boxes of a layer.
    pub fn show_boxes(&mut self, id: u64, on: bool)
        ensures
            final(self)@ == if old(self)@.has_layer(id) {
                old(self)@.put(
                    old(self)@.index_of(id),
                    LayerState { show_boxes: on, ..old(self)@.layers[old(self)@.index_of(id)] },
                )
            } else {
                old(self)@
            },
    {
        let ghost before = self@;
        if let Some(i) = self.position(id) {
            self.layers[i].show_boxes = on;
            assert(self@.layers =~= before.layers.update(
                i as int,
                LayerState { show_boxes: on, ..before.layers[i as int] },
            ));
        }
    }

    /// Answer the next paused load with "load all", now and in future.
    pub fn gate_load_all(&mut self)
        ensures
            final(self)@ == old(self)@.gate_load_all(),
    {
        if self.queue.gates.len() == 0 {
            return;
        }
        let gate = self.queue.gates.remove(0);
        assert(self@.queue.gates =~= old(self)@.queue.gates.subrange(
            1,
            old(self)@.queue.gates.len() as int,
        ));
        let key = gate.key();
        if !self.is_direct(&key) {
            push_text(&mut self.direct_files, key);
        }
        self.emit(Effect::SaveDirectFiles);
        self.resume_gated(gate);
    }

    /// Give the next paused load up.
    pub fn gate_cancel(&mut self)
        ensures
            final(self)@ == old(self)@.gate_cancel(),
    {
        if self.queue.gates.len() == 0 {
            return;
        }
        let gate = self.queue.gates.remove(0);
        assert(self@.queue.gates =~= old(self)@.queue.gates.subrange(
            1,
            old(self)@.queue.gates.len() as int,
        ));
        self.drop_gated(gate.job);
    }

    /// Stop a load.
    pub fn stop_load(&mut self, job: u64)
        ensures
            final(self)@ == old(self)@.load_stopped(job),
    {
        let flag = match self.queue.loading.get(&job) {
            Some(j) => Some(j.flag),
            None => None,
        };
        if let Some(flag) = flag {
            self.flags.raise(flag);
            self.set_stage(job, Stage::Cancelling);
        }
    }
}

// --- notes beside a layer -------------------------------------------------------

/// "12k polygons · WGS 84".
pub fn layer_summary(features: usize, kind_label: &str, crs_name: &str) -> (r: String)
    ensures
        r@ == count_text(features as nat) + " "@ + kind_label@ + " · "@ + crs_name@,
{
    let mut t = fmt_count(features);
    t.append(" ");
    t.append(kind_label);
    t.append(" · ");
    t.append(crs_name);
    t
}

/// "filter: 12 of 40k rows".
pub fn filter_summary(matched: usize, total: usize) -> (r: String)
    ensures
        r@ == "filter: "@ + count_text(matched as nat) + " of "@ + count_text(total as nat)
            + " rows"@,
{
    let mut t = "filter: ".to_owned();
    t.append(fmt_count(matched).as_str());
    t.append(" of ");
    t.append(fmt_count(total).as_str());
    t.append(" rows");
    t
}

/// The note on a layer decoded whole.
pub fn direct_note(features: usize) -> (r: String)
    ensures
        r@ == "loaded fully ("@ + count_text(features as nat)
            + " rows) — unoptimized file, viewport loading unavailable"@,
{
    let mut t = "loaded fully (".to_owned();
    t.append(fmt_count(features).as_str());
    t.append(" rows) — unoptimized file, viewport loading unavailable");
    t
}

/// Why a viewport was not refined: the size of its geometry where that is
/// what stopped it, the number of rows otherwise.
pub fn deferred_note(rows: usize, geometry_size: Option<&str>) -> (r: String)
    ensures
        r@ == match geometry_size {
            Some(b) => "real geometry here is "@ + b@ + " ("@ + count_text(rows as nat)
                + " features)\nzoom in further"@,
            None => "viewport too dense to refine (≥"@ + count_text(rows as nat)
                + " rows)\nzoom in"@,
        },
{
    match geometry_size {
        Some(b) => {
            let mut t = "real geometry here is ".to_owned();
            t.append(b);
            t.append(" (");
            t.append(fmt_count(rows).as_str());
            t.append(" features)\nzoom in further");
            t
        },
        None => {
            let mut t = "viewport too dense to refine (≥".to_owned();
            t.append(fmt_count(rows).as_str());
            t.append(" rows)\nzoom in");
            t
        },
    }
}

/// The note on a partly loaded layer, and whether it asks for attention.
pub struct PartialNote {
    pub text: String,
    pub attention: bool,
}

/// See [`partial_note`].
pub open spec fn partial_text(c: GroupCounts, features: usize, pending: bool, box_scale: bool) -> (
    Seq<char>,
    bool,
) {
    let total = decimal(c.total as nat);
    if c.boxes > 0 && box_scale {
        (
            "all "@ + count_text(features as nat)
                + " features drawn from their\nbounding boxes: at this scale a feature\nis under a few pixels wide"@,
            false,
        )
    } else if c.boxes > 0 && pending {
        (
            "all features drawn from their bounding\nboxes ("@ + decimal(c.boxes as nat) + " of "@
                + total + " row groups)\nzoom in for real geometry"@,
            true,
        )
    } else if c.boxes > 0 {
        (
            "viewport loaded\n"@ + decimal(c.boxes as nat) + " of "@ + total
                + " row groups still drawn as\nbounding boxes off-screen"@,
            false,
        )
    } else if c.preview > 0 && pending {
        (
            "preview: "@ + decimal(c.preview as nat) + " of "@ + total
                + " row groups decimated\nzoom in to load real rows"@,
            true,
        )
    } else if c.preview > 0 {
        (
            "viewport loaded\n"@ + decimal(c.preview as nat) + " of "@ + total
                + " row groups still decimated\noff-screen"@,
            false,
        )
    } else if c.rows > 0 {
        (
            "partial: "@ + decimal(c.full as nat) + "/"@ + total + " row groups full, "@ + decimal(
                c.rows as nat,
            ) + " viewport-filtered"@,
            true,
        )
    } else {
        ("partial: "@ + decimal(c.full as nat) + "/"@ + total + " row groups loaded"@, true)
    }
}

/// What a partly loaded layer shows. `pending` says that the viewport still
/// lacks rows, `box_scale` that a feature is under a few pixels wide, so that
/// its box is its outline.
pub fn partial_note(c: GroupCounts, features: usize, pending: bool, box_scale: bool) -> (r: PartialNote)
    ensures
        (r.text@, r.attention) == partial_text(c, features, pending, box_scale),
{
    let total = dec(c.total as u64);
    if c.boxes > 0 && box_scale {
        let mut t = "all ".to_owned();
        t.append(fmt_count(features).as_str());
        t.append(
            " features drawn from their\nbounding boxes: at this scale a feature\nis under a few pixels wide",
        );
        PartialNote { text: t, attention: false }
    } else if c.boxes > 0 && pending {
        let mut t = "all features drawn from their bounding\nboxes (".to_owned();
        t.append(dec(c.boxes as u64).as_str());
        t.append(" of ");
        t.append(total.as_str());
        t.append(" row groups)\nzoom in for real geometry");
        PartialNote { text: t, attention: true }
    } else if c.boxes > 0 {
        let mut t = "viewport loaded\n".to_owned();
        t.append(dec(c.boxes as u64).as_str());
        t.append(" of ");
        t.append(total.as_str());
        t.append(" row groups still drawn as\nbounding boxes off-screen");
        PartialNote { text: t, attention: false }
    } else if c.preview > 0 && pending {
        let mut t = "preview: ".to_owned();
        t.append(dec(c.preview as u64).as_str());
        t.append(" of ");
        t.append(total.as_str());
        t.append(" row groups decimated\nzoom in to load real rows");
        PartialNote { text: t, attention: true }
    } else if c.preview > 0 {
        let mut t = "viewport loaded\n".to_owned();
        t.append(dec(c.preview as u64).as_str());
        t.append(" of ");
        t.append(total.as_str());
        t.append(" row groups still decimated\noff-screen");
        PartialNote { text: t, attention: false }
    } else if c.rows > 0 {
        let mut t = "partial: ".to_owned();
        t.append(dec(c.full as u64).as_str());
        t.append("/");
        t.append(total.as_str());
        t.append(" row groups full, ");
        t.append(dec(c.rows as u64).as_str());
        t.append(" viewport-filtered");
        PartialNote { text: t, attention: true }
    } else {
        let mut t = "partial: ".to_owned();
        t.append(dec(c.full as u64).as_str());
        t.append("/");
        t.append(total.as_str());
        t.append(" row groups loaded");
        PartialNote { text: t, attention: true }
    }
}

/// Whether classes computed from `then` rows are out of date for a layer with
/// `now` rows loaded: more than a quarter has come or gone.
pub fn classes_stale(then: u64, now: u64) -> (r: bool)
    ensures
        r == (4 * (if now >= then {
            now - then
        } else {
            then - now
        }) > if then == 0 {
            1int
        } else {
            then as int
        }),
{
    let apart: u64 = if now >= then {
        now - then
    } else {
        then - now
    };
    let base: u64 = if then == 0 {
        1
    } else {
        then
    };
    4 * (apart as u128) > base as u128
}

/// Whether switching outlines on needs new meshes: a layer coloured by a
/// colour map is built without them.
pub fn outlines_need_rebuild(before: bool, now: bool, color_map: bool) -> (r: bool)
    ensures
        r == (!before && now && color_map),
{
    !before && now && color_map
}

/// Why the layer's export is offered as it is.
pub fn export_hint(single_file: bool, xy: bool) -> (r: &'static str)
    ensures
        r@ == if !single_file {
            "Export works on single files; this layer is a multi-file dataset"@
        } else if xy {
            "Materialize this x/y layer as real GeoParquet: WKB points, Hilbert order, covering bbox / native geo stats"@
        } else {
            "Rewrite as a spatially sorted GeoParquet 1.1 or 2.0 file (Hilbert order, covering bbox / native geo stats, bloom filters)"@
        },
{
    if !single_file {
        "Export works on single files; this layer is a multi-file dataset"
    } else if xy {
        "Materialize this x/y layer as real GeoParquet: WKB points, Hilbert order, covering bbox / native geo stats"
    } else {
        "Rewrite as a spatially sorted GeoParquet 1.1 or 2.0 file (Hilbert order, covering bbox / native geo stats, bloom filters)"
    }
}

proof fn without_lists(layers: Seq<LayerState>, id: u64, l: LayerState)
    ensures
        without(layers, id).contains(l) <==> layers.contains(l) && l.id != id,
        without(layers, id).len() <= layers.len(),
        (forall|k: int| 0 <= k < layers.len() ==> (#[trigger] layers[k]).id != id) ==> without(layers, id)
            == layers,
    decreases layers.len(),
{
    if layers.len() > 0 {
        let rest = layers.subrange(1, layers.len() as int);
        without_lists(rest, id, l);
        let w = without(rest, id);
        let all = without(layers, id);
        if layers.contains(l) {
            let k = layers.index_of(l);
            if k > 0 {
                assert(rest[k - 1] == l);
            }
        }
        if rest.contains(l) {
            let k = rest.index_of(l);
            assert(layers[k + 1] == l);
        }
        if w.contains(l) && layers[0].id != id {
            let k = w.index_of(l);
            assert(all[k + 1] == l);
        }
        if l == layers[0] && l.id != id {
            assert(all[0] == l);
        }
        if all.contains(l) && layers[0].id != id {
            let k = all.index_of(l);
            if k > 0 {
                assert(w[k - 1] == l);
            }
        }
        assert(layers[0] == layers[0]);
        if forall|k: int| 0 <= k < layers.len() ==> (#[trigger] layers[k]).id != id {
            assert forall|k: int| 0 <= k < rest.len() implies (#[trigger] rest[k]).id != id by {
                assert(layers[k + 1].id != id);
            }
            assert(all =~= layers);
        }
    } else {
        assert(without(layers, id) =~= layers);
    }
}

/// Removing a layer takes away that one and leaves every other as it is; where
/// it was selected nothing is selected any more, and otherwise the selection
/// stays.
pub proof fn one_layer_is_removed(s: Session, id: u64, l: LayerState)
    ensures
        s.layer_removed(id).layers.contains(l) <==> s.layers.contains(l) && l.id != id,
        (forall|k: int| 0 <= k < s.layers.len() ==> (#[trigger] s.layers[k]).id != id)
            ==> s.layer_removed(id).layers == s.layers,
        s.pick.selection matches Some(p) ==> (p.layer_id != id ==> s.layer_removed(id).pick == s.pick),
        s.pick.selection matches Some(p) ==> (p.layer_id == id ==> s.layer_removed(id).pick.selection is None
            && !s.layer_removed(id).pick.highlight),
        !s.layer_removed(id).work.rebuilding.contains(id),
        !s.layer_removed(id).work.appending.contains(id),
        s.layer_removed(id).queue == s.queue,
{
    without_lists(s.layers, id, l);
}

/// The layers that stay keep their order.
pub proof fn removing_keeps_the_order(a: Seq<LayerState>, b: Seq<LayerState>, id: u64)
    ensures
        without(a + b, id) == without(a, id) + without(b, id),
    decreases a.len(),
{
    if a.len() > 0 {
        let rest = a.subrange(1, a.len() as int);
        assert((a + b).subrange(1, (a + b).len() as int) =~= rest + b);
        removing_keeps_the_order(rest, b, id);
        assert(without(a + b, id) =~= without(a, id) + without(b, id));
    } else {
        assert(a + b =~= b);
        assert(without(a, id) + without(b, id) =~= without(b, id));
    }
}

/// Moving a layer exchanges it with its neighbour: with the one above it, which
/// is drawn later, or the one below; at the end of the list it stays. No other
/// layer moves, and none changes.
pub proof fn a_layer_moves_by_one(s: Session, id: u64, up: bool, k: int)
    requires
        s.has_layer(id),
        0 <= k < s.layers.len(),
    ensures
        ({
            let i = s.index_of(id);
            let m = moved(s, id, up);
            let j = if up { i + 1 } else { i - 1 };
            &&& m.len() == s.layers.len()
            &&& 0 <= j < s.layers.len() ==> m[j] == s.layers[i] && m[i] == s.layers[j]
            &&& 0 <= j < s.layers.len() && k != i && k != j ==> m[k] == s.layers[k]
            &&& !(0 <= j < s.layers.len()) ==> m == s.layers
        }),
{
    crate::laws::index_is_in_range(s.layers, id, 0);
}

/// An answer to a paused load is about the one that waits longest: "load all"
/// lets it go on and is remembered for its file, once; cancelling ends it. The
/// others go on waiting.
pub proof fn an_answer_is_about_the_next_one(s: Session)
    requires
        s.queue.gates.len() > 0,
    ensures
        ({
            let g = s.queue.gates[0];
            let rest = s.queue.gates.subrange(1, s.queue.gates.len() as int);
            let key = g.label@ + "|"@ + decimal(g.file_size as nat);
            &&& s.gate_load_all().queue.gates == rest
            &&& s.gate_load_all().direct_files.contains(key)
            &&& s.direct_files.contains(key) ==> s.gate_load_all().direct_files == s.direct_files
            &&& !s.direct_files.contains(key) ==> s.gate_load_all().direct_files
                == s.direct_files.push(key)
            &&& s.gate_load_all().outbox.len() == s.outbox.len() + 2
            &&& s.gate_load_all().outbox[s.outbox.len() as int] is SaveDirectFiles
            &&& (s.gate_load_all().outbox.last() matches Effect::SpawnGated { job, opened, .. } && job
                == g.job && opened == g.opened)
            &&& !s.gate_cancel().queue.loading.contains_key(g.job)
            &&& s.gate_cancel().direct_files == s.direct_files
        }),
{
    let g = s.queue.gates[0];
    let key = gate_key(g.label@, g.file_size);
    if !s.direct_files.contains(key) {
        let d = s.direct_files.push(key);
        assert(d[d.len() - 1] == key);
    }
    if s.queue.projection_decider == Some(g.job) {
        let n = s.next_gate_taken();
        let t = Session {
            queue: Loads { loading: n.queue.loading.remove(g.job), ..n.queue },
            ..n
        };
        let u = t.end_decider(g.job);
        crate::laws::spawning_keeps_the_rest(
            Session { queue: Loads { deferred: Seq::empty(), ..u.queue }, ..u },
            u.queue.deferred,
            g.job,
        );
    }
}

/// Stopping a load raises its flag and says so; nothing else happens to it.
pub proof fn a_stopped_load_is_told(s: Session, job: u64)
    ensures
        s.queue.loading.contains_key(job) ==> s.load_stopped(job).queue.loading.contains_key(job)
            && s.load_stopped(job).queue.loading[job].stage is Cancelling && s.load_stopped(
            job,
        ).flags == s.flags.raise(s.queue.loading[job].flag),
        !s.queue.loading.contains_key(job) ==> s.load_stopped(job) == s,
        s.load_stopped(job).layers == s.layers,
{
}

/// The note on a partly loaded layer asks for attention while the viewport
/// lacks rows, unless boxes are all there is to see at this scale, or what is
/// missing is off screen.
pub proof fn attention_is_asked_for_what_is_seen(c: GroupCounts, features: usize, pending: bool, box_scale: bool)
    ensures
        c.boxes > 0 && box_scale ==> !partial_text(c, features, pending, box_scale).1,
        (c.boxes > 0 || c.preview > 0) && !pending ==> !partial_text(c, features, pending, box_scale).1,
        c.boxes > 0 && pending && !box_scale ==> partial_text(c, features, pending, box_scale).1,
        c.boxes == 0 && c.preview > 0 && pending ==> partial_text(c, features, pending, box_scale).1,
        c.boxes == 0 && c.preview == 0 ==> partial_text(c, features, pending, box_scale).1,
{
}

} // verus!
