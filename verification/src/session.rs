//! The state of a viewer session and the model its contracts speak of.
//!
//! The session decides; the caller acts. Every transition appends what has to
//! be done (spawn a worker, rebuild an overlay, move the camera) to an outbox
//! the caller drains. Values the session never looks into (opened files,
//! projections, rectangles, geometry, styles) stay with the caller, who gives
//! the session a number for each.
use std::collections::{HashMap, HashSet};
use vstd::prelude::*;
use crate::cancel::{CancelFlags, Flags};
use crate::layers::{states, Layer, LayerState};
use crate::text::texts;

verus! {

broadcast use vstd::std_specs::hash::group_hash_axioms;

/// The display projection a session starts in.
pub const DEFAULT_DISPLAY: u64 = 0;

/// The basemap a session starts with.
pub const DEFAULT_BASEMAP: usize = 0;

/// Feature width in screen pixels below which a box layer draws bounding
/// boxes: 3, as the bits of a double.
pub const DEFAULT_BOX_THRESHOLD_PX: u64 = 0x4008_0000_0000_0000;

/// Full opacity: 1, as the bits of a single-precision number.
pub const OPAQUE: u32 = 0x3f80_0000;

/// Geometry one refinement pass may decode, in MB.
pub const DEFAULT_REFINE_BUDGET_MB: u32 = 512;

/// Frames owed after geometry arrives, so that it is uploaded and its copies
/// are freed even while nothing else asks for a frame.
pub const STRIP_FRAMES: u8 = 8;

/// A layer's colour.
#[derive(Clone, Copy, PartialEq, Eq, Structural, Debug)]
pub enum Tint {
    /// The colour of the rotating palette at this position.
    Palette(usize),
    /// A colour the name of the data gives away.
    Thematic(u32),
}

/// What a load is doing.
#[derive(Debug)]
pub enum Stage {
    Queued,
    WaitingForProjection,
    LoadingAllRows,
    WaitingForAnswer,
    Cancelling,
    /// As the loader reported it.
    Reported(String),
}

/// A load in flight.
#[derive(Debug)]
pub struct LoadingJob {
    pub label: String,
    /// Progress from 0 to 1, as the bits of a single-precision number.
    pub frac_bits: u32,
    pub stage: Stage,
    /// Display generation this job builds geometry for.
    pub display_gen: u64,
    /// Its cancel flag.
    pub flag: u64,
}

/// A load that waits for the first job's projection decision.
#[derive(Clone, Copy, PartialEq, Eq, Structural, Debug)]
pub struct DeferredLoad {
    pub job: u64,
    pub layer_id: u64,
    pub source: u64,
    pub tint: Tint,
    pub flag: u64,
}

/// A source about to be opened.
#[derive(Debug)]
pub struct SourceInfo {
    /// Number under which the caller keeps it.
    pub handle: u64,
    pub label: String,
    /// The colour its name gives away, if any.
    pub theme: Option<u32>,
}

/// A load paused because its file is not laid out for viewport loading.
#[derive(Debug)]
pub struct QualityGate {
    pub job: u64,
    pub layer_id: u64,
    /// Number under which the caller keeps the opened file.
    pub opened: u64,
    pub label: String,
    pub file_size: u64,
    pub tint: Tint,
    pub auto_project: bool,
}

/// Why a worker ended without a result.
#[derive(Debug)]
pub enum EndReason {
    Cancelled,
    NothingToAppend,
    Error(String),
}

/// Something the caller has to do.
#[derive(Debug)]
pub enum Effect {
    SpawnLoad { job: u64, layer_id: u64, source: u64, tint: Tint, auto_project: bool, flag: u64 },
    SpawnGated { job: u64, layer_id: u64, opened: u64, tint: Tint, auto_project: bool, flag: u64 },
    SpawnRebuild { layer_id: u64, generation: u64, flag: u64 },
    SpawnReload { layer_id: u64, generation: u64, flag: u64 },
    /// Look for part files the viewport wants, within `budget_mb`.
    SpawnPartAppend { layer_id: u64, generation: u64, flag: u64, budget_mb: u32 },
    /// Read the row selections planned for the layer, within `limit_mb` where one
    /// is given.
    SpawnAppend { layer_id: u64, generation: u64, flag: u64, limit_mb: Option<u32> },
    SpawnFilter { layer_id: u64, predicate: String, use_boxes: bool },
    /// The layer now draws this geometry alone.
    ReplaceSections { layer_id: u64, geometry: u64 },
    /// The layer also draws this geometry.
    PushSection { layer_id: u64, geometry: u64 },
    ClearSections { layer_id: u64 },
    /// The layer's file grew: keep the new store, extend its row-group boxes
    /// or drop them.
    AdoptStore { layer_id: u64, store: u64, extend_boxes: bool, drop_boxes: bool },
    /// Build graticule and coastline for the current display.
    BuildOverlays,
    DropRowGroupOverlays,
    /// Show the place the camera showed in this earlier display.
    TransferCamera { from: u64 },
    ResetCamera,
    /// Put the camera where it was saved.
    PlaceCamera { camera: CameraPose },
    ReleaseMemory,
    /// Open a table, under the name it was saved under where there is one.
    OpenTable { source: u64, name: Option<String> },
    DropTables,
    /// Close what belongs to layers that are gone: dialogs, tables, queued
    /// imports and caches.
    DropSession,
    SaveDirectFiles,
}

/// Where a camera looks: the centre and the zoom, as the bits of doubles.
#[derive(Clone, Copy, PartialEq, Eq, Structural, Debug)]
pub struct CameraPose {
    pub x: u64,
    pub y: u64,
    pub zoom: u64,
}

/// Projection and camera as the session decides about them.
#[derive(Clone, Copy, PartialEq, Eq, Structural, Debug)]
pub struct CameraState {
    /// The display projection, and how often it changed.
    pub display: u64,
    pub display_gen: u64,
    /// How often graticule and coastline were rebuilt.
    pub graticule_generation: u64,
    /// The first layer picks the projection.
    pub auto_projection: bool,
    pub pending_fit: bool,
    pub fit_bounds: Option<u64>,
    /// Provisional framing of a layer still loading.
    pub frame_bounds: Option<u64>,
    pub camera_moved: bool,
    pub fit_after_rebuilds: bool,
    /// Bumped on every camera move.
    pub cam_epoch: u64,
}

/// A picked feature.
#[derive(Clone, Copy, PartialEq, Eq, Structural, Debug)]
pub struct Picked {
    pub layer_id: u64,
    pub feature: u64,
}

/// Columns shown of a wide table, and how many it has.
#[derive(Clone, Copy, PartialEq, Eq, Structural, Debug)]
pub struct Capped {
    pub shown: usize,
    pub total: usize,
}

/// Selection and highlights.
#[derive(Clone, Copy, PartialEq, Eq, Structural, Debug)]
pub struct PickState {
    pub selection: Option<Picked>,
    pub highlight: bool,
    /// Set when the attribute fetch was capped.
    pub attrs_truncated: Option<Capped>,
    pub selection_generation: u64,
    pub pick_job: u64,
    pub pick_pending: bool,
    pub sql_highlight: bool,
    pub sql_highlight_generation: u64,
}

/// Coastline detail in use.
#[derive(Clone, Copy, PartialEq, Eq, Structural, Debug)]
pub enum CoastLevel {
    Embedded,
    Detailed,
}

/// View settings.
#[derive(Clone, Copy, PartialEq, Eq, Structural, Debug)]
pub struct ViewSettings {
    pub basemap: Option<usize>,
    /// The source to come back to when the basemap is switched off and on.
    pub last_basemap: usize,
    /// As the bits of a single-precision number.
    pub basemap_opacity: u32,
    pub show_graticule: bool,
    pub show_coastline: bool,
    pub coast_level: CoastLevel,
    /// As the bits of a double.
    pub box_threshold_px: u64,
    pub refine_budget_mb: u32,
    pub layers_open: bool,
}

/// The view settings a session starts from.
pub open spec fn default_view() -> ViewSettings {
    ViewSettings {
        basemap: Some(DEFAULT_BASEMAP),
        last_basemap: DEFAULT_BASEMAP,
        basemap_opacity: OPAQUE,
        show_graticule: true,
        show_coastline: true,
        coast_level: CoastLevel::Embedded,
        box_threshold_px: DEFAULT_BOX_THRESHOLD_PX,
        refine_budget_mb: DEFAULT_REFINE_BUDGET_MB,
        layers_open: true,
    }
}

impl ViewSettings {
    /// See [`default_view`].
    pub fn new() -> (r: ViewSettings)
        ensures
            r == default_view(),
    {
        ViewSettings {
            basemap: Some(DEFAULT_BASEMAP),
            last_basemap: DEFAULT_BASEMAP,
            basemap_opacity: OPAQUE,
            show_graticule: true,
            show_coastline: true,
            coast_level: CoastLevel::Embedded,
            box_threshold_px: DEFAULT_BOX_THRESHOLD_PX,
            refine_budget_mb: DEFAULT_REFINE_BUDGET_MB,
            layers_open: true,
        }
    }
}

/// Workers per layer, and what holds them back.
pub struct Workers {
    pub rebuilding: HashSet<u64>,
    pub appending: HashSet<u64>,
    /// Rebuilding only to merge sections: they keep drawing.
    pub consolidating: HashSet<u64>,
    /// Refinement paused until the camera moves.
    pub refine_hold: HashSet<u64>,
    pub part_appending: HashSet<u64>,
    pub part_hold: HashSet<u64>,
    pub filter_pending: HashSet<u64>,
    /// Rows, and bytes where those stopped it, of the last refusal to refine.
    pub refine_deferred: HashMap<u64, (u64, Option<u64>)>,
    /// Camera epoch each refinement in flight was spawned at.
    pub refine_epoch: HashMap<u64, u64>,
    pub append_cancel: HashMap<u64, u64>,
    pub rebuild_cancel: HashMap<u64, u64>,
}

/// What [`Workers`] stands for.
#[verifier::ext_equal]
pub struct Work {
    pub rebuilding: Set<u64>,
    pub appending: Set<u64>,
    pub consolidating: Set<u64>,
    pub refine_hold: Set<u64>,
    pub part_appending: Set<u64>,
    pub part_hold: Set<u64>,
    pub filter_pending: Set<u64>,
    pub refine_deferred: Map<u64, (u64, Option<u64>)>,
    pub refine_epoch: Map<u64, u64>,
    pub append_cancel: Map<u64, u64>,
    pub rebuild_cancel: Map<u64, u64>,
}

impl View for Workers {
    type V = Work;

    open spec fn view(&self) -> Work {
        Work {
            rebuilding: self.rebuilding@,
            appending: self.appending@,
            consolidating: self.consolidating@,
            refine_hold: self.refine_hold@,
            part_appending: self.part_appending@,
            part_hold: self.part_hold@,
            filter_pending: self.filter_pending@,
            refine_deferred: self.refine_deferred@,
            refine_epoch: self.refine_epoch@,
            append_cancel: self.append_cancel@,
            rebuild_cancel: self.rebuild_cancel@,
        }
    }
}

/// Nothing running, nothing held.
pub open spec fn idle() -> Work {
    Work {
        rebuilding: Set::empty(),
        appending: Set::empty(),
        consolidating: Set::empty(),
        refine_hold: Set::empty(),
        part_appending: Set::empty(),
        part_hold: Set::empty(),
        filter_pending: Set::empty(),
        refine_deferred: Map::empty(),
        refine_epoch: Map::empty(),
        append_cancel: Map::empty(),
        rebuild_cancel: Map::empty(),
    }
}

impl Workers {
    pub fn new() -> (r: Workers)
        ensures
            r@ == idle(),
    {
        Workers {
            rebuilding: HashSet::new(),
            appending: HashSet::new(),
            consolidating: HashSet::new(),
            refine_hold: HashSet::new(),
            part_appending: HashSet::new(),
            part_hold: HashSet::new(),
            filter_pending: HashSet::new(),
            refine_deferred: HashMap::new(),
            refine_epoch: HashMap::new(),
            append_cancel: HashMap::new(),
            rebuild_cancel: HashMap::new(),
        }
    }
}

/// Loads in flight and what is kept for them.
pub struct LoadQueue {
    pub loading: HashMap<u64, LoadingJob>,
    /// Style, filter and name to give a layer once its load finishes.
    pub pending_styles: HashMap<u64, u64>,
    pub pending_filters: HashMap<u64, String>,
    pub pending_names: HashMap<u64, String>,
    /// The job whose load decides the session's projection.
    pub projection_decider: Option<u64>,
    pub deferred: Vec<DeferredLoad>,
    pub gates: Vec<QualityGate>,
    pub next_job: u64,
    pub next_layer_id: u64,
    pub palette_idx: usize,
}

/// What [`LoadQueue`] stands for.
#[verifier::ext_equal]
pub struct Loads {
    pub loading: Map<u64, LoadingJob>,
    pub pending_styles: Map<u64, u64>,
    pub pending_filters: Map<u64, String>,
    pub pending_names: Map<u64, String>,
    pub projection_decider: Option<u64>,
    pub deferred: Seq<DeferredLoad>,
    pub gates: Seq<QualityGate>,
    pub next_job: u64,
    pub next_layer_id: u64,
    pub palette_idx: usize,
}

impl View for LoadQueue {
    type V = Loads;

    open spec fn view(&self) -> Loads {
        Loads {
            loading: self.loading@,
            pending_styles: self.pending_styles@,
            pending_filters: self.pending_filters@,
            pending_names: self.pending_names@,
            projection_decider: self.projection_decider,
            deferred: self.deferred@,
            gates: self.gates@,
            next_job: self.next_job,
            next_layer_id: self.next_layer_id,
            palette_idx: self.palette_idx,
        }
    }
}

/// A viewer session.
pub struct ViewerApp {
    /// In draw order: the last one is top-most.
    pub(crate) layers: Vec<Layer>,
    pub(crate) work: Workers,
    pub(crate) queue: LoadQueue,
    pub(crate) flags: CancelFlags,
    pub(crate) cam: CameraState,
    pub(crate) pick: PickState,
    pub(crate) view: ViewSettings,
    pub(crate) errors: Vec<String>,
    pub(crate) show_errors: bool,
    /// Keys of files to load whole without asking.
    pub(crate) direct_files: Vec<String>,
    pub(crate) strip_probe: u8,
    /// What the caller still has to do, in order.
    pub(crate) outbox: Vec<Effect>,
}

/// What goes by a cancel flag.
pub enum Holder {
    /// The load of this job, started or waiting.
    Load(u64),
    /// The worker that reads rows for this layer.
    Read(u64),
    /// The worker that builds this layer's geometry anew.
    Rebuild(u64),
}

/// What [`ViewerApp`] stands for.
#[verifier::ext_equal]
pub struct Session {
    pub layers: Seq<LayerState>,
    pub work: Work,
    pub queue: Loads,
    pub flags: Flags,
    pub cam: CameraState,
    pub pick: PickState,
    pub view: ViewSettings,
    pub errors: Seq<Seq<char>>,
    pub show_errors: bool,
    pub direct_files: Seq<Seq<char>>,
    pub strip_probe: u8,
    pub outbox: Seq<Effect>,
}

impl View for ViewerApp {
    type V = Session;

    open(crate) spec fn view(&self) -> Session {
        Session {
            layers: states(self.layers@),
            work: self.work@,
            queue: self.queue@,
            flags: self.flags@,
            cam: self.cam,
            pick: self.pick,
            view: self.view,
            errors: texts(self.errors@),
            show_errors: self.show_errors,
            direct_files: texts(self.direct_files@),
            strip_probe: self.strip_probe,
            outbox: self.outbox@,
        }
    }
}

impl ViewerApp {
    /// The layers, in draw order.
    pub fn layers(&self) -> (r: &Vec<Layer>)
        ensures
            states(r@) == self@.layers,
    {
        &self.layers
    }

    pub fn work(&self) -> (r: &Workers)
        ensures
            r@ == self@.work,
    {
        &self.work
    }

    pub fn queue(&self) -> (r: &LoadQueue)
        ensures
            r@ == self@.queue,
    {
        &self.queue
    }

    pub fn cam(&self) -> (r: CameraState)
        ensures
            r == self@.cam,
    {
        self.cam
    }

    pub fn pick(&self) -> (r: PickState)
        ensures
            r == self@.pick,
    {
        self.pick
    }

    pub fn settings(&self) -> (r: ViewSettings)
        ensures
            r == self@.view,
    {
        self.view
    }

    pub fn errors(&self) -> (r: &Vec<String>)
        ensures
            texts(r@) == self@.errors,
    {
        &self.errors
    }

    /// The files to load whole without asking.
    pub fn direct_files(&self) -> (r: &Vec<String>)
        ensures
            texts(r@) == self@.direct_files,
    {
        &self.direct_files
    }

    /// Whether the worker that goes by this flag is to stop.
    pub fn is_stopped(&self, flag: u64) -> (r: bool)
        ensures
            r == self@.flags.raised(flag),
    {
        self.flags.is_raised(flag)
    }

    /// Take in view settings the user changed.
    pub fn change_settings(&mut self, view: ViewSettings)
        ensures
            final(self)@ == (Session { view, ..old(self)@ }),
    {
        self.view = view;
    }
}

// --- transitions of the model -------------------------------------------------

/// Index of the first layer with this id, or the number of layers.
pub open spec fn index_from(layers: Seq<LayerState>, id: u64, i: int) -> int
    decreases layers.len() - i,
{
    if i >= layers.len() {
        layers.len() as int
    } else if layers[i].id == id {
        i
    } else {
        index_from(layers, id, i + 1)
    }
}

/// The flags of the loads in flight.
pub open spec fn loading_flags(loading: Map<u64, LoadingJob>) -> Set<u64> {
    Set::new(|f: u64| exists|job: u64| #[trigger] loading.contains_key(job) && loading[job].flag == f)
}

/// The key a file's standing "load all" answer is remembered under.
pub open spec fn gate_key(label: Seq<char>, file_size: u64) -> Seq<char> {
    label + "|"@ + crate::text::decimal(file_size as nat)
}

impl Session {
    /// A session nothing has happened in.
    pub open spec fn fresh(direct_files: Seq<Seq<char>>) -> Session {
        Session {
            layers: Seq::empty(),
            work: idle(),
            queue: Loads {
                loading: Map::empty(),
                pending_styles: Map::empty(),
                pending_filters: Map::empty(),
                pending_names: Map::empty(),
                projection_decider: None,
                deferred: Seq::empty(),
                gates: Seq::empty(),
                next_job: 0,
                next_layer_id: 0,
                palette_idx: 0,
            },
            flags: Flags { up: Seq::empty() },
            cam: CameraState {
                display: DEFAULT_DISPLAY,
                display_gen: 0,
                graticule_generation: 0,
                auto_projection: true,
                pending_fit: true,
                fit_bounds: None,
                frame_bounds: None,
                camera_moved: false,
                fit_after_rebuilds: false,
                cam_epoch: 0,
            },
            pick: PickState {
                selection: None,
                highlight: false,
                attrs_truncated: None,
                selection_generation: 0,
                pick_job: 0,
                pick_pending: false,
                sql_highlight: false,
                sql_highlight_generation: 0,
            },
            view: default_view(),
            errors: Seq::empty(),
            show_errors: false,
            direct_files,
            strip_probe: 0,
            outbox: seq![Effect::BuildOverlays],
        }
    }

    /// A load that waits for the projection goes by this flag.
    pub open spec fn waits(self, job: u64, flag: u64) -> bool {
        exists|i: int|
            0 <= i < self.queue.deferred.len() && (#[trigger] self.queue.deferred[i]).job == job
                && self.queue.deferred[i].flag == flag
    }

    /// The load or worker goes by this flag.
    pub open spec fn holds(self, h: Holder, flag: u64) -> bool {
        match h {
            Holder::Load(job) => (self.queue.loading.contains_key(job)
                && self.queue.loading[job].flag == flag) || self.waits(job, flag),
            Holder::Read(id) => self.work.append_cancel.contains_key(id)
                && self.work.append_cancel[id] == flag,
            Holder::Rebuild(id) => self.work.rebuild_cancel.contains_key(id)
                && self.work.rebuild_cancel[id] == flag,
        }
    }

    /// Every load and worker goes by one flag, which was handed out, and to it
    /// alone. Jobs are numbered below the next one, of which there are no more
    /// than flags, and a flag is kept for a read only while it is in flight.
    pub open spec fn flags_known(self) -> bool {
        &&& forall|h: Holder, f: u64| #[trigger] self.holds(h, f) ==> self.flags.known(f)
        &&& forall|h: Holder, f: u64, g: u64|
            #![trigger self.holds(h, f), self.holds(h, g)]
            self.holds(h, f) && self.holds(h, g) ==> f == g
        &&& forall|h: Holder, k: Holder, f: u64|
            #![trigger self.holds(h, f), self.holds(k, f)]
            self.holds(h, f) && self.holds(k, f) ==> h == k
        &&& forall|job: u64, f: u64| #[trigger]
            self.holds(Holder::Load(job), f) ==> job < self.queue.next_job
        &&& self.queue.next_job <= self.flags.up.len()
        &&& forall|id: u64| #[trigger]
            self.work.append_cancel.contains_key(id) ==> self.work.appending.contains(id)
    }

    /// Every load and worker of this session is told to stop.
    pub open spec fn all_stopped_in(self, flags: Flags) -> bool {
        &&& forall|job: u64| #[trigger]
            self.queue.loading.contains_key(job) ==> flags.raised(self.queue.loading[job].flag)
        &&& forall|id: u64| #[trigger]
            self.work.append_cancel.contains_key(id) ==> flags.raised(self.work.append_cancel[id])
        &&& forall|id: u64| #[trigger]
            self.work.rebuild_cancel.contains_key(id) ==> flags.raised(
                self.work.rebuild_cancel[id],
            )
    }

    pub open spec fn index_of(self, id: u64) -> int {
        index_from(self.layers, id, 0)
    }

    pub open spec fn has_layer(self, id: u64) -> bool {
        self.index_of(id) < self.layers.len()
    }

    pub open spec fn emit(self, e: Effect) -> Session {
        Session { outbox: self.outbox.push(e), ..self }
    }

    /// An error is listed, and the list shown.
    pub open spec fn push_error(self, e: Seq<char>) -> Session {
        Session { errors: self.errors.push(e), show_errors: true, ..self }
    }

    pub open spec fn apply_pick(self, sel: Option<Picked>, truncated: Option<Capped>) -> Session {
        Session {
            pick: PickState {
                selection: sel,
                highlight: sel is Some,
                attrs_truncated: truncated,
                selection_generation: self.pick.selection_generation.wrapping_add(1),
                ..self.pick
            },
            ..self
        }
    }

    /// No feature is picked, and none is being picked.
    pub open spec fn clear_selection(self) -> Session {
        Session {
            pick: PickState {
                pick_job: self.pick.pick_job.wrapping_add(1),
                pick_pending: false,
                ..self.pick
            },
            ..self
        }.apply_pick(None, None)
    }

    /// A feature is being picked, under the next number.
    pub open spec fn picking(self) -> Session {
        Session {
            pick: PickState {
                pick_job: self.pick.pick_job.wrapping_add(1),
                pick_pending: true,
                ..self.pick
            },
            ..self
        }
    }

    /// The answer to a pick; one to an earlier pick is dropped.
    pub open spec fn pick_answered(self, job: u64, sel: Option<Picked>, truncated: Option<Capped>) -> Session {
        if job == self.pick.pick_job {
            Session { pick: PickState { pick_pending: false, ..self.pick }, ..self }.apply_pick(
                sel,
                truncated,
            )
        } else {
            self
        }
    }

    /// A fresh flag for the layer's rebuild, raising the one in flight.
    pub open spec fn arm_rebuild(self, layer_id: u64) -> Session {
        Session {
            work: Work {
                rebuilding: self.work.rebuilding.insert(layer_id),
                rebuild_cancel: self.work.rebuild_cancel.insert(layer_id, self.flags.next()),
                ..self.work
            },
            flags: self.flags.raise_of(self.work.rebuild_cancel, layer_id).issued(),
            ..self
        }
    }

    /// The geometry of layer `i` is built anew, replacing any build in flight.
    pub open spec fn begin_rebuild(self, i: int) -> Session {
        let l = self.layers[i];
        let generation = l.generation.wrapping_add(1);
        Session { layers: self.layers.update(i, LayerState { generation, ..l }), ..self }.arm_rebuild(
            l.id,
        ).emit(Effect::SpawnRebuild { layer_id: l.id, generation, flag: self.flags.next() })
    }

    /// Every layer from `i` on but `skip` is built anew.
    pub open spec fn rebuild_from(self, skip: Option<u64>, i: int) -> Session
        decreases self.layers.len() - i,
    {
        if i >= self.layers.len() || i < 0 {
            self
        } else if skip == Some(self.layers[i].id) {
            self.rebuild_from(skip, i + 1)
        } else {
            self.begin_rebuild(i).rebuild_from(skip, i + 1)
        }
    }

    /// The display changes; what is built in it already need not be rebuilt.
    pub open spec fn adopt_display_lite(self, d: u64) -> Session {
        let s = Session {
            cam: CameraState {
                display: d,
                display_gen: self.cam.display_gen.wrapping_add(1),
                ..self.cam
            },
            ..self
        }.clear_selection();
        Session {
            cam: CameraState {
                graticule_generation: s.cam.graticule_generation.wrapping_add(1),
                ..s.cam
            },
            ..s
        }.emit(Effect::BuildOverlays).emit(Effect::DropRowGroupOverlays)
    }

    /// The display changes, and with it what is drawn over and under the map.
    pub open spec fn redisplayed(self, d: u64) -> Session {
        Session {
            cam: CameraState {
                display: d,
                display_gen: self.cam.display_gen.wrapping_add(1),
                graticule_generation: self.cam.graticule_generation.wrapping_add(1),
                ..self.cam
            },
            pick: PickState {
                selection: None,
                highlight: false,
                sql_highlight: false,
                sql_highlight_generation: self.pick.sql_highlight_generation.wrapping_add(1),
                ..self.pick
            },
            ..self
        }.emit(Effect::BuildOverlays)
    }

    /// The display changes and every layer is built anew; the camera is
    /// fitted once that is done, at once where there is no layer.
    pub open spec fn set_display(self, d: u64) -> Session {
        let s = self.redisplayed(d).rebuild_from(None, 0);
        if s.layers.len() == 0 {
            Session { cam: CameraState { pending_fit: true, ..s.cam }, ..s }
        } else {
            Session { cam: CameraState { fit_after_rebuilds: true, ..s.cam }, ..s }
        }
    }

    /// An untouched camera is fitted to the layer that picked the projection;
    /// one the user framed keeps showing the same place.
    pub open spec fn camera_after_adoption(self, old: u64) -> Session {
        if self.cam.camera_moved {
            self.emit(Effect::TransferCamera { from: old })
        } else {
            Session { cam: CameraState { pending_fit: true, ..self.cam }, ..self }
        }
    }

    /// The load is handed to a worker, for the display as it is now.
    pub open spec fn spawn_load(self, d: DeferredLoad, auto_project: bool) -> Session {
        let q = if self.queue.loading.contains_key(d.job) {
            Loads {
                loading: self.queue.loading.insert(
                    d.job,
                    LoadingJob {
                        display_gen: self.cam.display_gen,
                        stage: Stage::Queued,
                        ..self.queue.loading[d.job]
                    },
                ),
                ..self.queue
            }
        } else {
            self.queue
        };
        Session { queue: q, ..self }.emit(
            Effect::SpawnLoad {
                job: d.job,
                layer_id: d.layer_id,
                source: d.source,
                tint: d.tint,
                auto_project,
                flag: d.flag,
            },
        )
    }

    pub open spec fn spawn_loads(self, ds: Seq<DeferredLoad>) -> Session
        decreases ds.len(),
    {
        if ds.len() == 0 {
            self
        } else {
            self.spawn_load(ds[0], false).spawn_loads(ds.subrange(1, ds.len() as int))
        }
    }

    /// The loads that waited for the projection are started, in order.
    pub open spec fn flush_deferred(self) -> Session {
        Session { queue: Loads { deferred: Seq::empty(), ..self.queue }, ..self }.spawn_loads(
            self.queue.deferred,
        )
    }

    /// The projection was for `job` to decide, and it has ended.
    pub open spec fn end_decider(self, job: u64) -> Session {
        if self.queue.projection_decider == Some(job) {
            Session { queue: Loads { projection_decider: None, ..self.queue }, ..self }
        } else {
            self
        }
    }

    /// Whether a load enqueued now decides the projection: automatic, and the
    /// very first of the session.
    pub open spec fn decides_projection(self) -> bool {
        &&& self.cam.auto_projection
        &&& self.layers.len() == 0
        &&& self.queue.loading.is_empty()
        &&& self.queue.pending_styles.is_empty()
    }

    /// The load a source enqueued now becomes.
    pub open spec fn next_load(self, source: SourceInfo) -> DeferredLoad {
        DeferredLoad {
            job: self.queue.next_job,
            layer_id: self.queue.next_layer_id,
            source: source.handle,
            tint: match source.theme {
                Some(c) => Tint::Thematic(c),
                None => Tint::Palette(self.queue.palette_idx),
            },
            flag: self.flags.next(),
        }
    }

    /// A load is registered. It starts at once, unless another one is still
    /// to decide the projection: then it waits for that.
    pub open spec fn enqueue_load(self, source: SourceInfo) -> Session {
        let d = self.next_load(source);
        let auto_project = self.decides_projection();
        let decider = if auto_project {
            Some(d.job)
        } else {
            self.queue.projection_decider
        };
        let waits = decider is Some && decider != Some(d.job);
        let s = Session {
            queue: Loads {
                loading: self.queue.loading.insert(
                    d.job,
                    LoadingJob {
                        label: source.label,
                        frac_bits: 0,
                        stage: if waits {
                            Stage::WaitingForProjection
                        } else {
                            Stage::Queued
                        },
                        display_gen: self.cam.display_gen,
                        flag: d.flag,
                    },
                ),
                next_job: self.queue.next_job.wrapping_add(1),
                next_layer_id: self.queue.next_layer_id.wrapping_add(1),
                palette_idx: if source.theme is Some {
                    self.queue.palette_idx
                } else {
                    self.queue.palette_idx.wrapping_add(1)
                },
                projection_decider: decider,
                ..self.queue
            },
            flags: self.flags.issued(),
            ..self
        };
        if waits {
            Session { queue: Loads { deferred: s.queue.deferred.push(d), ..s.queue }, ..s }
        } else {
            s.spawn_load(d, auto_project)
        }
    }

    /// A load is registered; its layer will go by this name.
    pub open spec fn enqueue_named(self, source: SourceInfo, name: String) -> Session {
        let s = self.enqueue_load(source);
        Session {
            queue: Loads {
                pending_names: s.queue.pending_names.insert(self.queue.next_job, name),
                ..s.queue
            },
            ..s
        }
    }

    /// Every worker is told to stop, and nothing is kept for what it was
    /// going to deliver.
    pub open spec fn cancel_in_flight(self) -> Session {
        Session {
            flags: self.flags.raise_all(loading_flags(self.queue.loading)).raise_all(
                self.work.append_cancel.values(),
            ).raise_all(self.work.rebuild_cancel.values()),
            queue: Loads {
                loading: Map::empty(),
                pending_styles: Map::empty(),
                pending_filters: Map::empty(),
                pending_names: Map::empty(),
                projection_decider: None,
                deferred: Seq::empty(),
                ..self.queue
            },
            work: Work {
                append_cancel: Map::empty(),
                rebuild_cancel: Map::empty(),
                ..self.work
            },
            ..self
        }
    }

    /// Back to a blank session, in the settings a session starts with.
    pub open spec fn reset_layout(self) -> Session {
        let c = self.cancel_in_flight();
        let s = Session {
            layers: Seq::empty(),
            work: idle(),
            queue: Loads { gates: Seq::empty(), palette_idx: 0, ..c.queue },
            errors: Seq::empty(),
            show_errors: false,
            ..c
        }.emit(Effect::DropSession).clear_selection();
        let t = Session {
            pick: PickState {
                sql_highlight: false,
                sql_highlight_generation: s.pick.sql_highlight_generation.wrapping_add(1),
                ..s.pick
            },
            cam: CameraState {
                auto_projection: true,
                fit_bounds: None,
                frame_bounds: None,
                fit_after_rebuilds: false,
                ..s.cam
            },
            view: default_view(),
            ..s
        }.set_display(DEFAULT_DISPLAY);
        Session { cam: CameraState { camera_moved: false, ..t.cam }, ..t }.emit(
            Effect::ResetCamera,
        ).emit(Effect::ReleaseMemory)
    }

    /// The row-group boxes are usable for pruning.
    pub open spec fn boxes_fit(l: LayerState) -> bool {
        l.boxes matches Some(n) && n == (if l.starts.len() == 0 {
            0
        } else {
            l.starts.len() - 1
        })
    }

    /// The rows matching a predicate are computed, where the layer exists.
    pub open spec fn start_layer_filter(self, layer_id: u64, predicate: String) -> Session {
        if self.has_layer(layer_id) {
            Session {
                work: Work {
                    filter_pending: self.work.filter_pending.insert(layer_id),
                    ..self.work
                },
                ..self
            }.emit(
                Effect::SpawnFilter {
                    layer_id,
                    predicate,
                    use_boxes: Self::boxes_fit(self.layers[self.index_of(layer_id)]),
                },
            )
        } else {
            self
        }
    }

    /// A paused load goes on, decoding every row.
    pub open spec fn resume_gated(self, g: QualityGate) -> Session {
        let known = self.queue.loading.contains_key(g.job);
        let flag = if known {
            self.queue.loading[g.job].flag
        } else {
            self.flags.next()
        };
        Session {
            flags: if known {
                self.flags
            } else {
                self.flags.issued()
            },
            queue: if known {
                Loads {
                    loading: self.queue.loading.insert(
                        g.job,
                        LoadingJob { stage: Stage::LoadingAllRows, ..self.queue.loading[g.job] },
                    ),
                    ..self.queue
                }
            } else {
                self.queue
            },
            ..self
        }.emit(
            Effect::SpawnGated {
                job: g.job,
                layer_id: g.layer_id,
                opened: g.opened,
                tint: g.tint,
                auto_project: g.auto_project,
                flag,
            },
        )
    }

    /// A paused load is abandoned.
    pub open spec fn drop_gated(self, job: u64) -> Session {
        let s = Session {
            queue: Loads { loading: self.queue.loading.remove(job), ..self.queue },
            ..self
        };
        if self.queue.projection_decider == Some(job) {
            s.end_decider(job).flush_deferred()
        } else {
            s
        }
    }
}

} // verus!
