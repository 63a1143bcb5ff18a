//! Running an export: merging, rewriting, uploading, and adding to a dataset
//! that is published already. A worker does one task at a time and reports
//! its outcome; what comes next is decided here.
use vstd::prelude::*;
use crate::export::{collection_sibling, refuse_replacing, S3Dest};
use crate::text::{cat2, cat3, cat4, cat6, dec, decimal, without_trailing};

verus! {

/// How far a run has come.
#[derive(Clone, Copy, PartialEq, Eq, Structural, Debug)]
pub enum Phase {
    Ready,
    /// Layers are merged into one file.
    Merging,
    Optimizing,
    /// The collection document is written.
    Describing,
    /// The destination is looked at before a tree is sent.
    Looking,
    SendingTree,
    SendingFile,
    /// The collection published beside the file is looked for.
    Finding,
    /// Our collection is merged into it.
    Joining,
    SendingCollection,
    Over,
}

/// A run of an export.
#[derive(Debug)]
pub struct PublishRun {
    /// The source is uploaded unchanged.
    pub as_is: bool,
    /// Several layers go in.
    pub merge: bool,
    /// Where the output goes, unless it stays local.
    pub dest: Option<S3Dest>,
    /// A collection document goes with it.
    pub stac: bool,
    /// A dataset at the destination may be replaced.
    pub replace: bool,
    /// Where the collection document of a single file goes, if it has a place.
    pub sibling: Option<String>,
    /// The local output, as it is shown.
    pub local: String,
    pub process: u32,
    pub phase: Phase,
    /// The output is a tree of files.
    pub tree: bool,
    /// A merged file was staged.
    pub staged: bool,
}

/// What the worker reports of a task.
#[derive(Debug)]
pub enum Outcome {
    Done,
    /// The output was written: a tree of files, or a single one.
    Made { tree: bool },
    /// What was looked for is there.
    Found(String),
    Failed(String),
}

/// What the worker does next.
#[derive(Debug)]
pub enum Task {
    /// Merge the layers into a temporary file of this name.
    Merge(String),
    /// Rewrite the file that was staged, which has its geometry in it; or,
    /// where none was, the layer's source, as the layer reads it.
    Optimize { staged: Option<String> },
    WriteCollection,
    /// Fetch what is at this address, if anything is.
    Look(String),
    SendTree(String),
    SendFile(String),
    /// Merge our collection into this text, and keep the result locally.
    Join(String),
    SendCollection(String),
    Finish(Ending),
}

/// The end of a run.
#[derive(Debug)]
pub struct Ending {
    pub failure: Option<String>,
    /// Remove the local output, the local collection, the merged file.
    pub drop_output: bool,
    pub drop_collection: bool,
    pub drop_stage: bool,
}

/// What [`Task`] stands for.
#[verifier::ext_equal]
pub enum Step {
    Merge(Seq<char>),
    Optimize { staged: Option<Seq<char>> },
    WriteCollection,
    Look(Seq<char>),
    SendTree(Seq<char>),
    SendFile(Seq<char>),
    Join(Seq<char>),
    SendCollection(Seq<char>),
    Finish {
        failure: Option<Seq<char>>,
        drop_output: bool,
        drop_collection: bool,
        drop_stage: bool,
    },
}

impl View for Task {
    type V = Step;

    open spec fn view(&self) -> Step {
        match *self {
            Task::Merge(f) => Step::Merge(f@),
            Task::Optimize { staged } => Step::Optimize {
                staged: match staged {
                    Some(f) => Some(f@),
                    None => None,
                },
            },
            Task::WriteCollection => Step::WriteCollection,
            Task::Look(u) => Step::Look(u@),
            Task::SendTree(u) => Step::SendTree(u@),
            Task::SendFile(u) => Step::SendFile(u@),
            Task::Join(t) => Step::Join(t@),
            Task::SendCollection(u) => Step::SendCollection(u@),
            Task::Finish(e) => Step::Finish {
                failure: match e.failure {
                    Some(t) => Some(t@),
                    None => None,
                },
                drop_output: e.drop_output,
                drop_collection: e.drop_collection,
                drop_stage: e.drop_stage,
            },
        }
    }
}

// --- what is said ---------------------------------------------------------------------------

/// The file layers are merged into.
pub open spec fn stage_name(process: u32) -> Seq<char> {
    "geopq_merge_"@ + decimal(process as nat) + ".parquet"@
}

/// The destination, nothing where the output stays local.
pub open spec fn uri_of(r: PublishRun) -> Seq<char> {
    match r.dest {
        Some(d) => d.uri@,
        None => Seq::empty(),
    }
}

/// Somebody's dataset is at the destination.
pub open spec fn occupied_text(uri: Seq<char>) -> Seq<char> {
    without_trailing(uri, '/') + "/collection.json"@
        + " already exists — the destination publishes a dataset. Tick \"Replace the dataset at the destination\" to overwrite it, or publish to another prefix."@
}

impl PublishRun {
    pub open spec fn at(self, phase: Phase) -> PublishRun {
        PublishRun { phase, ..self }
    }

    /// The run fails before anything was rewritten or sent.
    pub open spec fn failed(self, e: Seq<char>) -> (PublishRun, Step) {
        (
            self.at(Phase::Over),
            Step::Finish {
                failure: Some(e),
                drop_output: false,
                drop_collection: false,
                drop_stage: self.staged,
            },
        )
    }

    /// The upload fails: what was rewritten stays, and the message says where.
    pub open spec fn unsent(self, e: Seq<char>) -> (PublishRun, Step) {
        if self.as_is {
            self.failed(e)
        } else {
            self.failed(
                "optimized, but the upload failed: "@ + e + "\n(the local copy is at "@ + self.local@
                    + ")"@,
            )
        }
    }

    /// The data is there, its collection document is not.
    pub open spec fn undescribed(self, e: Seq<char>) -> (PublishRun, Step) {
        let said = "data uploaded, but "@ + e;
        if self.as_is {
            (
                self.at(Phase::Over),
                Step::Finish {
                    failure: Some(said),
                    drop_output: false,
                    drop_collection: true,
                    drop_stage: self.staged,
                },
            )
        } else {
            self.unsent(said)
        }
    }

    /// Everything is where it belongs. A local copy was only staged for the
    /// upload; the source of an unchanged upload stays.
    pub open spec fn succeeded(self) -> (PublishRun, Step) {
        (
            self.at(Phase::Over),
            Step::Finish {
                failure: None,
                drop_output: self.dest is Some && !self.as_is,
                drop_collection: self.dest is Some && self.stac && !self.tree,
                drop_stage: self.staged,
            },
        )
    }

    /// The output is sent: a tree only after the destination was looked at,
    /// unless it may be replaced.
    pub open spec fn send(self) -> (PublishRun, Step) {
        if !self.tree {
            (self.at(Phase::SendingFile), Step::SendFile(uri_of(self)))
        } else if self.replace {
            (self.at(Phase::SendingTree), Step::SendTree(uri_of(self)))
        } else {
            (
                self.at(Phase::Looking),
                Step::Look(without_trailing(uri_of(self), '/') + "/collection.json"@),
            )
        }
    }

    /// The collection beside a single file is looked for.
    pub open spec fn find(self) -> (PublishRun, Step) {
        match self.sibling {
            None => self.undescribed("no prefix for collection.json"@),
            Some(s) => (self.at(Phase::Finding), Step::Look(s@)),
        }
    }

    /// The first task of a run.
    pub open spec fn first(self) -> (PublishRun, Step) {
        if self.as_is {
            (self.at(Phase::SendingFile), Step::SendFile(uri_of(self)))
        } else if self.merge {
            (self.at(Phase::Merging), Step::Merge(stage_name(self.process)))
        } else {
            (self.at(Phase::Optimizing), Step::Optimize { staged: None })
        }
    }

    /// The collection document is sent.
    pub open spec fn send_collection(self) -> (PublishRun, Step) {
        match self.sibling {
            None => self.undescribed("no prefix for collection.json"@),
            Some(s) => (self.at(Phase::SendingCollection), Step::SendCollection(s@)),
        }
    }

    /// The output was written.
    pub open spec fn made(self, tree: bool) -> (PublishRun, Step) {
        let r = PublishRun { tree, ..self };
        if r.dest is None {
            r.succeeded()
        } else if r.stac {
            (r.at(Phase::Describing), Step::WriteCollection)
        } else {
            r.send()
        }
    }

    /// A task ended well, having found `found`, or written a tree.
    pub open spec fn after(self, found: Option<Seq<char>>, tree: bool) -> (PublishRun, Step) {
        match self.phase {
            Phase::Ready => self.first(),
            Phase::Merging => (
                PublishRun { staged: true, ..self }.at(Phase::Optimizing),
                Step::Optimize { staged: Some(stage_name(self.process)) },
            ),
            Phase::Optimizing => self.made(tree),
            Phase::Describing => if self.as_is {
                self.find()
            } else {
                self.send()
            },
            Phase::Looking => if found is Some {
                self.unsent(occupied_text(uri_of(self)))
            } else {
                (self.at(Phase::SendingTree), Step::SendTree(uri_of(self)))
            },
            Phase::SendingTree => self.succeeded(),
            Phase::SendingFile => if !self.stac {
                self.succeeded()
            } else if self.as_is {
                (self.at(Phase::Describing), Step::WriteCollection)
            } else {
                self.find()
            },
            Phase::Finding => match found {
                Some(t) => (self.at(Phase::Joining), Step::Join(t)),
                None => self.send_collection(),
            },
            Phase::Joining => self.send_collection(),
            Phase::SendingCollection => self.succeeded(),
            Phase::Over => self.succeeded(),
        }
    }

    /// A task failed.
    pub open spec fn after_failure(self, e: Seq<char>) -> (PublishRun, Step) {
        match self.phase {
            Phase::Merging => self.failed("merge failed: "@ + e),
            Phase::Describing => if self.as_is {
                self.failed(e)
            } else {
                self.unsent("STAC collection.json failed: "@ + e)
            },
            Phase::Looking => self.unsent("cannot check the destination: "@ + e),
            Phase::SendingTree | Phase::SendingFile => self.unsent(e),
            Phase::Finding => self.undescribed(
                "cannot check for an existing collection.json: "@ + e,
            ),
            Phase::Joining => self.undescribed(e),
            Phase::SendingCollection => self.undescribed("collection.json upload failed: "@ + e),
            _ => self.failed(e),
        }
    }

    /// What comes after an outcome.
    pub open spec fn then_do(self, o: Outcome) -> (PublishRun, Step) {
        match o {
            Outcome::Failed(e) => self.after_failure(e@),
            Outcome::Found(t) => self.after(Some(t@), false),
            Outcome::Made { tree } => self.after(None, tree),
            Outcome::Done => self.after(None, false),
        }
    }
}

/// See [`stage_name`].
fn stage_file(process: u32) -> (r: String)
    ensures
        r@ == stage_name(process),
{
    let n = dec(process as u64);
    cat3("geopq_merge_", n.as_str(), ".parquet")
}

impl PublishRun {
    /// A run about to start: `layers` are merged where there are several.
    pub fn new(
        layers: &Vec<u64>,
        dest: Option<S3Dest>,
        stac: bool,
        replace: bool,
        sibling: Option<String>,
        local: String,
        process: u32,
    ) -> (r: PublishRun)
        ensures
            r == (PublishRun {
                as_is: false,
                merge: layers@.len() > 1,
                dest,
                stac,
                replace,
                sibling,
                local,
                process,
                phase: Phase::Ready,
                tree: false,
                staged: false,
            }),
    {
        PublishRun {
            as_is: false,
            merge: layers.len() > 1,
            dest,
            stac,
            replace,
            sibling,
            local,
            process,
            phase: Phase::Ready,
            tree: false,
            staged: false,
        }
    }

    /// A run that uploads a file unchanged.
    pub fn unchanged(dest: S3Dest, stac: bool, sibling: Option<String>, local: String, process: u32) -> (r:
        PublishRun)
        ensures
            r == (PublishRun {
                as_is: true,
                merge: false,
                dest: Some(dest),
                stac,
                replace: false,
                sibling,
                local,
                process,
                phase: Phase::Ready,
                tree: false,
                staged: false,
            }),
    {
        PublishRun {
            as_is: true,
            merge: false,
            dest: Some(dest),
            stac,
            replace: false,
            sibling,
            local,
            process,
            phase: Phase::Ready,
            tree: false,
            staged: false,
        }
    }

    /// Whether points are still made of the layer's coordinate columns: not of
    /// a staged file, which has its geometry in it.
    pub fn reads_coordinates(&self, layer_does: bool) -> (r: bool)
        ensures
            r == (layer_does && !self.staged),
    {
        layer_does && !self.staged
    }
}

// --- the run ------------------------------------------------------------------------------------

impl PublishRun {
    fn end(&mut self, failure: Option<String>, drop_output: bool, drop_collection: bool) -> (r: Task)
        ensures
            *final(self) == old(self).at(Phase::Over),
            r@ == (Step::Finish {
                failure: match failure {
                    Some(t) => Some(t@),
                    None => None,
                },
                drop_output,
                drop_collection,
                drop_stage: old(self).staged,
            }),
    {
        self.phase = Phase::Over;
        Task::Finish(Ending { failure, drop_output, drop_collection, drop_stage: self.staged })
    }

    fn fail(&mut self, e: String) -> (r: Task)
        ensures
            (*final(self), r@) == old(self).failed(e@),
    {
        self.end(Some(e), false, false)
    }

    fn fail_unsent(&mut self, e: String) -> (r: Task)
        ensures
            (*final(self), r@) == old(self).unsent(e@),
    {
        if self.as_is {
            return self.fail(e);
        }
        let said = cat4(
            "optimized, but the upload failed: ",
            e.as_str(),
            "\n(the local copy is at ",
            self.local.as_str(),
        );
        let said = cat2(said.as_str(), ")");
        self.fail(said)
    }

    fn fail_undescribed(&mut self, e: String) -> (r: Task)
        ensures
            (*final(self), r@) == old(self).undescribed(e@),
    {
        let said = cat2("data uploaded, but ", e.as_str());
        if self.as_is {
            self.end(Some(said), false, true)
        } else {
            self.fail_unsent(said)
        }
    }

    fn succeed(&mut self) -> (r: Task)
        ensures
            (*final(self), r@) == old(self).succeeded(),
    {
        let drop_output = self.dest.is_some() && !self.as_is;
        let drop_collection = self.dest.is_some() && self.stac && !self.tree;
        self.end(None, drop_output, drop_collection)
    }

    fn uri(&self) -> (r: String)
        ensures
            r@ == uri_of(*self),
    {
        match &self.dest {
            Some(d) => d.uri.as_str().to_owned(),
            None => String::new(),
        }
    }

    fn start_sending(&mut self) -> (r: Task)
        ensures
            (*final(self), r@) == old(self).send(),
    {
        let uri = self.uri();
        if !self.tree {
            self.phase = Phase::SendingFile;
            Task::SendFile(uri)
        } else if self.replace {
            self.phase = Phase::SendingTree;
            Task::SendTree(uri)
        } else {
            self.phase = Phase::Looking;
            Task::Look(collection_sibling(uri.as_str()))
        }
    }

    fn start_finding(&mut self) -> (r: Task)
        ensures
            (*final(self), r@) == old(self).find(),
    {
        let place = match &self.sibling {
            Some(s) => Some(s.as_str().to_owned()),
            None => None,
        };
        match place {
            None => self.fail_undescribed("no prefix for collection.json".to_owned()),
            Some(s) => {
                self.phase = Phase::Finding;
                Task::Look(s)
            },
        }
    }

    fn start_collection(&mut self) -> (r: Task)
        ensures
            (*final(self), r@) == old(self).send_collection(),
    {
        let place = match &self.sibling {
            Some(s) => Some(s.as_str().to_owned()),
            None => None,
        };
        match place {
            None => self.fail_undescribed("no prefix for collection.json".to_owned()),
            Some(s) => {
                self.phase = Phase::SendingCollection;
                Task::SendCollection(s)
            },
        }
    }

    /// The first task of a run.
    pub fn begin(&mut self) -> (r: Task)
        ensures
            (*final(self), r@) == old(self).first(),
    {
        if self.as_is {
            self.phase = Phase::SendingFile;
            Task::SendFile(self.uri())
        } else if self.merge {
            self.phase = Phase::Merging;
            Task::Merge(stage_file(self.process))
        } else {
            self.phase = Phase::Optimizing;
            Task::Optimize { staged: None }
        }
    }

    fn on_made(&mut self, tree: bool) -> (r: Task)
        ensures
            (*final(self), r@) == old(self).made(tree),
    {
        self.tree = tree;
        if self.dest.is_none() {
            self.succeed()
        } else if self.stac {
            self.phase = Phase::Describing;
            Task::WriteCollection
        } else {
            self.start_sending()
        }
    }

    fn on_success(&mut self, found: Option<String>, tree: bool) -> (r: Task)
        ensures
            (*final(self), r@) == old(self).after(
                match found {
                    Some(t) => Some(t@),
                    None => None,
                },
                tree,
            ),
    {
        match self.phase {
            Phase::Ready => self.begin(),
            Phase::Merging => {
                self.staged = true;
                self.phase = Phase::Optimizing;
                Task::Optimize { staged: Some(stage_file(self.process)) }
            },
            Phase::Optimizing => self.on_made(tree),
            Phase::Describing => if self.as_is {
                self.start_finding()
            } else {
                self.start_sending()
            },
            Phase::Looking => {
                let uri = self.uri();
                let sibling = collection_sibling(uri.as_str());
                match refuse_replacing(sibling.as_str(), found.is_some(), false) {
                    Some(e) => self.fail_unsent(e),
                    None => {
                        self.phase = Phase::SendingTree;
                        Task::SendTree(uri)
                    },
                }
            },
            Phase::SendingTree => self.succeed(),
            Phase::SendingFile => if !self.stac {
                self.succeed()
            } else if self.as_is {
                self.phase = Phase::Describing;
                Task::WriteCollection
            } else {
                self.start_finding()
            },
            Phase::Finding => match found {
                Some(t) => {
                    self.phase = Phase::Joining;
                    Task::Join(t)
                },
                None => self.start_collection(),
            },
            Phase::Joining => self.start_collection(),
            Phase::SendingCollection => self.succeed(),
            Phase::Over => self.succeed(),
        }
    }

    fn on_failure(&mut self, e: String) -> (r: Task)
        ensures
            (*final(self), r@) == old(self).after_failure(e@),
    {
        match self.phase {
            Phase::Merging => self.fail(cat2("merge failed: ", e.as_str())),
            Phase::Describing => if self.as_is {
                self.fail(e)
            } else {
                self.fail_unsent(cat2("STAC collection.json failed: ", e.as_str()))
            },
            Phase::Looking => self.fail_unsent(cat2("cannot check the destination: ", e.as_str())),
            Phase::SendingTree | Phase::SendingFile => self.fail_unsent(e),
            Phase::Finding => self.fail_undescribed(
                cat2("cannot check for an existing collection.json: ", e.as_str()),
            ),
            Phase::Joining => self.fail_undescribed(e),
            Phase::SendingCollection => self.fail_undescribed(
                cat2("collection.json upload failed: ", e.as_str()),
            ),
            _ => self.fail(e),
        }
    }

    /// Take in the outcome of the task at hand; the next one is returned.
    pub fn step(&mut self, o: Outcome) -> (r: Task)
        ensures
            (*final(self), r@) == old(self).then_do(o),
    {
        match o {
            Outcome::Failed(e) => self.on_failure(e),
            Outcome::Found(t) => self.on_success(Some(t), false),
            Outcome::Made { tree } => self.on_success(None, tree),
            Outcome::Done => self.on_success(None, false),
        }
    }
}

/// How an upload is getting on, its sizes already in words.
pub fn upload_text(name: &str, sent: &str, total: &str) -> (r: String)
    ensures
        r@ == "uploading "@ + name@ + ": "@ + sent@ + " / "@ + total@,
{
    cat6("uploading ", name, ": ", sent, " / ", total)
}

// --- laws -------------------------------------------------------------------------------------

impl PublishRun {
    /// The phase is one the run can be in: an unchanged upload rewrites
    /// nothing, and only what has a destination is sent.
    pub open spec fn sound(self) -> bool {
        &&& self.as_is ==> self.dest is Some && !self.tree
        &&& match self.phase {
            Phase::Ready | Phase::Over => true,
            Phase::Merging | Phase::Optimizing => !self.as_is,
            Phase::Looking | Phase::SendingTree => self.dest is Some && !self.as_is,
            _ => self.dest is Some,
        }
    }
}

/// Tasks that can still come.
pub open spec fn left(p: Phase, as_is: bool) -> nat {
    match p {
        Phase::Ready => 10,
        Phase::Merging => 9,
        Phase::Optimizing => 8,
        Phase::Describing => if as_is {
            4
        } else {
            7
        },
        Phase::Looking => 6,
        Phase::SendingFile => 5,
        Phase::SendingTree => 5,
        Phase::Finding => 3,
        Phase::Joining => 2,
        Phase::SendingCollection => 1,
        Phase::Over => 0,
    }
}

/// The step ends the run, or leads into a phase with fewer tasks left than `n`.
pub open spec fn nearer(r: PublishRun, next: (PublishRun, Step), n: nat) -> bool {
    &&& next.0.as_is == r.as_is
    &&& next.0.sound()
    &&& left(next.0.phase, r.as_is) < n
    &&& next.1 is Finish <==> next.0.phase == Phase::Over
}

#[verifier::spinoff_prover]
proof fn a_failure_ends_it(r: PublishRun, e: Seq<char>)
    requires
        r.sound(),
    ensures
        nearer(r, r.after_failure(e), 1),
{
}

proof fn sending_is_nearer(r: PublishRun)
    requires
        r.sound(),
        r.dest is Some,
    ensures
        nearer(r, r.send(), 7),
        nearer(r, r.find(), 4),
        nearer(r, r.send_collection(), 2),
        nearer(r, r.succeeded(), 1),
{
}

proof fn an_output_is_nearer(r: PublishRun, tree: bool)
    requires
        r.sound(),
        r.phase == Phase::Optimizing,
    ensures
        nearer(r, r.made(tree), 8),
{
    if r.dest is Some {
        sending_is_nearer(PublishRun { tree, ..r });
    }
}

proof fn a_success_is_nearer(r: PublishRun, found: Option<Seq<char>>, tree: bool)
    requires
        r.sound(),
        r.phase != Phase::Over,
    ensures
        nearer(r, r.after(found, tree), left(r.phase, r.as_is)),
{
    if r.dest is Some {
        sending_is_nearer(r);
    }
    match r.phase {
        Phase::Optimizing => {
            an_output_is_nearer(r, tree);
        },
        Phase::Looking => {
            a_failure_ends_it(r, occupied_text(uri_of(r)));
            assert(nearer(r, r.unsent(occupied_text(uri_of(r))), 1));
        },
        _ => {},
    }
}

/// Every run ends: from a phase it can be in, each outcome leads into another
/// such phase, nearer to the end, and it is over exactly when the worker is
/// told to finish.
pub proof fn a_run_ends(r: PublishRun, o: Outcome)
    requires
        r.sound(),
        r.phase != Phase::Over,
    ensures
        r.then_do(o).0.sound(),
        r.then_do(o).0.as_is == r.as_is,
        left(r.then_do(o).0.phase, r.as_is) < left(r.phase, r.as_is),
        r.then_do(o).1 is Finish <==> r.then_do(o).0.phase == Phase::Over,
{
    match o {
        Outcome::Failed(e) => {
            a_failure_ends_it(r, e@);
        },
        Outcome::Found(t) => {
            a_success_is_nearer(r, Some(t@), false);
        },
        Outcome::Made { tree } => {
            a_success_is_nearer(r, None, tree);
        },
        Outcome::Done => {
            a_success_is_nearer(r, None, false);
        },
    }
}

/// A dataset at the destination is never replaced unasked: a tree is sent
/// only after the destination was looked at and nothing was found, or where
/// replacing was asked for. Not being able to look ends the run.
pub proof fn a_tree_is_not_sent_over_another(r: PublishRun, o: Outcome)
    requires
        !r.replace,
        r.then_do(o).1 is SendTree,
    ensures
        r.phase == Phase::Looking,
        !(o is Failed) && !(o is Found),
{
}

/// A collection published beside a file is added to, never overwritten: ours
/// is sent alone only where none was found. Not being able to look ends the
/// run with an error.
pub proof fn a_published_collection_is_added_to(r: PublishRun, o: Outcome)
    requires
        r.phase == Phase::Finding,
    ensures
        o is Found ==> r.then_do(o).1 == Step::Join(o->Found_0@),
        o is Failed ==> (r.then_do(o).1 matches Step::Finish { failure, .. } && failure is Some),
        r.then_do(o).1 is SendCollection ==> !(o is Found) && !(o is Failed),
{
}

/// The local output is removed only where it has arrived at its destination;
/// a failed upload leaves it, and the message names it.
pub proof fn a_failed_upload_keeps_the_output(r: PublishRun, o: Outcome)
    ensures
        r.then_do(o).1 matches Step::Finish { failure, drop_output, .. } ==> (drop_output ==> failure is None
            && r.dest is Some && !r.as_is),
{
}

/// What is sent goes to the destination: the data to the address given, its
/// collection document beside it; and nothing is sent where there is none.
pub proof fn data_goes_to_its_destination(r: PublishRun, o: Outcome)
    requires
        r.sound(),
        r.phase != Phase::Over,
    ensures
        r.then_do(o).1 is SendFile || r.then_do(o).1 is SendTree || r.then_do(o).1 is SendCollection
            || r.then_do(o).1 is Look ==> r.dest is Some,
        r.then_do(o).1 matches Step::SendFile(u) ==> r.dest is Some && u == r.dest->0.uri@,
        r.then_do(o).1 matches Step::SendTree(u) ==> r.dest is Some && u == r.dest->0.uri@,
        r.then_do(o).1 matches Step::SendCollection(u) ==> r.sibling is Some && u == r.sibling->0@,
        r.first().1 matches Step::SendFile(u) ==> r.dest is Some && u == r.dest->0.uri@,
{
}

/// A run starts with what it is about: an unchanged upload with sending its
/// file, several layers with merging them, one layer with rewriting it; and
/// an unchanged upload never rewrites anything.
pub proof fn a_run_starts_with_its_work(r: PublishRun, o: Outcome)
    ensures
        r.first().1 is SendFile <==> r.as_is,
        r.first().1 is Merge <==> !r.as_is && r.merge,
        r.first().1 is Optimize <==> !r.as_is && !r.merge,
        r.phase == Phase::Ready && !(o is Failed) ==> r.then_do(o) == r.first(),
        r.sound() && r.as_is && r.phase != Phase::Ready ==> !(r.then_do(o).1 is Merge) && !(r.then_do(
            o,
        ).1 is Optimize),
        r.phase == Phase::Merging && !(o is Failed) ==> r.then_do(o).1 is Optimize && r.then_do(
            o,
        ).1->staged is Some,
        r.first().1 matches Step::Optimize { staged } ==> staged is None,
{
}

/// A rewritten output with a destination gets a collection document where one
/// is wanted, before it is sent; a tree takes it along, and beside a single
/// file it follows. Without a destination the run is done.
pub proof fn a_collection_goes_with_the_data(r: PublishRun, tree: bool, o: Outcome)
    requires
        r.phase == Phase::Optimizing,
        o == (Outcome::Made { tree }),
    ensures
        r.dest is None ==> (r.then_do(o).1 matches Step::Finish { failure, drop_output, .. } && failure is None
            && !drop_output),
        r.dest is Some && r.stac ==> r.then_do(o).1 is WriteCollection,
        r.dest is Some && !r.stac && !tree ==> r.then_do(o).1 is SendFile,
        r.dest is Some && !r.stac && tree && r.replace ==> r.then_do(o).1 is SendTree,
        r.dest is Some && !r.stac && tree && !r.replace ==> r.then_do(o).1 is Look,
        r.then_do(o).0.tree == tree,
{
}

/// A run succeeds only when everything is where it belongs: an output that
/// stays local was written, a tree was sent, a file was sent, and with it its
/// collection where one is wanted.
pub proof fn a_run_succeeds_when_all_is_sent(r: PublishRun, o: Outcome)
    requires
        r.phase != Phase::Over,
    ensures
        (r.then_do(o).1 matches Step::Finish { failure, .. } && failure is None) <==> !(o is Failed) && ({
            ||| r.phase == Phase::Optimizing && r.dest is None
            ||| r.phase == Phase::SendingTree
            ||| r.phase == Phase::SendingFile && !r.stac
            ||| r.phase == Phase::SendingCollection
        }),
        r.phase == Phase::SendingFile && r.stac && !(o is Failed) ==> if r.as_is {
            r.then_do(o).1 is WriteCollection
        } else {
            r.then_do(o).1 is Look || r.sibling is None
        },
        r.phase == Phase::Describing && !(o is Failed) && r.as_is && r.sibling is Some ==> r.then_do(
            o,
        ).1 is Look,
        r.phase == Phase::Finding && o is Done && r.sibling is Some ==> r.then_do(o).1 is SendCollection,
        r.phase == Phase::Joining && !(o is Failed) && r.sibling is Some ==> r.then_do(o).1 is SendCollection,
{
}

/// A task that fails ends the run, and what it said is in the message.
pub proof fn a_failure_is_told(r: PublishRun, e: String)
    requires
        r.phase != Phase::Over,
    ensures
        r.then_do(Outcome::Failed(e)).1 is Finish,
        r.then_do(Outcome::Failed(e)).1->failure is Some,
        crate::text::occurs(e@, r.then_do(Outcome::Failed(e)).1->failure->0),
        r.then_do(Outcome::Failed(e)).1->drop_stage == r.staged,
        !r.then_do(Outcome::Failed(e)).1->drop_output,
{
    let said = r.then_do(Outcome::Failed(e)).1->failure->0;
    let here = match r.phase {
        Phase::Merging => "merge failed: "@,
        Phase::Describing => if r.as_is {
            Seq::empty()
        } else {
            "optimized, but the upload failed: "@ + "STAC collection.json failed: "@
        },
        Phase::Looking => if r.as_is {
            "cannot check the destination: "@
        } else {
            "optimized, but the upload failed: "@ + "cannot check the destination: "@
        },
        Phase::SendingTree | Phase::SendingFile => if r.as_is {
            Seq::empty()
        } else {
            "optimized, but the upload failed: "@
        },
        Phase::Finding => if r.as_is {
            "data uploaded, but "@ + "cannot check for an existing collection.json: "@
        } else {
            "optimized, but the upload failed: "@ + "data uploaded, but "@
                + "cannot check for an existing collection.json: "@
        },
        Phase::Joining => if r.as_is {
            "data uploaded, but "@
        } else {
            "optimized, but the upload failed: "@ + "data uploaded, but "@
        },
        Phase::SendingCollection => if r.as_is {
            "data uploaded, but "@ + "collection.json upload failed: "@
        } else {
            "optimized, but the upload failed: "@ + "data uploaded, but "@
                + "collection.json upload failed: "@
        },
        _ => Seq::empty(),
    };
    let n = here.len() as int;
    assert(said.subrange(n, n + e@.len()) =~= e@);
    assert(crate::text::occurs_at(e@, said, n));
}

/// A published dataset is never overwritten unasked: a tree is sent only where
/// replacing was asked for, or where nothing was found at the destination; what
/// is found there refuses the upload, and the message names it.
pub proof fn nothing_is_overwritten_unasked(r: PublishRun, o: Outcome)
    requires
        r.phase != Phase::Over,
    ensures
        r.then_do(o).1 is SendTree ==> r.replace || (r.phase == Phase::Looking && !(o is Found)),
        r.phase == Phase::Looking && o is Found ==> r.then_do(o).1 is Finish && r.then_do(
            o,
        ).1->failure is Some,
        r.phase == Phase::Looking && o is Found && r.dest is Some ==> crate::text::occurs(
            without_trailing(r.dest->0.uri@, '/') + "/collection.json"@,
            r.then_do(o).1->failure->0,
        ),
        r.phase == Phase::Finding && (o matches Outcome::Found(t)) ==> (r.then_do(o).1 matches Step::Join(t)
            && t == o->Found_0@),
{
    if r.phase == Phase::Looking && o is Found && r.dest is Some {
        let place = without_trailing(r.dest->0.uri@, '/') + "/collection.json"@;
        let said = r.then_do(o).1->failure->0;
        let at = if r.as_is {
            0
        } else {
            "optimized, but the upload failed: "@.len() as int
        };
        assert(said.subrange(at, at + place.len()) =~= place);
        assert(crate::text::occurs_at(place, said, at));
    }
}

/// A run that succeeds leaves no copies behind: what was only staged for an
/// upload goes, the source of an unchanged upload and a local output stay, and
/// so does the document inside a tree.
pub proof fn only_copies_are_dropped(r: PublishRun, o: Outcome)
    requires
        !(o is Failed),
        r.phase == Phase::SendingTree || r.phase == Phase::SendingCollection || (r.phase
            == Phase::SendingFile && !r.stac),
    ensures
        r.then_do(o).0.phase == Phase::Over,
        r.then_do(o).1 == (Step::Finish {
            failure: None,
            drop_output: r.dest is Some && !r.as_is,
            drop_collection: r.dest is Some && r.stac && !r.tree,
            drop_stage: r.staged,
        }),
{
}

/// What could not be sent stays, and the message says where; only the document
/// written beside the source of an unchanged upload goes, once the data is
/// sent.
pub proof fn what_is_not_sent_stays(r: PublishRun, e: String)
    requires
        r.phase == Phase::SendingTree || r.phase == Phase::SendingFile || r.phase == Phase::Looking
            || r.phase == Phase::SendingCollection || r.phase == Phase::Finding || r.phase
            == Phase::Joining,
    ensures
        ({
            let step = r.then_do(Outcome::Failed(e)).1;
            &&& step is Finish && !step->drop_output
            &&& step->drop_collection <==> r.as_is && (r.phase == Phase::SendingCollection || r.phase
                == Phase::Finding || r.phase == Phase::Joining)
            &&& !r.as_is ==> ("\n(the local copy is at "@ + r.local@ + ")"@).is_suffix_of(
                step->failure->0,
            )
        }),
{
    let said = r.then_do(Outcome::Failed(e)).1->failure->0;
    let end = "\n(the local copy is at "@ + r.local@ + ")"@;
    if !r.as_is {
        assert(said.subrange(said.len() - end.len(), said.len() as int) =~= end);
    }
}

} // verus!
