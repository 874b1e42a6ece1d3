//! A run of the embedding, as a session: it asks for one thing after another
//! from the outside, and each reply takes it further.
use crate::collect::{collect, collected, law_collected_are_files, Entry};
use crate::headers::{
    all_names, core_dir_candidates, core_dirs, dir_reported_by, header_dir_candidates, header_dirs,
    headers_query, headers_query_args, include_dirs, qmake_candidates, qmake_names,
    qt_include_dirs, reported_dir, ProgramOutput,
};
use crate::path::{
    absolute_path, has_file_name, is_absolute, join, joined, make_absolute, starts_at_root,
};
use crate::script::{
    all_have_names, build_static_lib, compile_rcc_core, compile_ui_core, empty_archive_steps,
    empty_lib, empty_steps, form_error, form_steps, models, rejection, rejection_text,
    resource_steps, Job, Step, StepModel,
};
use crate::text::{opt_text, texts};
use crate::tools::{
    candidate_files, found_tool, rcc_candidates, rcc_names, search_list, uic_candidates, uic_names,
    unix_tools, which, QtTools, ToolsModel,
};
use vstd::prelude::*;

verus! {

/// What a session asks for.
#[derive(Debug)]
pub enum Request<'a> {
    /// The value of an environment variable: [`Reply::Env`].
    Env { name: &'static str },
    /// The current directory: [`Reply::CurrentDir`] or [`Reply::Failed`].
    CurrentDir,
    /// The listing of a directory and of all below it: [`Reply::Tree`].
    ReadTree { dir: String },
    /// Which of the paths are files that can be run: [`Reply::Answers`].
    CanRun { paths: Vec<String> },
    /// The names of what is in each of the directories: [`Reply::Listings`].
    ListDirs { dirs: Vec<String> },
    /// Which of the paths exist: [`Reply::Answers`].
    Exist { paths: Vec<String> },
    /// A run of a program for what it prints: [`Reply::Output`].
    Query { program: String, args: Vec<String> },
    /// One step: [`Reply::Done`], [`Reply::Refused`] or [`Reply::Failed`].
    Perform { step: &'a Step },
    /// Nothing: the session is over.
    Finished { result: &'a Result<(), String> },
}

/// What a [`Request`] says.
pub enum RequestModel {
    Env { name: Seq<char> },
    CurrentDir,
    ReadTree { dir: Seq<char> },
    CanRun { paths: Seq<Seq<char>> },
    ListDirs { dirs: Seq<Seq<char>> },
    Exist { paths: Seq<Seq<char>> },
    Query { program: Seq<char>, args: Seq<Seq<char>> },
    Perform { step: StepModel },
    Finished { result: Result<(), Seq<char>> },
}

/// What a result says.
pub open spec fn outcome(result: Result<(), String>) -> Result<(), Seq<char>> {
    match result {
        Ok(()) => Ok(()),
        Err(e) => Err(e@),
    }
}

impl<'a> View for Request<'a> {
    type V = RequestModel;

    open spec fn view(&self) -> RequestModel {
        match *self {
            Request::Env { name } => RequestModel::Env { name: name@ },
            Request::CurrentDir => RequestModel::CurrentDir,
            Request::ReadTree { dir } => RequestModel::ReadTree { dir: dir@ },
            Request::CanRun { paths } => RequestModel::CanRun { paths: texts(paths@) },
            Request::ListDirs { dirs } => RequestModel::ListDirs { dirs: texts(dirs@) },
            Request::Exist { paths } => RequestModel::Exist { paths: texts(paths@) },
            Request::Query { program, args } => RequestModel::Query {
                program: program@,
                args: texts(args@),
            },
            Request::Perform { step } => RequestModel::Perform { step: step@ },
            Request::Finished { result } => RequestModel::Finished { result: outcome(*result) },
        }
    }
}

/// What came of a request.
#[derive(Debug)]
pub enum Reply {
    /// The value of the variable, `None` where it is not set.
    Env(Option<String>),
    /// The path of the current directory, from the root directory on.
    CurrentDir(String),
    /// The listing of the directory, `None` where it does not exist.
    Tree(Option<Vec<Entry>>),
    /// One answer for each path.
    Answers(Vec<bool>),
    /// The names for each directory, none where it cannot be read.
    Listings(Vec<Vec<String>>),
    /// What the program left behind, `None` where it could not be started.
    Output(Option<ProgramOutput>),
    /// The step was done.
    Done,
    /// The program ran and ended without success.
    Refused,
    /// What was asked for could not be done, for the reason that is given.
    Failed(String),
}

/// Where a session goes behind the last of its steps.
pub enum EndModel {
    /// It ends well.
    Success,
    /// It goes on to the header directories.
    Headers,
    /// It ends in an error.
    Error { reason: Seq<char> },
}

/// How far a session is.
pub enum StageModel {
    /// The package directory is asked for.
    Root,
    /// The current directory is asked for; the package directory is seen from
    /// there.
    CurrentDir { dir: Seq<char> },
    /// The files are asked for.
    Files,
    /// The variable `PATH` is asked for.
    PathVar { files: Seq<Seq<char>> },
    /// `uic` is looked for.
    Uic { files: Seq<Seq<char>>, path_var: Option<Seq<char>> },
    /// `rcc` is looked for; `uic` is the one that was found.
    Rcc { files: Seq<Seq<char>>, path_var: Option<Seq<char>>, uic: Seq<char> },
    /// The first `done` of the steps were done.
    Perform { steps: Seq<StepModel>, done: nat, end: EndModel },
    /// The `tried`-th `qmake` is asked.
    Qmake { tried: nat },
    /// The directory that the `tried`-th `qmake` reports is looked for.
    HeaderDir { tried: nat, dir: Seq<char> },
    /// The version directories of the headers at `base` are asked for.
    CoreDirs { base: Seq<char> },
    /// The include directories below `base` are looked for. `listings` are the
    /// names in the directories that may hold version directories.
    IncludeDirs { base: Seq<char>, listings: Seq<Seq<Seq<char>>> },
    /// The session is over.
    Finished { result: Result<(), Seq<char>> },
}

/// What a session holds.
pub struct EmbedModel {
    pub job: Job,
    pub tools: ToolsModel,
    /// The package directory, once it is known.
    pub root: Seq<char>,
    pub stage: StageModel,
}

impl EmbedModel {
    /// A session that nothing was replied to yet.
    pub open spec fn start(job: Job, tools: ToolsModel) -> EmbedModel {
        EmbedModel { job, tools, root: Seq::empty(), stage: StageModel::Root }
    }

    /// Whether there is something to do at each stage, and the paths are whole:
    /// once the files are asked for, the package directory is absolute, and so is
    /// each file that was found, which has a file name.
    pub open spec fn is_valid(self) -> bool {
        &&& match self.stage {
            StageModel::Root => true,
            StageModel::CurrentDir { .. } => true,
            StageModel::Finished { .. } => true,
            _ => is_absolute(self.root),
        }
        &&& match self.stage {
            StageModel::PathVar { files } => are_whole(files),
            StageModel::Uic { files, .. } => are_whole(files),
            StageModel::Rcc { files, .. } => are_whole(files),
            StageModel::Perform { steps, done, .. } => done < steps.len(),
            StageModel::Qmake { tried } => tried < qmake_names().len(),
            StageModel::HeaderDir { tried, .. } => tried < qmake_names().len(),
            _ => true,
        }
    }

    /// The session at another stage.
    pub open spec fn at(self, stage: StageModel) -> EmbedModel {
        EmbedModel { stage, ..self }
    }

    /// The session with an empty archive to make.
    pub open spec fn at_empty(self) -> EmbedModel {
        self.at(
            StageModel::Perform {
                steps: empty_steps(self.root, self.job),
                done: 0,
                end: EndModel::Headers,
            },
        )
    }

    /// The session when the `tried`-th `qmake` was of no use: the next one is
    /// asked, and behind the last one the headers stay unknown.
    pub open spec fn at_next_qmake(self, tried: nat) -> EmbedModel {
        if tried + 1 < qmake_names().len() {
            self.at(StageModel::Qmake { tried: tried + 1 })
        } else {
            self.at(StageModel::CoreDirs { base: Seq::empty() })
        }
    }

    /// The session with a package directory.
    pub open spec fn in_package(self, root: Seq<char>) -> EmbedModel {
        EmbedModel { root, stage: StageModel::Files, ..self }
    }

    /// The directory that is scanned for files.
    pub open spec fn source_dir(self) -> Seq<char> {
        joined(self.root, self.job.dir())
    }

    /// What is asked for.
    pub open spec fn request(self) -> RequestModel {
        match self.stage {
            StageModel::Root => RequestModel::Env { name: "CARGO_MANIFEST_DIR"@ },
            StageModel::CurrentDir { .. } => RequestModel::CurrentDir,
            StageModel::Files => RequestModel::ReadTree { dir: self.source_dir() },
            StageModel::PathVar { .. } => RequestModel::Env { name: "PATH"@ },
            StageModel::Uic { path_var, .. } => RequestModel::CanRun {
                paths: search_list(self.tools, uic_names(), path_var),
            },
            StageModel::Rcc { path_var, .. } => RequestModel::CanRun {
                paths: search_list(self.tools, rcc_names(), path_var),
            },
            StageModel::Perform { steps, done, .. } => RequestModel::Perform {
                step: steps[done as int],
            },
            StageModel::Qmake { tried } => RequestModel::Query {
                program: qmake_names()[tried as int],
                args: headers_query(),
            },
            StageModel::HeaderDir { dir, .. } => RequestModel::Exist { paths: seq![dir] },
            StageModel::CoreDirs { base } => RequestModel::ListDirs { dirs: core_dirs(base) },
            StageModel::IncludeDirs { base, listings } => RequestModel::Exist {
                paths: header_dirs(base, listings),
            },
            StageModel::Finished { result } => RequestModel::Finished { result },
        }
    }

    /// The session after a reply. A reply to another kind of request than the
    /// one that was made leaves it where it is.
    pub open spec fn resume(self, reply: Reply) -> EmbedModel {
        match (self.stage, reply) {
            (StageModel::Root, Reply::Env(value)) => {
                let dir = package_dir(opt_text(value));
                if is_absolute(dir) {
                    self.in_package(dir)
                } else {
                    self.at(StageModel::CurrentDir { dir })
                }
            },
            (StageModel::CurrentDir { dir }, Reply::CurrentDir(current)) => if is_absolute(
                current@,
            ) {
                self.in_package(absolute_path(current@, dir))
            } else {
                self
            },
            (StageModel::CurrentDir { .. }, Reply::Failed(reason)) => self.at(
                StageModel::Finished { result: Err(reason@) },
            ),
            (StageModel::Files, Reply::Tree(tree)) => {
                let files = collected(self.source_dir(), tree, self.job.ext());
                if files.len() == 0 || self.tools.noop {
                    self.at_empty()
                } else {
                    self.at(StageModel::PathVar { files })
                }
            },
            (StageModel::PathVar { files }, Reply::Env(value)) => match self.job {
                Job::Forms => self.at(StageModel::Uic { files, path_var: opt_text(value) }),
                Job::Resources => self.at(
                    StageModel::Rcc { files, path_var: opt_text(value), uic: Seq::empty() },
                ),
            },
            (StageModel::Uic { files, path_var }, Reply::Answers(answers)) => match found_tool(
                self.tools,
                uic_names(),
                path_var,
                answers@,
            ) {
                Some(uic) => self.at(StageModel::Rcc { files, path_var, uic }),
                None => self.at_empty(),
            },
            (StageModel::Rcc { files, path_var, uic }, Reply::Answers(answers)) => match found_tool(
                self.tools,
                rcc_names(),
                path_var,
                answers@,
            ) {
                Some(rcc) => self.at(
                    script_stage(self.job, self.root, self.source_dir(), files, uic, rcc),
                ),
                None => self.at_empty(),
            },
            (StageModel::Perform { steps, done, end }, Reply::Done) => self.at(
                if done + 1 < steps.len() {
                    StageModel::Perform { steps, done: done + 1, end }
                } else {
                    stage_behind(end)
                },
            ),
            (StageModel::Perform { steps, done, .. }, Reply::Refused) => match steps[done as int] {
                StepModel::Run { program, subject, .. } => self.at(
                    StageModel::Finished { result: Err(rejection(program, subject)) },
                ),
                _ => self,
            },
            (StageModel::Perform { .. }, Reply::Failed(reason)) => self.at(
                StageModel::Finished { result: Err(reason@) },
            ),
            (StageModel::Qmake { tried }, Reply::Output(Some(output))) => match reported_dir(
                output,
            ) {
                Some(dir) => self.at(StageModel::HeaderDir { tried, dir }),
                None => self.at_next_qmake(tried),
            },
            (StageModel::Qmake { .. }, Reply::Output(None)) => self.at(
                StageModel::CoreDirs { base: Seq::empty() },
            ),
            (StageModel::HeaderDir { tried, dir }, Reply::Answers(answers)) => if answers@.len()
                > 0 && answers@[0] {
                self.at(StageModel::CoreDirs { base: dir })
            } else {
                self.at_next_qmake(tried)
            },
            (StageModel::CoreDirs { base }, Reply::Listings(listings)) => self.at(
                StageModel::IncludeDirs { base, listings: all_names(listings@) },
            ),
            (StageModel::IncludeDirs { base, listings }, Reply::Answers(answers)) => self.at(
                StageModel::Perform {
                    steps: empty_archive_steps(
                        self.root,
                        self.job,
                        include_dirs(base, header_dirs(base, listings), answers@),
                    ),
                    done: 0,
                    end: EndModel::Success,
                },
            ),
            _ => self,
        }
    }
}

/// Whether the files have whole paths: absolute ones that end in a file name.
pub open spec fn are_whole(files: Seq<Seq<char>>) -> bool {
    &&& all_have_names(files)
    &&& forall|i: int| 0 <= i < files.len() ==> is_absolute(#[trigger] files[i])
}

/// The stage at which the files are embedded with the tools that were found.
pub open spec fn script_stage(
    job: Job,
    root: Seq<char>,
    dir: Seq<char>,
    files: Seq<Seq<char>>,
    uic: Seq<char>,
    rcc: Seq<char>,
) -> StageModel {
    match job {
        Job::Forms => StageModel::Perform {
            steps: form_steps(root, dir, files, uic, rcc, root),
            done: 0,
            end: match form_error(dir, files) {
                Some(reason) => EndModel::Error { reason },
                None => EndModel::Success,
            },
        },
        Job::Resources => StageModel::Perform {
            steps: resource_steps(root, dir, files, rcc),
            done: 0,
            end: EndModel::Success,
        },
    }
}

/// The stage behind the last of the steps.
pub open spec fn stage_behind(end: EndModel) -> StageModel {
    match end {
        EndModel::Success => StageModel::Finished { result: Ok(()) },
        EndModel::Headers => StageModel::Qmake { tried: 0 },
        EndModel::Error { reason } => StageModel::Finished { result: Err(reason) },
    }
}

/// The package directory: the value of `CARGO_MANIFEST_DIR`, or the current
/// directory where it is not set.
pub open spec fn package_dir(value: Option<Seq<char>>) -> Seq<char> {
    match value {
        Some(dir) => dir,
        None => "."@,
    }
}

/// The package directory: the value of `CARGO_MANIFEST_DIR`, or the current
/// directory where it is not set.
pub fn manifest_dir(value: Option<String>) -> (r: String)
    ensures
        r@ == package_dir(opt_text(value)),
{
    match value {
        Some(dir) => dir,
        None => ".".to_owned(),
    }
}

#[derive(Debug)]
enum End {
    Success,
    Headers,
    Error { reason: String },
}

impl End {
    spec fn model(self) -> EndModel {
        match self {
            End::Success => EndModel::Success,
            End::Headers => EndModel::Headers,
            End::Error { reason } => EndModel::Error { reason: reason@ },
        }
    }
}

#[derive(Debug)]
enum Stage {
    Root,
    CurrentDir { dir: String },
    Files,
    PathVar { files: Vec<String> },
    Uic { files: Vec<String>, path_var: Option<String> },
    Rcc { files: Vec<String>, path_var: Option<String>, uic: String },
    Perform { steps: Vec<Step>, done: usize, end: End },
    Qmake { tried: usize },
    HeaderDir { tried: usize, dir: String },
    CoreDirs { base: String },
    IncludeDirs { base: String, listings: Vec<Vec<String>> },
    Finished { result: Result<(), String> },
}

impl Stage {
    spec fn model(self) -> StageModel {
        match self {
            Stage::Root => StageModel::Root,
            Stage::CurrentDir { dir } => StageModel::CurrentDir { dir: dir@ },
            Stage::Files => StageModel::Files,
            Stage::PathVar { files } => StageModel::PathVar { files: texts(files@) },
            Stage::Uic { files, path_var } => StageModel::Uic {
                files: texts(files@),
                path_var: opt_text(path_var),
            },
            Stage::Rcc { files, path_var, uic } => StageModel::Rcc {
                files: texts(files@),
                path_var: opt_text(path_var),
                uic: uic@,
            },
            Stage::Perform { steps, done, end } => StageModel::Perform {
                steps: models(steps@),
                done: done as nat,
                end: end.model(),
            },
            Stage::Qmake { tried } => StageModel::Qmake { tried: tried as nat },
            Stage::HeaderDir { tried, dir } => StageModel::HeaderDir {
                tried: tried as nat,
                dir: dir@,
            },
            Stage::CoreDirs { base } => StageModel::CoreDirs { base: base@ },
            Stage::IncludeDirs { base, listings } => StageModel::IncludeDirs {
                base: base@,
                listings: all_names(listings@),
            },
            Stage::Finished { result } => StageModel::Finished { result: outcome(result) },
        }
    }
}

/// A run of the embedding.
///
/// Ask it for its [`request`](Embed::request), do what it says, hand what came
/// of it to [`resume`](Embed::resume), and so on until the request is
/// [`Request::Finished`].
#[derive(Debug)]
pub struct Embed {
    job: Job,
    tools: QtTools,
    root: String,
    stage: Stage,
}

impl View for Embed {
    type V = EmbedModel;

    closed spec fn view(&self) -> EmbedModel {
        EmbedModel {
            job: self.job,
            tools: self.tools@,
            root: self.root@,
            stage: self.stage.model(),
        }
    }
}

/// Namespace for `.ui` file embedding.
pub struct Ui;

/// Namespace for `.qrc` file embedding.
pub struct Rcc;

impl Ui {
    /// A session that compiles every `.ui` file under `<package>/ui` into the
    /// binary, using tools discovered from `PATH`.
    pub fn embed() -> (r: Embed)
        ensures
            r@ == EmbedModel::start(Job::Forms, unix_tools()),
    {
        Ui::embed_with(QtTools::unix())
    }

    /// Like [`Self::embed`] but with an explicit Qt tool configuration.
    pub fn embed_with(tools: QtTools) -> (r: Embed)
        ensures
            r@ == EmbedModel::start(Job::Forms, tools@),
    {
        compile_ui(tools)
    }
}

impl Rcc {
    /// A session that compiles every `.qrc` file under `<package>/resources`
    /// into the binary, using tools discovered from `PATH`.
    pub fn embed() -> (r: Embed)
        ensures
            r@ == EmbedModel::start(Job::Resources, unix_tools()),
    {
        Rcc::embed_with(QtTools::unix())
    }

    /// Like [`Self::embed`] but with an explicit Qt tool configuration.
    pub fn embed_with(tools: QtTools) -> (r: Embed)
        ensures
            r@ == EmbedModel::start(Job::Resources, tools@),
    {
        compile_rcc(tools)
    }
}

fn compile_ui(tools: QtTools) -> (r: Embed)
    ensures
        r@ == EmbedModel::start(Job::Forms, tools@),
{
    Embed { job: Job::Forms, tools, root: String::new(), stage: Stage::Root }
}

fn compile_rcc(tools: QtTools) -> (r: Embed)
    ensures
        r@ == EmbedModel::start(Job::Resources, tools@),
{
    Embed { job: Job::Resources, tools, root: String::new(), stage: Stage::Root }
}

impl Embed {
    #[verifier::type_invariant]
    spec fn inv(self) -> bool {
        self@.is_valid()
    }

    /// What is asked for.
    pub fn request(&self) -> (r: Request<'_>)
        ensures
            r@ == self@.request(),
    {
        proof {
            use_type_invariant(self);
        }
        match &self.stage {
            Stage::Root => Request::Env { name: "CARGO_MANIFEST_DIR" },
            Stage::CurrentDir { dir: _ } => Request::CurrentDir,
            Stage::Files => Request::ReadTree {
                dir: join(self.root.as_str(), self.job.source_dir()),
            },
            Stage::PathVar { files: _ } => Request::Env { name: "PATH" },
            Stage::Uic { files: _, path_var } => Request::CanRun {
                paths: candidate_files(&self.tools, &uic_candidates(), path_var),
            },
            Stage::Rcc { files: _, path_var, uic: _ } => Request::CanRun {
                paths: candidate_files(&self.tools, &rcc_candidates(), path_var),
            },
            Stage::Perform { steps, done, end: _ } => Request::Perform {
                step: &steps[*done],
            },
            Stage::Qmake { tried } => {
                let names = qmake_candidates();
                assert(texts(names@).len() == names@.len());
                Request::Query { program: names[*tried].clone(), args: headers_query_args() }
            },
            Stage::HeaderDir { tried: _, dir } => {
                let paths = vec![dir.clone()];
                assert(texts(paths@) == seq![dir@]);
                Request::Exist { paths }
            },
            Stage::CoreDirs { base } => Request::ListDirs {
                dirs: core_dir_candidates(base.as_str()),
            },
            Stage::IncludeDirs { base, listings } => Request::Exist {
                paths: header_dir_candidates(base.as_str(), listings),
            },
            Stage::Finished { result } => Request::Finished { result },
        }
    }

    /// The session after a reply. A reply to another kind of request than the
    /// one that was made leaves it where it is.
    pub fn resume(self, reply: Reply) -> (r: Embed)
        ensures
            r@ == self@.resume(reply),
    {
        proof {
            use_type_invariant(&self);
        }
        let Embed { job, tools, root, stage } = self;
        match (stage, reply) {
            (Stage::Root, Reply::Env(value)) => {
                let dir = manifest_dir(value);
                if starts_at_root(dir.as_str()) {
                    Embed { job, tools, root: dir, stage: Stage::Files }
                } else {
                    Embed { job, tools, root, stage: Stage::CurrentDir { dir } }
                }
            },
            (Stage::CurrentDir { dir }, Reply::CurrentDir(current)) => {
                if starts_at_root(current.as_str()) {
                    let root = make_absolute(current.as_str(), dir.as_str());
                    Embed { job, tools, root, stage: Stage::Files }
                } else {
                    Embed { job, tools, root, stage: Stage::CurrentDir { dir } }
                }
            },
            (stage, reply) => {
                let stage = next_stage(job, &tools, root.as_str(), stage, reply);
                Embed { job, tools, root, stage }
            },
        }
    }
}

spec fn session(job: Job, tools: ToolsModel, root: Seq<char>, stage: Stage) -> EmbedModel {
    EmbedModel { job, tools, root, stage: stage.model() }
}

/// What comes after a reply that tells nothing about the package directory.
#[verifier::rlimit(30)]
fn next_stage(job: Job, tools: &QtTools, root: &str, stage: Stage, reply: Reply) -> (r: Stage)
    requires
        session(job, tools@, root@, stage).is_valid(),
        !(stage is Root && reply is Env),
        !(stage is CurrentDir && reply is CurrentDir),
    ensures
        session(job, tools@, root@, r) == session(job, tools@, root@, stage).resume(reply),
        session(job, tools@, root@, r).is_valid(),
{
    match (stage, reply) {
        (Stage::CurrentDir { .. }, Reply::Failed(reason)) => Stage::Finished {
            result: Err(reason),
        },
        (Stage::Files, Reply::Tree(tree)) => {
            let dir = join(root, job.source_dir());
            let files = collect(dir.as_str(), &tree, job.extension());
            proof {
                lemma_collected_are_whole(root@, tree, job);
            }
            if files.len() == 0 || tools.is_noop() {
                empty_stage(root, job)
            } else {
                Stage::PathVar { files }
            }
        },
        (Stage::PathVar { files }, Reply::Env(path_var)) => {
            match job {
                Job::Forms => Stage::Uic { files, path_var },
                Job::Resources => Stage::Rcc { files, path_var, uic: String::new() },
            }
        },
        (Stage::Uic { files, path_var }, Reply::Answers(answers)) => {
            match which(tools, &uic_candidates(), &path_var, &answers) {
                Some(uic) => Stage::Rcc { files, path_var, uic },
                None => empty_stage(root, job),
            }
        },
        (Stage::Rcc { files, path_var, uic }, Reply::Answers(answers)) => {
            match which(tools, &rcc_candidates(), &path_var, &answers) {
                Some(rcc) => {
                    let dir = join(root, job.source_dir());
                    embedding_stage(job, root, dir.as_str(), &files, uic.as_str(), rcc.as_str())
                },
                None => empty_stage(root, job),
            }
        },
        (Stage::Perform { steps, done, end }, reply) => stage_after_step(steps, done, end, reply),
        (stage, reply) => stage_after_header(job, tools, root, stage, reply),
    }
}

/// What comes after the reply to a step.
fn stage_after_step(steps: Vec<Step>, done: usize, end: End, reply: Reply) -> (r: Stage)
    requires
        done < steps@.len(),
    ensures
        forall|m: EmbedModel|
            m.stage == (StageModel::Perform {
                steps: models(steps@),
                done: done as nat,
                end: end.model(),
            }) ==> #[trigger] m.resume(reply) == m.at(r.model()),
        match r.model() {
            StageModel::Perform { steps, done, .. } => done < steps.len(),
            StageModel::Qmake { tried } => tried == 0,
            StageModel::Finished { .. } => true,
            _ => false,
        },
{
    match reply {
        Reply::Done => {
            if steps.len() - done > 1 {
                Stage::Perform { steps, done: done + 1, end }
            } else {
                match end {
                    End::Success => Stage::Finished { result: Ok(()) },
                    End::Headers => Stage::Qmake { tried: 0 },
                    End::Error { reason } => Stage::Finished { result: Err(reason) },
                }
            }
        },
        Reply::Refused => {
            let text = match &steps[done] {
                Step::Run { program, subject, .. } => Some(
                    rejection_text(program.as_str(), subject.as_str()),
                ),
                _ => None,
            };
            match text {
                Some(e) => Stage::Finished { result: Err(e) },
                None => Stage::Perform { steps, done, end },
            }
        },
        Reply::Failed(reason) => Stage::Finished { result: Err(reason) },
        _ => Stage::Perform { steps, done, end },
    }
}

/// What comes after a reply about the header directories.
fn stage_after_header(job: Job, tools: &QtTools, root: &str, stage: Stage, reply: Reply) -> (r:
    Stage)
    requires
        session(job, tools@, root@, stage).is_valid(),
        match stage {
            Stage::Root => !(reply is Env),
            Stage::CurrentDir { .. } => !(reply is CurrentDir) && !(reply is Failed),
            Stage::Files => !(reply is Tree),
            Stage::PathVar { .. } => !(reply is Env),
            Stage::Uic { .. } => !(reply is Answers),
            Stage::Rcc { .. } => !(reply is Answers),
            Stage::Perform { .. } => false,
            _ => true,
        },
    ensures
        session(job, tools@, root@, r) == session(job, tools@, root@, stage).resume(reply),
        session(job, tools@, root@, r).is_valid(),
{
    match (stage, reply) {
        (Stage::Qmake { tried }, Reply::Output(Some(output))) => {
            match dir_reported_by(&output) {
                Some(dir) => Stage::HeaderDir { tried, dir },
                None => next_qmake(tried),
            }
        },
        (Stage::Qmake { .. }, Reply::Output(None)) => Stage::CoreDirs { base: String::new() },
        (Stage::HeaderDir { tried, dir }, Reply::Answers(answers)) => {
            if answers.len() > 0 && answers[0] {
                Stage::CoreDirs { base: dir }
            } else {
                next_qmake(tried)
            }
        },
        (Stage::CoreDirs { base }, Reply::Listings(listings)) => Stage::IncludeDirs {
            base,
            listings,
        },
        (Stage::IncludeDirs { base, listings }, Reply::Answers(answers)) => {
            let includes = qt_include_dirs(base.as_str(), &listings, &answers);
            let steps = build_static_lib(root, job, includes);
            Stage::Perform { steps, done: 0, end: End::Success }
        },
        (stage, _) => stage,
    }
}

/// The files that are found below an absolute directory have whole paths.
pub proof fn lemma_collected_are_whole(root: Seq<char>, tree: Option<Vec<Entry>>, job: Job)
    requires
        is_absolute(root),
    ensures
        are_whole(collected(joined(root, job.dir()), tree, job.ext())),
{
    let dir = joined(root, job.dir());
    let files = collected(dir, tree, job.ext());
    reveal_strlit("ui");
    reveal_strlit("qrc");
    assert("ui"@.len() == 2 && "ui"@.last() == 'i');
    assert("qrc"@.len() == 3 && "qrc"@.last() == 'c');
    assert(is_absolute(dir));
    assert forall|i: int| 0 <= i < files.len() implies has_file_name(#[trigger] files[i])
        && is_absolute(files[i]) by {
        law_collected_are_files(dir, tree, job.ext(), i);
    }
}

fn embedding_stage(
    job: Job,
    root: &str,
    dir: &str,
    files: &Vec<String>,
    uic: &str,
    rcc: &str,
) -> (r: Stage)
    requires
        is_absolute(root@),
        all_have_names(texts(files@)),
    ensures
        r.model() == script_stage(job, root@, dir@, texts(files@), uic@, rcc@),
        r.model() matches StageModel::Perform { steps, done, .. } && done < steps.len(),
{
    match job {
        Job::Forms => {
            let (steps, error) = compile_ui_core(root, dir, files, uic, rcc, root);
            let end = match error {
                Some(reason) => End::Error { reason },
                None => End::Success,
            };
            Stage::Perform { steps, done: 0, end }
        },
        Job::Resources => {
            let steps = compile_rcc_core(root, dir, files, rcc);
            Stage::Perform { steps, done: 0, end: End::Success }
        },
    }
}

fn empty_stage(root: &str, job: Job) -> (r: Stage)
    ensures
        r.model() == (StageModel::Perform {
            steps: empty_steps(root@, job),
            done: 0,
            end: EndModel::Headers,
        }),
        empty_steps(root@, job).len() > 0,
{
    Stage::Perform { steps: empty_lib(root, job), done: 0, end: End::Headers }
}

fn next_qmake(tried: usize) -> (r: Stage)
    requires
        tried < qmake_names().len(),
    ensures
        r.model() == (if tried + 1 < qmake_names().len() {
            StageModel::Qmake { tried: (tried + 1) as nat }
        } else {
            StageModel::CoreDirs { base: Seq::empty() }
        }),
{
    let names = qmake_candidates();
    assert(texts(names@).len() == names@.len());
    if tried + 1 < names.len() {
        Stage::Qmake { tried: tried + 1 }
    } else {
        Stage::CoreDirs { base: String::new() }
    }
}

/// What a session says is what it holds.
proof fn law_session_view(session: Embed)
    ensures
        session@.job == session.job,
        session@.tools == session.tools@,
        session@.root == session.root@,
        session@.stage == session.stage.model(),
{
}

/// What a stage says is what it holds.
proof fn law_stage_view(stage: Stage)
    ensures
        stage is Root ==> stage.model() == StageModel::Root,
        stage matches Stage::CurrentDir { dir } ==> stage.model() == (StageModel::CurrentDir {
            dir: dir@,
        }),
        stage is Files ==> stage.model() == StageModel::Files,
        stage matches Stage::PathVar { files } ==> stage.model() == (StageModel::PathVar {
            files: texts(files@),
        }),
        stage matches Stage::Uic { files, path_var } ==> stage.model() == (StageModel::Uic {
            files: texts(files@),
            path_var: opt_text(path_var),
        }),
        stage matches Stage::Rcc { files, path_var, uic } ==> stage.model() == (StageModel::Rcc {
            files: texts(files@),
            path_var: opt_text(path_var),
            uic: uic@,
        }),
        stage matches Stage::Perform { steps, done, end } ==> stage.model()
            == (StageModel::Perform { steps: models(steps@), done: done as nat, end: end.model() }),
        stage matches Stage::Qmake { tried } ==> stage.model() == (StageModel::Qmake {
            tried: tried as nat,
        }),
        stage matches Stage::HeaderDir { tried, dir } ==> stage.model() == (StageModel::HeaderDir {
            tried: tried as nat,
            dir: dir@,
        }),
        stage matches Stage::CoreDirs { base } ==> stage.model() == (StageModel::CoreDirs {
            base: base@,
        }),
        stage matches Stage::IncludeDirs { base, listings } ==> stage.model()
            == (StageModel::IncludeDirs { base: base@, listings: all_names(listings@) }),
        stage matches Stage::Finished { result: Ok(()) } ==> stage.model()
            == (StageModel::Finished { result: Ok(()) }),
        stage matches Stage::Finished { result: Err(e) } ==> stage.model()
            == (StageModel::Finished { result: Err(e@) }),
{
}

/// What an end says is what it holds.
proof fn law_end_view(end: End)
    ensures
        end is Success ==> end.model() == EndModel::Success,
        end is Headers ==> end.model() == EndModel::Headers,
        end matches End::Error { reason } ==> end.model() == (EndModel::Error { reason: reason@ }),
{
}

} // verus!
