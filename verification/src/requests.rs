//! What a session asks for, and where each reply takes it.
use crate::collect::{collected, Entry};
use crate::embed::{
    package_dir, EmbedModel, EndModel, Reply, Request, RequestModel, StageModel,
};
use crate::headers::{
    all_names, core_dirs, header_dirs, include_dirs, reported_dir, ProgramOutput,
};
use crate::path::{joined, seen_from};
use crate::script::{
    empty_archive_steps, empty_steps, form_steps, law_files_inside, resource_steps, Job, StepModel,
};
use crate::text::{opt_text, texts};
use crate::tools::{found_tool, rcc_names, search_list, uic_names, ToolsModel};
use vstd::prelude::*;

verus! {

/// What a request says is what it holds.
pub proof fn law_request_view(request: Request<'_>)
    ensures
        request matches Request::Env { name } ==> request@ == (RequestModel::Env { name: name@ }),
        request is CurrentDir ==> request@ == RequestModel::CurrentDir,
        request matches Request::ReadTree { dir } ==> request@ == (RequestModel::ReadTree {
            dir: dir@,
        }),
        request matches Request::CanRun { paths } ==> request@ == (RequestModel::CanRun {
            paths: texts(paths@),
        }),
        request matches Request::ListDirs { dirs } ==> request@ == (RequestModel::ListDirs {
            dirs: texts(dirs@),
        }),
        request matches Request::Exist { paths } ==> request@ == (RequestModel::Exist {
            paths: texts(paths@),
        }),
        request matches Request::Query { program, args } ==> request@ == (RequestModel::Query {
            program: program@,
            args: texts(args@),
        }),
        request matches Request::Perform { step } ==> request@ == (RequestModel::Perform {
            step: step@,
        }),
        request matches Request::Finished { result: Ok(()) } ==> request@
            == (RequestModel::Finished { result: Ok(()) }),
        request matches Request::Finished { result: Err(e) } ==> request@
            == (RequestModel::Finished { result: Err(e@) }),
{
}

/// The names of several listings are those of each, in order.
pub proof fn law_all_names(listings: Seq<Vec<String>>)
    ensures
        all_names(listings).len() == listings.len(),
        forall|k: int|
            0 <= k < listings.len() ==> #[trigger] all_names(listings)[k] == texts(listings[k]@),
{
}

/// A session begins by asking for the package directory, with the job and the tool
/// configuration that it was given.
pub proof fn law_first_request(job: Job, tools: ToolsModel)
    ensures
        EmbedModel::start(job, tools).request() == (RequestModel::Env {
            name: "CARGO_MANIFEST_DIR"@,
        }),
        EmbedModel::start(job, tools).job == job,
        EmbedModel::start(job, tools).tools == tools,
{
}

/// An absolute package directory is taken as it is, character for character: the files
/// are those of `ui` or of `resources` in it.
pub proof fn law_package_directory_is_the_variable(tools: ToolsModel, dir: String)
    requires
        dir@.len() > 0,
        dir@[0] == '/',
    ensures
        EmbedModel::start(Job::Forms, tools).resume(Reply::Env(Some(dir))).request()
            == (RequestModel::ReadTree { dir: joined(dir@, "ui"@) }),
        EmbedModel::start(Job::Forms, tools).resume(Reply::Env(Some(dir))).root == dir@,
        EmbedModel::start(Job::Resources, tools).resume(Reply::Env(Some(dir))).request()
            == (RequestModel::ReadTree { dir: joined(dir@, "resources"@) }),
        EmbedModel::start(Job::Resources, tools).resume(Reply::Env(Some(dir))).root == dir@,
        dir@.last() != '/' ==> EmbedModel::start(Job::Forms, tools).resume(
            Reply::Env(Some(dir)),
        ).request() == (RequestModel::ReadTree { dir: dir@ + "/ui"@ }),
        dir@.last() != '/' ==> EmbedModel::start(Job::Resources, tools).resume(
            Reply::Env(Some(dir)),
        ).request() == (RequestModel::ReadTree { dir: dir@ + "/resources"@ }),
{
    lemma_source_dirs(dir@);
}

proof fn lemma_source_dirs(dir: Seq<char>)
    ensures
        dir.len() > 0 && dir.last() != '/' ==> joined(dir, "ui"@) == dir + "/ui"@,
        dir.len() > 0 && dir.last() != '/' ==> joined(dir, "resources"@) == dir + "/resources"@,
{
    reveal_strlit("ui");
    reveal_strlit("/ui");
    reveal_strlit("resources");
    reveal_strlit("/resources");
    assert("/ui"@ == seq!['/'] + "ui"@);
    assert("/resources"@ == seq!['/'] + "resources"@);
    assert(dir.push('/') + "ui"@ == dir + (seq!['/'] + "ui"@));
    assert(dir.push('/') + "resources"@ == dir + (seq!['/'] + "resources"@));
}

/// The package directory is what the variable holds, and `.` where it is not set.
pub proof fn law_package_dir(dir: Seq<char>)
    ensures
        package_dir(Some(dir)) == dir,
        package_dir(None) == "."@,
{
}

/// A package directory that is not set is the current directory, and one that is not
/// absolute is seen from there. The session asks for the current directory then, and ends
/// in an error where there is none.
pub proof fn law_package_directory_is_seen_from_the_current_one(
    job: Job,
    tools: ToolsModel,
    dir: String,
    current: String,
    reason: String,
)
    requires
        dir@.len() == 0 || dir@[0] != '/',
        dir@ != seq!['.'],
        current@.len() > 0,
        current@[0] == '/',
    ensures
        EmbedModel::start(job, tools).resume(Reply::Env(None)).request()
            == RequestModel::CurrentDir,
        EmbedModel::start(job, tools).resume(Reply::Env(Some(dir))).request()
            == RequestModel::CurrentDir,
        EmbedModel::start(job, tools).resume(Reply::Env(None)).resume(
            Reply::CurrentDir(current),
        ).root == current@,
        EmbedModel::start(job, tools).resume(Reply::Env(Some(dir))).resume(
            Reply::CurrentDir(current),
        ).root == joined(current@, dir@),
        EmbedModel::start(job, tools).resume(Reply::Env(None)).resume(
            Reply::CurrentDir(current),
        ).request() == (RequestModel::ReadTree {
            dir: joined(
                current@,
                if job == Job::Forms {
                    "ui"@
                } else {
                    "resources"@
                },
            ),
        }),
        EmbedModel::start(job, tools).resume(Reply::Env(Some(dir))).resume(
            Reply::CurrentDir(current),
        ).request() == (RequestModel::ReadTree {
            dir: joined(
                joined(current@, dir@),
                if job == Job::Forms {
                    "ui"@
                } else {
                    "resources"@
                },
            ),
        }),
        EmbedModel::start(job, tools).resume(Reply::Env(None)).resume(
            Reply::Failed(reason),
        ).request() == (RequestModel::Finished { result: Err(reason@) }),
{
    reveal_strlit(".");
    assert("."@ == seq!['.']);
}

/// A package directory that is `.` is the current directory.
pub proof fn law_dot_is_the_current_directory(
    job: Job,
    tools: ToolsModel,
    dot: String,
    current: String,
)
    requires
        dot@ == seq!['.'],
        current@.len() > 0,
        current@[0] == '/',
    ensures
        EmbedModel::start(job, tools).resume(Reply::Env(Some(dot))).request()
            == RequestModel::CurrentDir,
        EmbedModel::start(job, tools).resume(Reply::Env(Some(dot))).resume(
            Reply::CurrentDir(current),
        ).root == current@,
{
    reveal_strlit(".");
    assert("."@ == seq!['.']);
}

/// Once the files are listed, `PATH` is asked for. Where none of the job's kind is
/// listed, or the tools are switched off, an empty archive is made.
pub proof fn law_after_the_listing(m: EmbedModel, tree: Option<Vec<Entry>>)
    requires
        m.stage == StageModel::Files,
    ensures
        ({
            let files = if m.job == Job::Forms {
                collected(joined(m.root, "ui"@), tree, "ui"@)
            } else {
                collected(joined(m.root, "resources"@), tree, "qrc"@)
            };
            let then = m.resume(Reply::Tree(tree));
            &&& then.root == m.root && then.job == m.job && then.tools == m.tools
            &&& files.len() > 0 && !m.tools.noop ==> then.stage == (StageModel::PathVar { files })
                && then.request() == (RequestModel::Env { name: "PATH"@ })
            &&& files.len() == 0 || m.tools.noop ==> then.stage == (StageModel::Perform {
                steps: empty_steps(m.root, m.job),
                done: 0,
                end: EndModel::Headers,
            })
        }),
{
}

/// Once `PATH` is known, it is asked which of the files that may be `uic`, or `rcc` where
/// resources are embedded, can be run.
pub proof fn law_after_the_path(m: EmbedModel, files: Seq<Seq<char>>, path_var: Option<String>)
    requires
        m.stage == (StageModel::PathVar { files }),
    ensures
        ({
            let then = m.resume(Reply::Env(path_var));
            &&& then.root == m.root && then.job == m.job && then.tools == m.tools
            &&& m.job == Job::Forms ==> then.stage == (StageModel::Uic {
                files,
                path_var: opt_text(path_var),
            }) && then.request() == (RequestModel::CanRun {
                paths: search_list(m.tools, uic_names(), opt_text(path_var)),
            })
            &&& m.job == Job::Resources ==> then.request() == (RequestModel::CanRun {
                paths: search_list(m.tools, rcc_names(), opt_text(path_var)),
            }) && (then.stage matches StageModel::Rcc { files: f, path_var: v, .. } && f == files
                && v == opt_text(path_var))
        }),
{
}

/// Once `uic` is found, `rcc` is looked for in the same places; without it an empty
/// archive is made.
pub proof fn law_after_uic(
    m: EmbedModel,
    files: Seq<Seq<char>>,
    path_var: Option<Seq<char>>,
    answers: Vec<bool>,
)
    requires
        m.stage == (StageModel::Uic { files, path_var }),
    ensures
        ({
            let then = m.resume(Reply::Answers(answers));
            &&& then.root == m.root && then.job == m.job && then.tools == m.tools
            &&& found_tool(m.tools, uic_names(), path_var, answers@) matches Some(uic)
                ==> then.stage == (StageModel::Rcc { files, path_var, uic }) && then.request()
                == (RequestModel::CanRun { paths: search_list(m.tools, rcc_names(), path_var) })
            &&& found_tool(m.tools, uic_names(), path_var, answers@) is None ==> then.stage
                == (StageModel::Perform {
                steps: empty_steps(m.root, m.job),
                done: 0,
                end: EndModel::Headers,
            })
        }),
{
}

/// Once `rcc` is found, the steps for exactly the listed files are begun, with the tools
/// that were found and the directory that was listed; without it an empty archive is
/// made.
pub proof fn law_after_rcc(
    m: EmbedModel,
    files: Seq<Seq<char>>,
    path_var: Option<Seq<char>>,
    uic: Seq<char>,
    answers: Vec<bool>,
)
    requires
        m.stage == (StageModel::Rcc { files, path_var, uic }),
    ensures
        ({
            let then = m.resume(Reply::Answers(answers));
            &&& then.root == m.root && then.job == m.job && then.tools == m.tools
            &&& found_tool(m.tools, rcc_names(), path_var, answers@) matches Some(rcc)
                ==> then.stage == (if m.job == Job::Resources {
                StageModel::Perform {
                    steps: resource_steps(m.root, joined(m.root, "resources"@), files, rcc),
                    done: 0,
                    end: EndModel::Success,
                }
            } else {
                StageModel::Perform {
                    steps: form_steps(m.root, joined(m.root, "ui"@), files, uic, rcc, m.root),
                    done: 0,
                    end: if forall|j: int|
                        0 <= j < files.len() ==> seen_from(
                            #[trigger] files[j],
                            joined(m.root, "ui"@),
                        ) is Some {
                        EndModel::Success
                    } else {
                        EndModel::Error { reason: "prefix not found"@ }
                    },
                }
            })
            &&& found_tool(m.tools, rcc_names(), path_var, answers@) is None ==> then.stage
                == (StageModel::Perform {
                steps: empty_steps(m.root, m.job),
                done: 0,
                end: EndModel::Headers,
            })
        }),
{
    law_files_inside(joined(m.root, "ui"@), files);
}

/// A step is asked for, and when it is done the next one. Behind the last one the session
/// ends well, asks for the headers, or ends in the error that is due. A program that
/// rejects its file ends the session with a text that names both, and what could not be
/// done with the reason.
pub proof fn law_after_a_step(
    m: EmbedModel,
    steps: Seq<StepModel>,
    done: nat,
    end: EndModel,
    reason: String,
)
    requires
        m.stage == (StageModel::Perform { steps, done, end }),
        done < steps.len(),
    ensures
        m.request() == (RequestModel::Perform { step: steps[done as int] }),
        done + 1 < steps.len() ==> m.resume(Reply::Done).stage == (StageModel::Perform {
            steps,
            done: done + 1,
            end,
        }),
        done + 1 == steps.len() && end is Success ==> m.resume(Reply::Done).request()
            == (RequestModel::Finished { result: Ok(()) }),
        done + 1 == steps.len() && end is Headers ==> m.resume(Reply::Done).stage
            == (StageModel::Qmake { tried: 0 }),
        done + 1 == steps.len() && end is Error ==> m.resume(Reply::Done).request()
            == (RequestModel::Finished { result: Err(end->reason) }),
        steps[done as int] matches StepModel::Run { program, subject, .. } ==> m.resume(
            Reply::Refused,
        ).request() == (RequestModel::Finished {
            result: Err("qtrs-build: `"@ + program + "` failed for "@ + subject),
        }),
        m.resume(Reply::Failed(reason)).request() == (RequestModel::Finished {
            result: Err(reason@),
        }),
        m.resume(Reply::Done).root == m.root,
        m.resume(Reply::Done).job == m.job,
{
}

/// Each `qmake` is asked for the headers in turn, until one cannot be started or names a
/// directory. One that names none, or a directory that does not exist, is passed over.
/// Behind the last one, or where one cannot be started, the headers stay unknown.
pub proof fn law_asking_qmake(
    m: EmbedModel,
    tried: nat,
    dir: Seq<char>,
    output: ProgramOutput,
    answers: Vec<bool>,
)
    requires
        tried < 4,
    ensures
        ({
            let name = if tried == 0 {
                "qmake6"@
            } else if tried == 1 {
                "qmake"@
            } else if tried == 2 {
                "qmake-qt5"@
            } else {
                "qmake-qt6"@
            };
            let asked = m.at(StageModel::Qmake { tried });
            let named = m.at(StageModel::HeaderDir { tried, dir });
            let unknown = StageModel::CoreDirs { base: Seq::empty() };
            let passed = if tried + 1 < 4 {
                StageModel::Qmake { tried: tried + 1 }
            } else {
                unknown
            };
            &&& asked.request() == (RequestModel::Query {
                program: name,
                args: seq!["-query"@, "QT_INSTALL_HEADERS"@],
            })
            &&& asked.resume(Reply::Output(None)).stage == unknown
            &&& asked.resume(Reply::Output(Some(output))).stage == match reported_dir(output) {
                Some(d) => StageModel::HeaderDir { tried, dir: d },
                None => passed,
            }
            &&& named.request() == (RequestModel::Exist { paths: seq![dir] })
            &&& named.resume(Reply::Answers(answers)).stage == if answers@.len() > 0
                && answers@[0] {
                StageModel::CoreDirs { base: dir }
            } else {
                passed
            }
            &&& asked.stage == (StageModel::Qmake { tried })
            &&& named.stage == (StageModel::HeaderDir { tried, dir })
            &&& asked.root == m.root && asked.job == m.job && asked.tools == m.tools
            &&& asked.resume(Reply::Output(None)).root == m.root
            &&& asked.resume(Reply::Output(None)).job == m.job
            &&& named.resume(Reply::Answers(answers)).root == m.root
            &&& named.resume(Reply::Answers(answers)).job == m.job
            &&& asked.resume(Reply::Output(Some(output))).root == m.root
            &&& asked.resume(Reply::Output(Some(output))).job == m.job
        }),
{
}

/// Below the directory that was found the version directories are listed, then it is
/// asked which of the candidates exist, and then the empty archive is compiled with those
/// that do.
pub proof fn law_after_the_headers(
    m: EmbedModel,
    base: Seq<char>,
    listings: Vec<Vec<String>>,
    answers: Vec<bool>,
)
    requires
        m.stage == (StageModel::CoreDirs { base }),
    ensures
        ({
            let names = all_names(listings@);
            let listed = m.resume(Reply::Listings(listings));
            let then = listed.resume(Reply::Answers(answers));
            &&& m.request() == (RequestModel::ListDirs { dirs: core_dirs(base) })
            &&& listed.request() == (RequestModel::Exist { paths: header_dirs(base, names) })
            &&& then.stage == (StageModel::Perform {
                steps: empty_archive_steps(
                    m.root,
                    m.job,
                    include_dirs(base, header_dirs(base, names), answers@),
                ),
                done: 0,
                end: EndModel::Success,
            })
            &&& then.root == m.root && then.job == m.job
        }),
{
}

/// A session that is over tells its result, and no reply changes it.
pub proof fn law_after_the_end(m: EmbedModel, result: Result<(), Seq<char>>, reply: Reply)
    requires
        m.stage == (StageModel::Finished { result }),
    ensures
        m.request() == (RequestModel::Finished { result }),
        m.resume(reply) == m,
{
}

} // verus!
