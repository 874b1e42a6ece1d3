//! What holds of every session, whatever is replied to it.
use crate::collect::{
    collected, holds_file, is_listing, is_trail_name, law_collected_is_below,
    law_every_file_is_collected, trail_path, Entry,
};
use crate::embed::{
    are_whole, lemma_collected_are_whole, package_dir, script_stage, stage_behind,
    EmbedModel, EndModel, Reply, RequestModel, StageModel,
};
use crate::forms::{
    form_alias, form_list, has_separator, law_a_listed_form_is_at_its_name,
    law_every_form_is_listed, resource_line, seen_files,
};
use crate::headers::{header_dirs, include_dirs, qmake_names};
use crate::links::{
    is_link_directive, law_empty_steps_link_last, law_form_steps_link_last,
    law_resource_steps_link_last, lemma_join_links_nothing, links_last, links_nothing,
};
use crate::path::{absolute_path, is_absolute, is_within, joined, law_absolute_path, seen_from};
use crate::places::{
    all_stay_below, law_empty_steps_stay_below, law_form_steps_stay_below, law_outputs_are_apart,
    law_resource_steps_stay_below, stays_below, writes,
};
use crate::script::{
    all_inside, empty_archive_steps, empty_steps, form_error, form_steps, gen_dir,
    law_every_form_is_checked, law_every_list_is_compiled, law_files_inside, lib_dir, link_steps,
    out_dir, rejection, resource_steps, whole_files, Job, StepModel,
};
use crate::text::opt_text;
use crate::tools::{found_tool, rcc_names, uic_names, ToolsModel};
use crate::{QRC_DIR, UI_DIR};
use vstd::prelude::*;

verus! {

/// The session after one more reply.
#[verifier::opaque]
pub open spec fn next(m: EmbedModel, reply: Reply) -> EmbedModel {
    m.resume(reply)
}

/// The session after a number of replies.
pub open spec fn run(m: EmbedModel, replies: Seq<Reply>) -> EmbedModel
    decreases replies.len(),
{
    if replies.len() == 0 {
        m
    } else {
        next(run(m, replies.drop_last()), replies.last())
    }
}

/// The steps that were done by then, in order.
pub open spec fn performed(m: EmbedModel, replies: Seq<Reply>) -> Seq<StepModel>
    decreases replies.len(),
{
    if replies.len() == 0 {
        Seq::empty()
    } else {
        performed_next(
            run(m, replies.drop_last()),
            performed(m, replies.drop_last()),
            replies.last(),
        )
    }
}

/// The steps that were done by the next reply.
pub open spec fn performed_next(m: EmbedModel, p: Seq<StepModel>, reply: Reply) -> Seq<StepModel> {
    match (m.stage, reply) {
        (StageModel::Perform { steps, done, .. }, Reply::Done) => p.push(steps[done as int]),
        _ => p,
    }
}

/// The files to embed that were found by then.
pub open spec fn files_found(m: EmbedModel, replies: Seq<Reply>) -> Seq<Seq<char>>
    decreases replies.len(),
{
    if replies.len() == 0 {
        Seq::empty()
    } else {
        found_next(
            run(m, replies.drop_last()),
            files_found(m, replies.drop_last()),
            replies.last(),
        )
    }
}

/// The files to embed that were found by the next reply.
pub open spec fn found_next(m: EmbedModel, found: Seq<Seq<char>>, reply: Reply) -> Seq<Seq<char>> {
    match (m.stage, reply) {
        (StageModel::Files, Reply::Tree(tree)) => collected(m.source_dir(), tree, m.job.ext()),
        _ => found,
    }
}

/// Whether the reply tells that a tool is missing.
pub open spec fn misses_tool(m: EmbedModel, reply: Reply) -> bool {
    match (m.stage, reply) {
        (StageModel::Uic { path_var, .. }, Reply::Answers(a)) => found_tool(
            m.tools,
            uic_names(),
            path_var,
            a@,
        ) is None,
        (StageModel::Rcc { path_var, .. }, Reply::Answers(a)) => found_tool(
            m.tools,
            rcc_names(),
            path_var,
            a@,
        ) is None,
        _ => false,
    }
}

/// Whether a tool was found to be missing by then.
pub open spec fn tool_missing(m: EmbedModel, replies: Seq<Reply>) -> bool
    decreases replies.len(),
{
    replies.len() > 0 && (tool_missing(m, replies.drop_last()) || misses_tool(
        run(m, replies.drop_last()),
        replies.last(),
    ))
}

/// There is always something to ask for, the paths stay whole, and the job and the
/// tool configuration of a session stay as they are.
pub proof fn law_sessions_stay_valid(m: EmbedModel, reply: Reply)
    requires
        m.is_valid(),
    ensures
        m.resume(reply).is_valid(),
        m.resume(reply).job == m.job,
        m.resume(reply).tools == m.tools,
        EmbedModel::start(m.job, m.tools).is_valid(),
{
    match (m.stage, reply) {
        (StageModel::Files, Reply::Tree(tree)) => {
            lemma_collected_are_whole(m.root, tree, m.job);
        },
        _ => {},
    }
}

proof fn lemma_run_is_valid(job: Job, tools: ToolsModel, replies: Seq<Reply>)
    ensures
        run(EmbedModel::start(job, tools), replies).is_valid(),
        run(EmbedModel::start(job, tools), replies).job == job,
        run(EmbedModel::start(job, tools), replies).tools == tools,
    decreases replies.len(),
{
    if replies.len() > 0 {
        lemma_run_is_valid(job, tools, replies.drop_last());
        lemma_next_is_valid(
            run(EmbedModel::start(job, tools), replies.drop_last()),
            replies.last(),
        );
    }
}

proof fn lemma_next_is_valid(m: EmbedModel, reply: Reply)
    requires
        m.is_valid(),
    ensures
        next(m, reply).is_valid(),
        next(m, reply).job == m.job,
        next(m, reply).tools == m.tools,
{
    reveal(next);
    law_sessions_stay_valid(m, reply);
}

/// The files that a session finds have absolute paths, whatever is replied: so the
/// paths in the list of the forms are absolute, as it holds those of the files.
pub proof fn law_found_files_are_absolute(job: Job, tools: ToolsModel, replies: Seq<Reply>)
    ensures
        are_whole(files_found(EmbedModel::start(job, tools), replies)),
    decreases replies.len(),
{
    let start = EmbedModel::start(job, tools);
    if replies.len() > 0 {
        law_found_files_are_absolute(job, tools, replies.drop_last());
        lemma_run_is_valid(job, tools, replies.drop_last());
        let m = run(start, replies.drop_last());
        match (m.stage, replies.last()) {
            (StageModel::Files, Reply::Tree(tree)) => {
                lemma_collected_are_whole(m.root, tree, m.job);
            },
            _ => {},
        }
    }
}

/// Whether the reply is one to the kind of request that is made.
pub open spec fn answers(request: RequestModel, reply: Reply) -> bool {
    match request {
        RequestModel::Env { .. } => reply is Env,
        RequestModel::CurrentDir => reply is Failed || (reply matches Reply::CurrentDir(dir)
            && is_absolute(dir@)),
        RequestModel::ReadTree { .. } => reply is Tree,
        RequestModel::CanRun { .. } => reply is Answers,
        RequestModel::ListDirs { .. } => reply is Listings,
        RequestModel::Exist { .. } => reply is Answers,
        RequestModel::Query { .. } => reply is Output,
        RequestModel::Perform { step } => reply is Done || reply is Failed || (reply is Refused
            && step is Run),
        RequestModel::Finished { .. } => false,
    }
}

/// How many kinds of request may still come.
pub open spec fn phases_left(m: EmbedModel) -> nat {
    match m.stage {
        StageModel::Root => 11,
        StageModel::CurrentDir { .. } => 10,
        StageModel::Files => 9,
        StageModel::PathVar { .. } => 8,
        StageModel::Uic { .. } => 7,
        StageModel::Rcc { .. } => 6,
        StageModel::Perform { end, .. } => if end is Headers {
            5
        } else {
            1
        },
        StageModel::Qmake { .. } => 4,
        StageModel::HeaderDir { .. } => 4,
        StageModel::CoreDirs { .. } => 3,
        StageModel::IncludeDirs { .. } => 2,
        StageModel::Finished { .. } => 0,
    }
}

/// How many requests of the present kind may still come.
pub open spec fn requests_left(m: EmbedModel) -> int {
    match m.stage {
        StageModel::Perform { steps, done, .. } => steps.len() - done,
        StageModel::Qmake { tried } => 2 * (qmake_names().len() - tried) + 2,
        StageModel::HeaderDir { tried, .. } => 2 * (qmake_names().len() - tried) + 1,
        _ => 0,
    }
}

/// Every reply to what is asked for brings the session nearer to its end; any
/// other reply changes nothing, and so does every reply once it is over.
#[verifier::rlimit(30)]
pub proof fn law_sessions_end(m: EmbedModel, reply: Reply)
    requires
        m.is_valid(),
    ensures
        requests_left(m) >= 0,
        answers(m.request(), reply) ==> {
            ||| phases_left(m.resume(reply)) < phases_left(m)
            ||| phases_left(m.resume(reply)) == phases_left(m) && requests_left(m.resume(reply))
                < requests_left(m)
        },
        !answers(m.request(), reply) ==> m.resume(reply) == m,
        m.stage is Finished ==> m.resume(reply) == m,
        phases_left(m) == 0 <==> m.stage is Finished,
{
}

/// The package directory from the root directory on, where `current` is the
/// current directory.
pub open spec fn package_root(manifest: Option<String>, current: String) -> Seq<char> {
    let dir = package_dir(opt_text(manifest));
    if is_absolute(dir) {
        dir
    } else {
        absolute_path(current@, dir)
    }
}

/// The replies by which a session knows its package directory. The current
/// directory is asked for where the package directory is seen from there.
pub open spec fn package_replies(manifest: Option<String>, current: String) -> Seq<Reply> {
    if is_absolute(package_dir(opt_text(manifest))) {
        seq![Reply::Env(manifest)]
    } else {
        seq![Reply::Env(manifest), Reply::CurrentDir(current)]
    }
}

/// The files that a session reads are those below the job's directory of the
/// package, wherever the package is, by an absolute path.
#[verifier::rlimit(30)]
pub proof fn law_the_package_is_read(
    job: Job,
    tools: ToolsModel,
    manifest: Option<String>,
    current: String,
)
    requires
        is_absolute(current@),
    ensures
        ({
            let start = EmbedModel::start(job, tools);
            let root = package_root(manifest, current);
            &&& start.request() == (RequestModel::Env { name: "CARGO_MANIFEST_DIR"@ })
            &&& is_absolute(root)
            &&& run(start, package_replies(manifest, current)) == start.in_package(root)
            &&& start.in_package(root).request() == (RequestModel::ReadTree {
                dir: joined(root, job.dir()),
            })
        }),
{
    reveal(next);
    let start = EmbedModel::start(job, tools);
    let replies = package_replies(manifest, current);
    lemma_run_step(start, replies, 0);
    if replies.len() == 2 {
        lemma_run_step(start, replies, 1);
    }
}

/// A session whose forms and tools are found comes to the steps for exactly the
/// forms that were found.
pub proof fn law_forms_come_to_their_steps(
    tools: ToolsModel,
    manifest: Option<String>,
    current: String,
    tree: Option<Vec<Entry>>,
    path_var: Option<String>,
    uic_answers: Vec<bool>,
    rcc_answers: Vec<bool>,
)
    requires
        is_absolute(current@),
        collected(joined(package_root(manifest, current), UI_DIR@), tree, "ui"@).len() > 0,
        found_tool(tools, uic_names(), opt_text(path_var), uic_answers@) is Some,
        found_tool(tools, rcc_names(), opt_text(path_var), rcc_answers@) is Some,
    ensures
        ({
            let root = package_root(manifest, current);
            let dir = joined(root, UI_DIR@);
            let uic = found_tool(tools, uic_names(), opt_text(path_var), uic_answers@)->0;
            let rcc = found_tool(tools, rcc_names(), opt_text(path_var), rcc_answers@)->0;
            run(
                EmbedModel::start(Job::Forms, tools),
                package_replies(manifest, current) + seq![
                    Reply::Tree(tree),
                    Reply::Env(path_var),
                    Reply::Answers(uic_answers),
                    Reply::Answers(rcc_answers),
                ],
            ) == (EmbedModel {
                job: Job::Forms,
                tools,
                root,
                stage: script_stage(
                    Job::Forms,
                    root,
                    dir,
                    collected(dir, tree, "ui"@),
                    uic,
                    rcc,
                ),
            })
        }),
{
    let start = EmbedModel::start(Job::Forms, tools);
    let replies = seq![
        Reply::Tree(tree),
        Reply::Env(path_var),
        Reply::Answers(uic_answers),
        Reply::Answers(rcc_answers),
    ];
    law_the_package_is_read(Job::Forms, tools, manifest, current);
    let m = start.in_package(package_root(manifest, current));
    lemma_run_on(start, package_replies(manifest, current), replies);
    lemma_forms_come_to_their_steps(m, replies, tree, path_var, uic_answers, rcc_answers);
}

proof fn lemma_forms_come_to_their_steps(
    m: EmbedModel,
    replies: Seq<Reply>,
    tree: Option<Vec<Entry>>,
    path_var: Option<String>,
    uic_answers: Vec<bool>,
    rcc_answers: Vec<bool>,
)
    requires
        m.job == Job::Forms,
        m.stage == StageModel::Files,
        replies.len() == 4,
        replies[0] == Reply::Tree(tree),
        replies[1] == Reply::Env(path_var),
        replies[2] == Reply::Answers(uic_answers),
        replies[3] == Reply::Answers(rcc_answers),
        collected(m.source_dir(), tree, "ui"@).len() > 0,
        found_tool(m.tools, uic_names(), opt_text(path_var), uic_answers@) is Some,
        found_tool(m.tools, rcc_names(), opt_text(path_var), rcc_answers@) is Some,
    ensures
        run(m, replies) == m.at(
            script_stage(
                Job::Forms,
                m.root,
                m.source_dir(),
                collected(m.source_dir(), tree, "ui"@),
                found_tool(m.tools, uic_names(), opt_text(path_var), uic_answers@)->0,
                found_tool(m.tools, rcc_names(), opt_text(path_var), rcc_answers@)->0,
            ),
        ),
{
    lemma_run_of_four(m, replies);
    lemma_forms_are_looked_up(m, tree, path_var, uic_answers, rcc_answers);
}

proof fn lemma_run_of_four(m: EmbedModel, replies: Seq<Reply>)
    requires
        replies.len() == 4,
    ensures
        run(m, replies) == m.resume(replies[0]).resume(replies[1]).resume(replies[2]).resume(
            replies[3],
        ),
{
    reveal(next);
    lemma_run_step(m, replies, 3);
    lemma_run_step(m, replies, 2);
    lemma_run_step(m, replies, 1);
    lemma_run_step(m, replies, 0);
}

proof fn lemma_forms_are_looked_up(
    m: EmbedModel,
    tree: Option<Vec<Entry>>,
    path_var: Option<String>,
    uic_answers: Vec<bool>,
    rcc_answers: Vec<bool>,
)
    requires
        m.job == Job::Forms,
        m.stage == StageModel::Files,
        collected(m.source_dir(), tree, "ui"@).len() > 0,
        found_tool(m.tools, uic_names(), opt_text(path_var), uic_answers@) is Some,
        found_tool(m.tools, rcc_names(), opt_text(path_var), rcc_answers@) is Some,
    ensures
        m.resume(Reply::Tree(tree)).resume(Reply::Env(path_var)).resume(
            Reply::Answers(uic_answers),
        ).resume(Reply::Answers(rcc_answers)) == m.at(
            script_stage(
                Job::Forms,
                m.root,
                m.source_dir(),
                collected(m.source_dir(), tree, "ui"@),
                found_tool(m.tools, uic_names(), opt_text(path_var), uic_answers@)->0,
                found_tool(m.tools, rcc_names(), opt_text(path_var), rcc_answers@)->0,
            ),
        ),
{
    let files = collected(m.source_dir(), tree, "ui"@);
    let path = opt_text(path_var);
    let uic = found_tool(m.tools, uic_names(), path, uic_answers@)->0;
    let a = m.resume(Reply::Tree(tree));
    assert(a == m.at(StageModel::PathVar { files }));
    let b = a.resume(Reply::Env(path_var));
    assert(b == m.at(StageModel::Uic { files, path_var: path }));
    let c = b.resume(Reply::Answers(uic_answers));
    assert(c == m.at(StageModel::Rcc { files, path_var: path, uic }));
}

/// A session whose resource lists and `rcc` are found comes to the steps for
/// exactly the lists that were found.
pub proof fn law_resources_come_to_their_steps(
    tools: ToolsModel,
    manifest: Option<String>,
    current: String,
    tree: Option<Vec<Entry>>,
    path_var: Option<String>,
    rcc_answers: Vec<bool>,
)
    requires
        is_absolute(current@),
        collected(
            joined(package_root(manifest, current), Job::Resources.dir()),
            tree,
            "qrc"@,
        ).len() > 0,
        found_tool(tools, rcc_names(), opt_text(path_var), rcc_answers@) is Some,
    ensures
        ({
            let root = package_root(manifest, current);
            let dir = joined(root, Job::Resources.dir());
            let rcc = found_tool(tools, rcc_names(), opt_text(path_var), rcc_answers@)->0;
            run(
                EmbedModel::start(Job::Resources, tools),
                package_replies(manifest, current) + seq![
                    Reply::Tree(tree),
                    Reply::Env(path_var),
                    Reply::Answers(rcc_answers),
                ],
            ) == (EmbedModel {
                job: Job::Resources,
                tools,
                root,
                stage: StageModel::Perform {
                    steps: resource_steps(root, dir, collected(dir, tree, "qrc"@), rcc),
                    done: 0,
                    end: EndModel::Success,
                },
            })
        }),
{
    let start = EmbedModel::start(Job::Resources, tools);
    let replies = seq![Reply::Tree(tree), Reply::Env(path_var), Reply::Answers(rcc_answers)];
    law_the_package_is_read(Job::Resources, tools, manifest, current);
    let m = start.in_package(package_root(manifest, current));
    lemma_run_on(start, package_replies(manifest, current), replies);
    lemma_resources_come_to_their_steps(m, replies, tree, path_var, rcc_answers);
}

proof fn lemma_run_of_three(m: EmbedModel, replies: Seq<Reply>)
    requires
        replies.len() == 3,
    ensures
        run(m, replies) == m.resume(replies[0]).resume(replies[1]).resume(replies[2]),
{
    reveal(next);
    lemma_run_step(m, replies, 2);
    lemma_run_step(m, replies, 1);
    lemma_run_step(m, replies, 0);
}

proof fn lemma_resources_come_to_their_steps(
    m: EmbedModel,
    replies: Seq<Reply>,
    tree: Option<Vec<Entry>>,
    path_var: Option<String>,
    rcc_answers: Vec<bool>,
)
    requires
        m.job == Job::Resources,
        m.stage == StageModel::Files,
        replies.len() == 3,
        replies[0] == Reply::Tree(tree),
        replies[1] == Reply::Env(path_var),
        replies[2] == Reply::Answers(rcc_answers),
        collected(m.source_dir(), tree, "qrc"@).len() > 0,
        found_tool(m.tools, rcc_names(), opt_text(path_var), rcc_answers@) is Some,
    ensures
        run(m, replies) == m.at(
            StageModel::Perform {
                steps: resource_steps(
                    m.root,
                    m.source_dir(),
                    collected(m.source_dir(), tree, "qrc"@),
                    found_tool(m.tools, rcc_names(), opt_text(path_var), rcc_answers@)->0,
                ),
                done: 0,
                end: EndModel::Success,
            },
        ),
{
    let files = collected(m.source_dir(), tree, "qrc"@);
    let path = opt_text(path_var);
    lemma_run_of_three(m, replies);
    let a = m.resume(Reply::Tree(tree));
    assert(a == m.at(StageModel::PathVar { files }));
    let b = a.resume(Reply::Env(path_var));
    assert(b == m.at(StageModel::Rcc { files, path_var: path, uic: Seq::empty() }));
}

/// The forms that a listing of the form directory holds all lie below it, so that
/// the session comes to the whole script.
pub proof fn law_listed_forms_are_inside(dir: Seq<char>, list: Vec<Entry>)
    requires
        is_listing(list@),
    ensures
        all_inside(dir, collected(dir, Some(list), "ui"@)),
        form_error(dir, collected(dir, Some(list), "ui"@)) is None,
{
    let files = collected(dir, Some(list), "ui"@);
    assert forall|i: int| 0 <= i < files.len() implies seen_from(
        #[trigger] files[i],
        dir,
    ) is Some by {
        law_collected_is_below(dir, list, "ui"@, i);
    }
    law_files_inside(dir, files);
}

/// The list that is written for the forms of a directory holds a line for each file
/// `<name>.ui` in it, which makes the file a resource at `:/qrc/<name>.ui` and names
/// it by its absolute path.
pub proof fn law_a_form_is_embedded_at_its_name(
    root: Seq<char>,
    dir: Seq<char>,
    list: Vec<Entry>,
    k: int,
    name: Seq<char>,
    uic: Seq<char>,
    rcc: Seq<char>,
    current: Seq<char>,
)
    requires
        is_listing(list@),
        0 <= k < list@.len(),
        list@[k] matches Entry::File { name: n } && n@ == name + ".ui"@,
        name.len() > 0,
        !has_separator(name),
        is_absolute(current),
    ensures
        is_absolute(absolute_path(current, joined(dir, name + ".ui"@))),
        exists|i: int, before: Seq<char>, after: Seq<char>|
            0 <= i < form_steps(
                root,
                dir,
                collected(dir, Some(list), "ui"@),
                uic,
                rcc,
                current,
            ).len() && #[trigger] form_steps(
                root,
                dir,
                collected(dir, Some(list), "ui"@),
                uic,
                rcc,
                current,
            )[i] == (StepModel::WriteFile {
                path: joined(gen_dir(out_dir(root, Job::Forms)), "ui.qrc"@),
                text: #[trigger] (before + resource_line(
                    "qrc/"@ + name + ".ui"@,
                    absolute_path(current, joined(dir, name + ".ui"@)),
                ) + after),
            }),
{
    let files = collected(dir, Some(list), "ui"@);
    let forms = seen_files(dir, files);
    let whole = whole_files(current, files);
    let file = joined(dir, name + ".ui"@);
    law_absolute_path(current, file);
    law_a_listed_form_is_at_its_name(dir, list, k, name);
    let i = choose|i: int|
        {
            &&& 0 <= i < files.len()
            &&& #[trigger] files[i] == file
            &&& form_alias(forms, i) == "qrc/"@ + name + ".ui"@
        };
    law_listed_forms_are_inside(dir, list);
    law_every_form_is_checked(root, dir, files, uic, rcc, current, i);
    law_every_form_is_listed(whole, forms, i);
    assert(whole[i] == absolute_path(current, file));
    let (before, after) = choose|before: Seq<char>, after: Seq<char>|
        #[trigger] (before + resource_line(form_alias(forms, i), whole[i]) + after) == form_list(
            whole,
            forms,
        );
    let at = (1 + 2 * files.len()) as int;
    assert(form_steps(root, dir, files, uic, rcc, current)[at] == (StepModel::WriteFile {
        path: joined(gen_dir(out_dir(root, Job::Forms)), "ui.qrc"@),
        text: before + resource_line("qrc/"@ + name + ".ui"@, absolute_path(current, file)) + after,
    }));
}

proof fn lemma_run_step(m: EmbedModel, replies: Seq<Reply>, k: int)
    requires
        0 <= k < replies.len(),
    ensures
        run(m, replies.take(k + 1)) == next(run(m, replies.take(k)), replies[k]),
        replies.take(0) == Seq::<Reply>::empty(),
        replies.take(replies.len() as int) == replies,
{
    assert(replies.take(k + 1).drop_last() == replies.take(k));
}

proof fn lemma_run_on(m: EmbedModel, first: Seq<Reply>, then: Seq<Reply>)
    ensures
        run(m, first + then) == run(run(m, first), then),
    decreases then.len(),
{
    if then.len() == 0 {
        assert(first + then == first);
    } else {
        lemma_run_on(m, first, then.drop_last());
        assert((first + then).drop_last() == first + then.drop_last());
    }
}

/// Where there is nothing to embed, where a tool is missing, or where the tools
/// are switched off, an empty archive is made in place of an error.
pub proof fn law_nothing_to_embed_is_no_error(m: EmbedModel, reply: Reply)
    requires
        misses_tool(m, reply) || match (m.stage, reply) {
            (StageModel::Files, Reply::Tree(tree)) => collected(
                m.source_dir(),
                tree,
                m.job.ext(),
            ).len() == 0 || m.tools.noop,
            _ => false,
        },
    ensures
        m.resume(reply) == m.at_empty(),
{
}

spec fn runs_nothing(steps: Seq<StepModel>) -> bool {
    forall|i: int| 0 <= i < steps.len() ==> !(#[trigger] steps[i] is Run)
}

spec fn is_idle(m: EmbedModel) -> bool {
    match m.stage {
        StageModel::PathVar { .. } => false,
        StageModel::Uic { .. } => false,
        StageModel::Rcc { .. } => false,
        StageModel::Perform { steps, .. } => runs_nothing(steps),
        _ => true,
    }
}

/// With the tools switched off, no tool is looked for and none is run, whatever
/// is replied.
pub proof fn law_noop_runs_no_tool(job: Job, tools: ToolsModel, replies: Seq<Reply>)
    requires
        tools.noop,
    ensures
        !(run(EmbedModel::start(job, tools), replies).request() is CanRun),
        run(EmbedModel::start(job, tools), replies).request() matches RequestModel::Perform {
            step,
        } ==> !(step is Run),
{
    lemma_noop_is_idle(job, tools, replies);
    lemma_run_is_valid(job, tools, replies);
}

proof fn lemma_noop_is_idle(job: Job, tools: ToolsModel, replies: Seq<Reply>)
    requires
        tools.noop,
    ensures
        is_idle(run(EmbedModel::start(job, tools), replies)),
    decreases replies.len(),
{
    if replies.len() > 0 {
        lemma_noop_is_idle(job, tools, replies.drop_last());
        lemma_run_is_valid(job, tools, replies.drop_last());
        lemma_noop_stays_idle(
            run(EmbedModel::start(job, tools), replies.drop_last()),
            replies.last(),
        );
    }
}

proof fn lemma_noop_stays_idle(m: EmbedModel, reply: Reply)
    requires
        m.tools.noop,
        is_idle(m),
    ensures
        is_idle(next(m, reply)),
{
    reveal(next);
    assert(runs_nothing(empty_steps(m.root, m.job)));
    match (m.stage, reply) {
        (StageModel::IncludeDirs { base, listings }, Reply::Answers(a)) => {
            assert(runs_nothing(
                empty_archive_steps(
                    m.root,
                    m.job,
                    include_dirs(base, header_dirs(base, listings), a@),
                ),
            ));
        },
        _ => {},
    }
}

/// Steps are asked for one after the other: while each is done, the next one is
/// asked for, and behind the last one the session ends well, goes on to the headers
/// of an empty archive, or tells of a form outside the form directory.
pub proof fn law_steps_are_asked_in_order(m: EmbedModel, replies: Seq<Reply>)
    requires
        m.stage is Perform,
        m.stage->done == 0,
        m.is_valid(),
        replies.len() <= m.stage->steps.len(),
        forall|i: int| 0 <= i < replies.len() ==> #[trigger] replies[i] is Done,
    ensures
        replies.len() < m.stage->steps.len() ==> run(m, replies) == m.at(
            StageModel::Perform {
                steps: m.stage->steps,
                done: replies.len(),
                end: m.stage->end,
            },
        ),
        replies.len() == m.stage->steps.len() ==> run(m, replies) == m.at(
            stage_behind(m.stage->end),
        ),
        performed(m, replies) == m.stage->steps.take(replies.len() as int),
    decreases replies.len(),
{
    let steps = m.stage->steps;
    if replies.len() > 0 {
        let n = replies.len() - 1;
        assert forall|i: int| 0 <= i < replies.drop_last().len() implies #[trigger] replies.drop_last()[i] is Done by {
            assert(replies[i] is Done);
        }
        law_steps_are_asked_in_order(m, replies.drop_last());
        assert(replies[n] is Done);
        lemma_step_is_done(m, n as nat, replies[n]);
        assert(steps.take(n + 1) == steps.take(n as int).push(steps[n as int]));
    } else {
        assert(steps.take(0) == Seq::<StepModel>::empty());
    }
}

proof fn lemma_step_is_done(m: EmbedModel, done: nat, reply: Reply)
    requires
        m.stage is Perform,
        reply is Done,
    ensures
        ({
            let steps = m.stage->steps;
            let end = m.stage->end;
            next(m.at(StageModel::Perform { steps, done, end }), reply) == m.at(
                if done + 1 < steps.len() {
                    StageModel::Perform { steps, done: done + 1, end }
                } else {
                    stage_behind(end)
                },
            )
        }),
{
    reveal(next);
}

/// The steps of a session that ends well. They are those for exactly the files that
/// it found. Where it found none, or `lacking` tells that there was no tool for
/// them, they are those for an empty archive.
pub open spec fn is_whole_script(
    job: Job,
    root: Seq<char>,
    files: Seq<Seq<char>>,
    lacking: bool,
    steps: Seq<StepModel>,
) -> bool {
    let dir = joined(root, job.dir());
    ||| exists|uic: Seq<char>, rcc: Seq<char>|
        job == Job::Forms && files.len() > 0 && form_error(dir, files) is None && steps
            == #[trigger] form_steps(root, dir, files, uic, rcc, root)
    ||| exists|rcc: Seq<char>|
        job == Job::Resources && files.len() > 0 && steps == #[trigger] resource_steps(
            root,
            dir,
            files,
            rcc,
        )
    ||| exists|includes: Seq<Seq<char>>|
        (files.len() == 0 || lacking) && steps == empty_steps(root, job)
            + #[trigger] empty_archive_steps(root, job, includes)
}

spec fn is_partway(
    m: EmbedModel,
    found: Seq<Seq<char>>,
    lacking: bool,
    steps: Seq<StepModel>,
    done: int,
    p: Seq<StepModel>,
) -> bool {
    exists|front: Seq<StepModel>|
        is_whole_script(m.job, m.root, found, lacking, #[trigger] (front + steps)) && p == front
            + steps.take(done)
}

#[verifier::opaque]
spec fn is_on_script(
    m: EmbedModel,
    found: Seq<Seq<char>>,
    lacking: bool,
    p: Seq<StepModel>,
) -> bool {
    let empty_is_due = found.len() == 0 || lacking;
    match m.stage {
        StageModel::Root => p.len() == 0,
        StageModel::CurrentDir { .. } => p.len() == 0,
        StageModel::Files => p.len() == 0,
        StageModel::PathVar { files } => p.len() == 0 && files.len() > 0 && files == found,
        StageModel::Uic { files, .. } => p.len() == 0 && files.len() > 0 && files == found,
        StageModel::Rcc { files, .. } => p.len() == 0 && files.len() > 0 && files == found,
        StageModel::Perform { steps, done, end } => match end {
            EndModel::Success => is_partway(m, found, lacking, steps, done as int, p),
            EndModel::Headers => empty_is_due && steps == empty_steps(m.root, m.job) && p
                == steps.take(done as int),
            EndModel::Error { reason } => m.job == Job::Forms && form_error(m.source_dir(), found)
                == Some(reason),
        },
        StageModel::Qmake { .. } => empty_is_due && p == empty_steps(m.root, m.job),
        StageModel::HeaderDir { .. } => empty_is_due && p == empty_steps(m.root, m.job),
        StageModel::CoreDirs { .. } => empty_is_due && p == empty_steps(m.root, m.job),
        StageModel::IncludeDirs { .. } => empty_is_due && p == empty_steps(m.root, m.job),
        StageModel::Finished { result } => result is Ok ==> is_whole_script(
            m.job,
            m.root,
            found,
            lacking,
            p,
        ),
    }
}

/// A session that ends well has done all the steps of its script, in order, and
/// no other. The script is the one for exactly the files that were found. It is the
/// one for an empty archive only where no file was found, where the tools are
/// switched off, or where a tool is missing.
pub proof fn law_success_is_the_whole_script(job: Job, tools: ToolsModel, replies: Seq<Reply>)
    requires
        run(EmbedModel::start(job, tools), replies).stage == (StageModel::Finished {
            result: Ok(()),
        }),
    ensures
        is_whole_script(
            job,
            run(EmbedModel::start(job, tools), replies).root,
            files_found(EmbedModel::start(job, tools), replies),
            tools.noop || tool_missing(EmbedModel::start(job, tools), replies),
            performed(EmbedModel::start(job, tools), replies),
        ),
{
    lemma_on_script(job, tools, replies);
    lemma_run_is_valid(job, tools, replies);
    reveal(is_on_script);
}

/// A session that is to end in an error behind its steps is one for forms, of which
/// one does not lie below the form directory.
pub proof fn law_only_a_form_outside_ends_the_steps(
    job: Job,
    tools: ToolsModel,
    replies: Seq<Reply>,
    reason: Seq<char>,
)
    requires
        run(EmbedModel::start(job, tools), replies).stage matches StageModel::Perform { end, .. }
            && end == (EndModel::Error { reason }),
    ensures
        job == Job::Forms,
        reason == "prefix not found"@,
        !all_inside(
            joined(run(EmbedModel::start(job, tools), replies).root, UI_DIR@),
            files_found(EmbedModel::start(job, tools), replies),
        ),
{
    lemma_on_script(job, tools, replies);
    lemma_run_is_valid(job, tools, replies);
    reveal(is_on_script);
    let m = run(EmbedModel::start(job, tools), replies);
    law_files_inside(m.source_dir(), files_found(EmbedModel::start(job, tools), replies));
}

proof fn lemma_on_script(job: Job, tools: ToolsModel, replies: Seq<Reply>)
    ensures
        is_on_script(
            run(EmbedModel::start(job, tools), replies),
            files_found(EmbedModel::start(job, tools), replies),
            tools.noop || tool_missing(EmbedModel::start(job, tools), replies),
            performed(EmbedModel::start(job, tools), replies),
        ),
    decreases replies.len(),
{
    let start = EmbedModel::start(job, tools);
    if replies.len() == 0 {
        reveal(is_on_script);
    } else {
        lemma_on_script(job, tools, replies.drop_last());
        lemma_run_is_valid(job, tools, replies.drop_last());
        lemma_on_script_step(
            run(start, replies.drop_last()),
            files_found(start, replies.drop_last()),
            tools.noop || tool_missing(start, replies.drop_last()),
            performed(start, replies.drop_last()),
            replies.last(),
        );
    }
}

proof fn lemma_on_script_step(
    m: EmbedModel,
    found: Seq<Seq<char>>,
    lacking: bool,
    p: Seq<StepModel>,
    reply: Reply,
)
    requires
        m.is_valid(),
        m.tools.noop ==> lacking,
        is_on_script(m, found, lacking, p),
    ensures
        is_on_script(
            next(m, reply),
            found_next(m, found, reply),
            lacking || misses_tool(m, reply),
            performed_next(m, p, reply),
        ),
{
    match m.stage {
        StageModel::Rcc { .. } => {
            lemma_on_script_at_rcc(m, found, lacking, p, reply);
        },
        StageModel::Perform { .. } => {
            lemma_on_script_at_steps(m, found, lacking, p, reply);
        },
        StageModel::IncludeDirs { .. } => {
            lemma_on_script_at_headers(m, found, lacking, p, reply);
        },
        _ => {
            lemma_on_script_elsewhere(m, found, lacking, p, reply);
        },
    }
}

proof fn lemma_on_script_elsewhere(
    m: EmbedModel,
    found: Seq<Seq<char>>,
    lacking: bool,
    p: Seq<StepModel>,
    reply: Reply,
)
    requires
        m.is_valid(),
        m.tools.noop ==> lacking,
        !(m.stage is Rcc || m.stage is Perform || m.stage is IncludeDirs),
        is_on_script(m, found, lacking, p),
    ensures
        is_on_script(
            next(m, reply),
            found_next(m, found, reply),
            lacking || misses_tool(m, reply),
            performed_next(m, p, reply),
        ),
{
    reveal(next);
    reveal(is_on_script);
    let none = Seq::<StepModel>::empty();
    assert(empty_steps(m.root, m.job).take(0) == none);
    if p.len() == 0 {
        assert(p == none);
    }
}

proof fn lemma_on_script_at_rcc(
    m: EmbedModel,
    found: Seq<Seq<char>>,
    lacking: bool,
    p: Seq<StepModel>,
    reply: Reply,
)
    requires
        m.stage is Rcc,
        is_on_script(m, found, lacking, p),
    ensures
        is_on_script(
            next(m, reply),
            found_next(m, found, reply),
            lacking || misses_tool(m, reply),
            performed_next(m, p, reply),
        ),
{
    reveal(next);
    reveal(is_on_script);
    let none = Seq::<StepModel>::empty();
    assert(p == none);
    assert(empty_steps(m.root, m.job).take(0) == none);
    match (m.stage, reply) {
        (StageModel::Rcc { files, path_var, uic }, Reply::Answers(a)) => {
            match found_tool(m.tools, rcc_names(), path_var, a@) {
                Some(rcc) => {
                    let stage = script_stage(m.job, m.root, m.source_dir(), files, uic, rcc);
                    let steps = stage->steps;
                    assert(next(m, reply) == m.at(stage));
                    assert(none + steps == steps);
                    assert(p == none + steps.take(0));
                    if m.job == Job::Forms {
                        assert(steps == form_steps(m.root, m.source_dir(), files, uic, rcc, m.root));
                        if form_error(m.source_dir(), files) is None {
                            assert(is_whole_script(m.job, m.root, found, lacking, none + steps));
                            assert(is_partway(m.at(stage), found, lacking, steps, 0, p));
                        }
                    } else {
                        assert(steps == resource_steps(m.root, m.source_dir(), files, rcc));
                        assert(is_whole_script(m.job, m.root, found, lacking, none + steps));
                        assert(is_partway(m.at(stage), found, lacking, steps, 0, p));
                    }
                },
                None => {},
            }
        },
        _ => {},
    }
}

proof fn lemma_on_script_at_steps(
    m: EmbedModel,
    found: Seq<Seq<char>>,
    lacking: bool,
    p: Seq<StepModel>,
    reply: Reply,
)
    requires
        m.is_valid(),
        m.stage is Perform,
        is_on_script(m, found, lacking, p),
    ensures
        is_on_script(
            next(m, reply),
            found_next(m, found, reply),
            lacking || misses_tool(m, reply),
            performed_next(m, p, reply),
        ),
{
    reveal(is_on_script);
    let steps = m.stage->steps;
    let end = m.stage->end;
    let d = m.stage->done as int;
    if reply is Done {
        lemma_step_is_done(m, m.stage->done, reply);
        assert(m.at(m.stage) == m);
        let after = p.push(steps[d]);
        assert(steps.take(d + 1) == steps.take(d).push(steps[d]));
        if d + 1 == steps.len() {
            assert(steps.take(d + 1) == steps);
        }
        if end is Success {
            let front = choose|front: Seq<StepModel>|
                is_whole_script(m.job, m.root, found, lacking, #[trigger] (front + steps)) && p
                    == front + steps.take(d);
            assert(after == front + steps.take(d + 1));
            assert(is_whole_script(m.job, m.root, found, lacking, front + steps));
            assert(is_partway(next(m, reply), found, lacking, steps, d + 1, after));
        }
    } else {
        reveal(next);
        assert(next(m, reply) == m || next(m, reply).stage->result is Err);
    }
}

proof fn lemma_on_script_at_headers(
    m: EmbedModel,
    found: Seq<Seq<char>>,
    lacking: bool,
    p: Seq<StepModel>,
    reply: Reply,
)
    requires
        m.stage is IncludeDirs,
        is_on_script(m, found, lacking, p),
    ensures
        is_on_script(
            next(m, reply),
            found_next(m, found, reply),
            lacking || misses_tool(m, reply),
            performed_next(m, p, reply),
        ),
{
    reveal(next);
    reveal(is_on_script);
    match (m.stage, reply) {
        (StageModel::IncludeDirs { base, listings }, Reply::Answers(a)) => {
            let includes = include_dirs(base, header_dirs(base, listings), a@);
            let steps = empty_archive_steps(m.root, m.job, includes);
            let front = empty_steps(m.root, m.job);
            assert(next(m, reply) == m.at(
                StageModel::Perform { steps, done: 0, end: EndModel::Success },
            ));
            assert(is_whole_script(m.job, m.root, found, lacking, front + steps));
            assert(p == front + steps.take(0));
            assert(is_partway(next(m, reply), found, lacking, steps, 0, p));
        },
        _ => {},
    }
}

/// Whatever is embedded, a script ends with the directives that link the whole
/// archive of the job, and the step before them compiles that archive.
#[verifier::rlimit(30)]
pub proof fn law_scripts_link_their_archive(
    job: Job,
    root: Seq<char>,
    files: Seq<Seq<char>>,
    lacking: bool,
    steps: Seq<StepModel>,
)
    requires
        is_whole_script(job, root, files, lacking, steps),
    ensures
        steps.len() >= 4,
        steps.skip(steps.len() - 3) == link_steps(lib_dir(out_dir(root, job)), job.lib()),
        steps[steps.len() - 4] matches StepModel::Compile { plan } && plan.out_dir == lib_dir(
            out_dir(root, job),
        ) && plan.lib_name == job.lib(),
{
    let link = link_steps(lib_dir(out_dir(root, job)), job.lib());
    assert(steps.skip(steps.len() - 3) == link);
}

spec fn writes_below(m: EmbedModel) -> bool {
    m.stage matches StageModel::Perform { steps, .. } ==> all_stay_below(
        steps,
        out_dir(m.root, m.job),
    )
}

/// Whatever is replied, each step that a session asks for writes below
/// `<package>/target/qtrs-build/<ui or qrc>`, the output directory of its job, and
/// nowhere else.
pub proof fn law_sessions_write_below_their_output(
    job: Job,
    tools: ToolsModel,
    replies: Seq<Reply>,
)
    ensures
        run(EmbedModel::start(job, tools), replies).request() matches RequestModel::Perform {
            step,
        } ==> stays_below(
            step,
            out_dir(run(EmbedModel::start(job, tools), replies).root, job),
        ),
{
    lemma_run_is_valid(job, tools, replies);
    lemma_writes_below(job, tools, replies);
}

/// Whatever is replied, what a session writes lies neither in the output directory of
/// the other job nor in the directories that hold the forms and the resource lists:
/// so embedding the resources leaves the archive of the forms and all sources
/// untouched, and embedding the forms that of the resources.
pub proof fn law_sessions_leave_the_rest_alone(
    job: Job,
    other: Job,
    tools: ToolsModel,
    replies: Seq<Reply>,
    p: Seq<char>,
)
    requires
        job != other,
        run(EmbedModel::start(job, tools), replies).request() matches RequestModel::Perform {
            step,
        } && writes(step, p),
    ensures
        ({
            let root = run(EmbedModel::start(job, tools), replies).root;
            &&& is_within(p, out_dir(root, job))
            &&& !is_within(p, out_dir(root, other))
            &&& !is_within(p, joined(root, UI_DIR@))
            &&& !is_within(p, joined(root, QRC_DIR@))
        }),
{
    law_sessions_write_below_their_output(job, tools, replies);
    law_outputs_are_apart(run(EmbedModel::start(job, tools), replies).root, job, p);
}

/// Whatever is replied, all that the steps of a session have written lies below the
/// output directory of its job, and neither in that of the other job nor in the
/// directories that hold the forms and the resource lists.
pub proof fn law_what_was_written_lies_apart(
    job: Job,
    other: Job,
    tools: ToolsModel,
    replies: Seq<Reply>,
    i: int,
    p: Seq<char>,
)
    requires
        job != other,
        0 <= i < performed(EmbedModel::start(job, tools), replies).len(),
        writes(performed(EmbedModel::start(job, tools), replies)[i], p),
    ensures
        ({
            let root = run(EmbedModel::start(job, tools), replies).root;
            &&& is_within(p, out_dir(root, job))
            &&& !is_within(p, out_dir(root, other))
            &&& !is_within(p, joined(root, UI_DIR@))
            &&& !is_within(p, joined(root, QRC_DIR@))
        }),
{
    let start = EmbedModel::start(job, tools);
    lemma_wrote_below(job, tools, replies);
    lemma_run_is_valid(job, tools, replies);
    assert(stays_below(performed(start, replies)[i], out_dir(run(start, replies).root, job)));
    law_outputs_are_apart(run(start, replies).root, job, p);
}

spec fn wrote_below(m: EmbedModel, p: Seq<StepModel>) -> bool {
    &&& all_stay_below(p, out_dir(m.root, m.job))
    &&& m.stage is Root || m.stage is CurrentDir ==> p.len() == 0
}

proof fn lemma_wrote_below(job: Job, tools: ToolsModel, replies: Seq<Reply>)
    ensures
        wrote_below(
            run(EmbedModel::start(job, tools), replies),
            performed(EmbedModel::start(job, tools), replies),
        ),
    decreases replies.len(),
{
    let start = EmbedModel::start(job, tools);
    if replies.len() > 0 {
        let head = replies.drop_last();
        lemma_wrote_below(job, tools, head);
        lemma_writes_below(job, tools, head);
        lemma_run_is_valid(job, tools, head);
        lemma_still_wrote_below(run(start, head), performed(start, head), replies.last());
    }
}

proof fn lemma_still_wrote_below(m: EmbedModel, p: Seq<StepModel>, reply: Reply)
    requires
        m.is_valid(),
        writes_below(m),
        wrote_below(m, p),
    ensures
        wrote_below(next(m, reply), performed_next(m, p, reply)),
{
    reveal(next);
    let after = performed_next(m, p, reply);
    let out = out_dir(m.root, m.job);
    assert(all_stay_below(after, out)) by {
        assert forall|i: int| 0 <= i < after.len() implies stays_below(#[trigger] after[i], out) by {
            if i < p.len() {
                assert(after[i] == p[i]);
            } else {
                assert(after[i] == m.stage->steps[m.stage->done as int]);
            }
        }
    }
    assert(m.stage is Root || m.stage is CurrentDir || next(m, reply).root == m.root);
    assert(next(m, reply).job == m.job);
}

proof fn lemma_writes_below(job: Job, tools: ToolsModel, replies: Seq<Reply>)
    ensures
        writes_below(run(EmbedModel::start(job, tools), replies)),
    decreases replies.len(),
{
    if replies.len() > 0 {
        lemma_writes_below(job, tools, replies.drop_last());
        lemma_still_writes_below(
            run(EmbedModel::start(job, tools), replies.drop_last()),
            replies.last(),
        );
    }
}

proof fn lemma_still_writes_below(m: EmbedModel, reply: Reply)
    requires
        writes_below(m),
    ensures
        writes_below(next(m, reply)),
{
    reveal(next);
    law_empty_steps_stay_below(m.root, m.job, Seq::empty());
    match (m.stage, reply) {
        (StageModel::Rcc { files, path_var, uic }, Reply::Answers(a)) => {
            match found_tool(m.tools, rcc_names(), path_var, a@) {
                Some(rcc) => {
                    law_form_steps_stay_below(m.root, m.source_dir(), files, uic, rcc, m.root);
                    law_resource_steps_stay_below(m.root, m.source_dir(), files, rcc);
                },
                None => {},
            }
        },
        (StageModel::IncludeDirs { base, listings }, Reply::Answers(a)) => {
            law_empty_steps_stay_below(
                m.root,
                m.job,
                include_dirs(base, header_dirs(base, listings), a@),
            );
        },
        _ => {},
    }
}

/// A session ends in an error only for something that could not be done, with the
/// reason that was given, for a tool that rejected a file, with a text that names
/// both, or for a form outside the form directory.
pub proof fn law_errors_have_a_cause(
    job: Job,
    tools: ToolsModel,
    replies: Seq<Reply>,
    reason: Seq<char>,
)
    requires
        run(EmbedModel::start(job, tools), replies).stage == (StageModel::Finished {
            result: Err(reason),
        }),
    ensures
        exists|i: int|
            0 <= i < replies.len() && is_cause(
                run(EmbedModel::start(job, tools), replies.take(i)),
                #[trigger] replies[i],
                reason,
            ),
{
    let start = EmbedModel::start(job, tools);
    let i = lemma_first_cause(start, replies, reason);
    assert(is_cause(run(start, replies.take(i)), replies[i], reason));
}

proof fn lemma_first_cause(start: EmbedModel, replies: Seq<Reply>, reason: Seq<char>) -> (i: int)
    requires
        !(start.stage is Finished),
        run(start, replies).stage == (StageModel::Finished { result: Err(reason) }),
    ensures
        0 <= i < replies.len(),
        is_cause(run(start, replies.take(i)), replies[i], reason),
    decreases replies.len(),
{
    let head = replies.drop_last();
    let n = replies.len() - 1;
    assert(replies.len() > 0);
    assert(replies.take(n) == head);
    if run(start, head).stage == (StageModel::Finished { result: Err(reason) }) {
        let i = lemma_first_cause(start, head, reason);
        assert(head.take(i) == replies.take(i));
        i
    } else {
        lemma_cause_of_an_error(run(start, head), replies[n], reason);
        n
    }
}

proof fn lemma_cause_of_an_error(m: EmbedModel, reply: Reply, reason: Seq<char>)
    requires
        m.stage != (StageModel::Finished { result: Err(reason) }),
        next(m, reply).stage == (StageModel::Finished { result: Err(reason) }),
    ensures
        is_cause(m, reply, reason),
{
    reveal(next);
    assert(m.stage is Perform || m.stage is CurrentDir);
}

/// Whether the reply ends the session with the error.
pub open spec fn is_cause(m: EmbedModel, reply: Reply, reason: Seq<char>) -> bool {
    match m.stage {
        StageModel::CurrentDir { .. } => reply matches Reply::Failed(text) && text@ == reason,
        StageModel::Perform { steps, done, end } => match reply {
            Reply::Failed(text) => text@ == reason,
            Reply::Refused => steps[done as int] matches StepModel::Run { program, subject, .. }
                && reason == rejection(program, subject),
            Reply::Done => end == (EndModel::Error { reason }),
            _ => false,
        },
        _ => false,
    }
}

spec fn is_behind_no_link(steps: Seq<StepModel>, done: int, p: Seq<StepModel>) -> bool {
    exists|front: Seq<StepModel>|
        links_nothing(front) && p == #[trigger] (front + steps.take(done))
}

#[verifier::opaque]
spec fn is_before_links(m: EmbedModel, p: Seq<StepModel>) -> bool {
    match m.stage {
        StageModel::Perform { steps, done, end } => {
            &&& links_last(steps)
            &&& end is Success || links_nothing(steps)
            &&& is_behind_no_link(steps, done as int, p)
        },
        StageModel::Finished { result } => result is Err ==> links_nothing(p),
        _ => links_nothing(p),
    }
}

/// Whether the request is to print a line.
pub open spec fn is_print(request: RequestModel) -> bool {
    request matches RequestModel::Perform { step } && step is Print
}

/// A session that ends in an error has told cargo to link nothing, wherever lines
/// could be printed.
pub proof fn law_errors_link_nothing(
    job: Job,
    tools: ToolsModel,
    replies: Seq<Reply>,
    reason: Seq<char>,
)
    requires
        run(EmbedModel::start(job, tools), replies).stage == (StageModel::Finished {
            result: Err(reason),
        }),
        forall|i: int|
            0 <= i < replies.len() && is_print(
                run(EmbedModel::start(job, tools), replies.take(i)).request(),
            ) ==> !(#[trigger] replies[i] is Failed),
    ensures
        links_nothing(performed(EmbedModel::start(job, tools), replies)),
{
    lemma_before_links(job, tools, replies);
    reveal(is_before_links);
}

proof fn lemma_before_links(job: Job, tools: ToolsModel, replies: Seq<Reply>)
    requires
        forall|i: int|
            0 <= i < replies.len() && is_print(
                run(EmbedModel::start(job, tools), replies.take(i)).request(),
            ) ==> !(#[trigger] replies[i] is Failed),
    ensures
        is_before_links(
            run(EmbedModel::start(job, tools), replies),
            performed(EmbedModel::start(job, tools), replies),
        ),
    decreases replies.len(),
{
    let start = EmbedModel::start(job, tools);
    if replies.len() == 0 {
        reveal(is_before_links);
    } else {
        let head = replies.drop_last();
        let n = replies.len() - 1;
        assert forall|i: int|
            0 <= i < head.len() && is_print(run(start, head.take(i)).request()) implies !(
        #[trigger] head[i] is Failed) by {
            assert(head.take(i) == replies.take(i));
            assert(head[i] == replies[i]);
        }
        lemma_before_links(job, tools, head);
        lemma_run_is_valid(job, tools, head);
        assert(replies.take(n) == head);
        assert(replies[n] == replies.last());
        lemma_before_links_step(run(start, head), performed(start, head), replies.last());
    }
}

proof fn lemma_before_links_step(m: EmbedModel, p: Seq<StepModel>, reply: Reply)
    requires
        m.is_valid(),
        is_before_links(m, p),
        is_print(m.request()) ==> !(reply is Failed),
    ensures
        is_before_links(next(m, reply), performed_next(m, p, reply)),
{
    reveal(is_before_links);
    reveal(next);
    let then = m.resume(reply);
    law_empty_steps_link_last(m.root, m.job, Seq::empty());
    match m.stage {
        StageModel::Perform { .. } => {
            lemma_before_links_in_steps(m, p, reply);
        },
        _ => {
            if then.stage is Perform {
                let steps = then.stage->steps;
                assert(p == p + steps.take(0));
                assert(is_behind_no_link(steps, 0, p));
                match (m.stage, reply) {
                    (StageModel::Rcc { files, path_var, uic }, Reply::Answers(a)) => {
                        match found_tool(m.tools, rcc_names(), path_var, a@) {
                            Some(rcc) => {
                                law_form_steps_link_last(
                                    m.root,
                                    m.source_dir(),
                                    files,
                                    uic,
                                    rcc,
                                    m.root,
                                );
                                law_resource_steps_link_last(m.root, m.source_dir(), files, rcc);
                            },
                            None => {},
                        }
                    },
                    (StageModel::IncludeDirs { base, listings }, Reply::Answers(a)) => {
                        law_empty_steps_link_last(
                            m.root,
                            m.job,
                            include_dirs(base, header_dirs(base, listings), a@),
                        );
                    },
                    _ => {},
                }
                lemma_links_last_of_nothing(empty_steps(m.root, m.job));
            }
        },
    }
}

proof fn lemma_before_links_in_steps(m: EmbedModel, p: Seq<StepModel>, reply: Reply)
    requires
        m.is_valid(),
        m.stage is Perform,
        is_before_links(m, p),
        is_print(m.request()) ==> !(reply is Failed),
    ensures
        is_before_links(next(m, reply), performed_next(m, p, reply)),
{
    reveal(is_before_links);
    reveal(next);
    let steps = m.stage->steps;
    let end = m.stage->end;
    let d = m.stage->done as int;
    let then = m.resume(reply);
    let front = choose|front: Seq<StepModel>|
        links_nothing(front) && p == #[trigger] (front + steps.take(d));
    assert(links_nothing(front) && p == front + steps.take(d));
    if reply is Done {
        let after = p.push(steps[d]);
        assert(steps.take(d + 1) == steps.take(d).push(steps[d]));
        assert(after == front + steps.take(d + 1));
        assert(performed_next(m, p, reply) == after);
        if d + 1 < steps.len() {
            assert(then.stage == (StageModel::Perform { steps, done: (d + 1) as nat, end }));
            assert(is_behind_no_link(steps, d + 1, after));
            assert(is_before_links(then, after));
        } else {
            assert(steps.take(d + 1) == steps);
            assert(then.stage == stage_behind(end));
            if !(end is Success) {
                lemma_join_links_nothing(front, steps);
                assert(links_nothing(after));
            }
            assert(is_before_links(then, after));
        }
    } else if then.stage is Finished {
        assert(!(steps[d] is Print));
        assert(links_nothing(steps.take(d))) by {
            assert forall|i: int| 0 <= i < d implies !is_link_directive(
                #[trigger] steps.take(d)[i],
            ) by {
                assert(steps.take(d)[i] == steps[i]);
            }
        }
        lemma_join_links_nothing(front, steps.take(d));
        assert(links_nothing(p));
        assert(is_before_links(then, p));
    } else {
        assert(then == m);
        assert(performed_next(m, p, reply) == p);
    }
}

proof fn lemma_links_last_of_nothing(steps: Seq<StepModel>)
    requires
        links_nothing(steps),
    ensures
        links_last(steps),
{
}

/// A form that `uic` rejects fails the build, with a text that names the form
/// and the tool, and nothing more is done.
pub proof fn law_a_rejected_form_fails_the_build(
    m: EmbedModel,
    dir: Seq<char>,
    files: Seq<Seq<char>>,
    uic: Seq<char>,
    rcc: Seq<char>,
    current: Seq<char>,
    end: EndModel,
    i: int,
    then: Seq<Reply>,
)
    requires
        0 <= i < files.len(),
        all_inside(dir, files),
        m.stage == (StageModel::Perform {
            steps: form_steps(m.root, dir, files, uic, rcc, current),
            done: (1 + 2 * i) as nat,
            end,
        }),
    ensures
        run(m.resume(Reply::Refused), then).stage == (StageModel::Finished {
            result: Err(rejection(uic, files[i])),
        }),
{
    law_every_form_is_checked(m.root, dir, files, uic, rcc, current, i);
    lemma_finished_stays(m.resume(Reply::Refused), then);
}

/// A resource list that `rcc` rejects fails the build, with a text that names the
/// list and the tool, and nothing more is done.
pub proof fn law_a_rejected_list_fails_the_build(
    m: EmbedModel,
    dir: Seq<char>,
    lists: Seq<Seq<char>>,
    rcc: Seq<char>,
    end: EndModel,
    i: int,
    then: Seq<Reply>,
)
    requires
        0 <= i < lists.len(),
        m.stage == (StageModel::Perform {
            steps: resource_steps(m.root, dir, lists, rcc),
            done: (2 + 2 * i) as nat,
            end,
        }),
    ensures
        run(m.resume(Reply::Refused), then).stage == (StageModel::Finished {
            result: Err(rejection(rcc, lists[i])),
        }),
{
    law_every_list_is_compiled(m.root, dir, lists, rcc, i);
    lemma_finished_stays(m.resume(Reply::Refused), then);
}

proof fn lemma_finished_stays(m: EmbedModel, then: Seq<Reply>)
    requires
        m.stage is Finished,
    ensures
        run(m, then) == m,
    decreases then.len(),
{
    if then.len() > 0 {
        reveal(next);
        lemma_finished_stays(m, then.drop_last());
    }
}

/// Each file `<name>.qrc` below the resource directory, at any depth and whatever its name
/// is, is one of those that `rcc` is run on and cargo watches.
pub proof fn law_every_resource_list_reaches_rcc(
    root: Seq<char>,
    dir: Seq<char>,
    list: Vec<Entry>,
    trail: Seq<Seq<char>>,
    name: Seq<char>,
    rcc: Seq<char>,
)
    requires
        dir.len() > 0,
        dir.last() != '/',
        forall|i: int| 0 <= i < trail.len() ==> is_trail_name(#[trigger] trail[i]),
        name.len() > 0,
        name.first() != '/',
        holds_file(list@, trail, name + seq!['.'] + "qrc"@),
    ensures
        exists|k: int|
            #[trigger] runs_and_watches(
                resource_steps(root, dir, collected(dir, Some(list), "qrc"@), rcc),
                k,
                rcc,
                trail_path(dir, trail, name + seq!['.'] + "qrc"@),
            ),
{
    let files = collected(dir, Some(list), "qrc"@);
    let file = trail_path(dir, trail, name + seq!['.'] + "qrc"@);
    reveal_strlit("qrc");
    assert("qrc"@.len() == 3);
    assert(!"qrc"@.contains('.'));
    assert((name + seq!['.'] + "qrc"@).len() > 2);
    law_every_file_is_collected(dir, list, trail, name, "qrc"@);
    let i = choose|i: int| 0 <= i < files.len() && files[i] == file;
    law_every_list_is_compiled(root, dir, files, rcc, i);
    let steps = resource_steps(root, dir, files, rcc);
    assert(runs_and_watches(steps, 2 + 2 * i, rcc, file));
}

/// Each file `<name>.ui` below the form directory, at any depth and whatever its name is,
/// is one of those that `uic` checks and cargo watches.
pub proof fn law_every_form_reaches_uic(
    root: Seq<char>,
    dir: Seq<char>,
    list: Vec<Entry>,
    trail: Seq<Seq<char>>,
    name: Seq<char>,
    uic: Seq<char>,
    rcc: Seq<char>,
    current: Seq<char>,
)
    requires
        dir.len() > 0,
        dir.last() != '/',
        is_listing(list@),
        forall|i: int| 0 <= i < trail.len() ==> is_trail_name(#[trigger] trail[i]),
        name.len() > 0,
        name.first() != '/',
        holds_file(list@, trail, name + seq!['.'] + "ui"@),
    ensures
        exists|k: int|
            #[trigger] runs_and_watches(
                form_steps(root, dir, collected(dir, Some(list), "ui"@), uic, rcc, current),
                k,
                uic,
                trail_path(dir, trail, name + seq!['.'] + "ui"@),
            ),
{
    let files = collected(dir, Some(list), "ui"@);
    let file = trail_path(dir, trail, name + seq!['.'] + "ui"@);
    reveal_strlit("ui");
    assert("ui"@.len() == 2);
    assert(!"ui"@.contains('.'));
    assert((name + seq!['.'] + "ui"@).len() > 2);
    law_every_file_is_collected(dir, list, trail, name, "ui"@);
    let i = choose|i: int| 0 <= i < files.len() && files[i] == file;
    law_listed_forms_are_inside(dir, list);
    law_every_form_is_checked(root, dir, files, uic, rcc, current, i);
    let steps = form_steps(root, dir, files, uic, rcc, current);
    assert(runs_and_watches(steps, 1 + 2 * i, uic, file));
}

/// Whether the `k`-th step runs the program on the file, and the next one tells cargo to
/// watch it.
pub open spec fn runs_and_watches(
    steps: Seq<StepModel>,
    k: int,
    tool: Seq<char>,
    file: Seq<char>,
) -> bool {
    &&& 0 <= k
    &&& k + 1 < steps.len()
    &&& steps[k] matches StepModel::Run { program, subject, .. } && program == tool && subject
        == file
    &&& steps[k + 1] == (StepModel::Print { line: "cargo:rerun-if-changed="@ + file })
}

} // verus!
