//! Where the steps of a job write: below the job's own output directory, and
//! nowhere else.
use crate::forms::{form_header, seen_files};
use crate::path::{
    components, goes_down, is_within, joined, law_components_of_joined,
    law_joined_is_within, law_within, lemma_goes_down, lemma_name,
};
use crate::script::{
    archive_steps, check_steps, empty_archive_steps, empty_steps, files_inside, form_error,
    form_steps, gen_dir, lib_dir, link_steps, out_dir, rcc_run, rcc_steps, rerun,
    resource_name, resource_steps, uic_run, uic_steps, Job, StepModel,
};
use crate::{QRC_DIR, UI_DIR};
use vstd::prelude::*;

verus! {

/// Whether the step writes at `p`: it creates that directory, writes that file,
/// tells a program to by the argument behind `-o`, or compiles into that
/// directory.
pub open spec fn writes(step: StepModel, p: Seq<char>) -> bool {
    match step {
        StepModel::CreateDirs { dir } => p == dir,
        StepModel::WriteFile { path, .. } => p == path,
        StepModel::Run { args, .. } => exists|k: int|
            0 <= k && k + 1 < args.len() && #[trigger] args[k] == "-o"@ && p == args[k + 1],
        StepModel::Print { .. } => false,
        StepModel::Compile { plan } => p == plan.out_dir,
    }
}

/// Whether everything that the step writes lies in the directory or below it.
pub open spec fn stays_below(step: StepModel, dir: Seq<char>) -> bool {
    forall|p: Seq<char>| #[trigger] writes(step, p) ==> is_within(p, dir)
}

/// Whether everything that the steps write lies in the directory or below it.
pub open spec fn all_stay_below(steps: Seq<StepModel>, dir: Seq<char>) -> bool {
    forall|i: int| 0 <= i < steps.len() ==> stays_below(#[trigger] steps[i], dir)
}

proof fn lemma_join_stays_below(a: Seq<StepModel>, b: Seq<StepModel>, dir: Seq<char>)
    requires
        all_stay_below(a, dir),
        all_stay_below(b, dir),
    ensures
        all_stay_below(a + b, dir),
{
    assert forall|i: int| 0 <= i < (a + b).len() implies stays_below(#[trigger] (a + b)[i], dir) by {
        if i < a.len() {
            assert((a + b)[i] == a[i]);
        } else {
            assert((a + b)[i] == b[i - a.len()]);
        }
    }
}

proof fn lemma_own_dirs(out: Seq<char>)
    ensures
        is_within(gen_dir(out), out),
        is_within(lib_dir(out), out),
{
    reveal_strlit("generated");
    reveal_strlit("lib");
    assert("generated"@.len() == 9 && "lib"@.len() == 3);
    lemma_goes_down("generated"@);
    lemma_goes_down("lib"@);
    law_joined_is_within(out, "generated"@);
    law_joined_is_within(out, "lib"@);
}

proof fn lemma_in_gen(out: Seq<char>, name: Seq<char>)
    requires
        name.len() > 0,
        name.first() != '/',
        name.first() != '.',
    ensures
        is_within(joined(gen_dir(out), name), out),
        joined(gen_dir(out), name).last() == name.last(),
{
    lemma_own_dirs(out);
    lemma_goes_down(name);
    law_joined_is_within(gen_dir(out), name);
    law_within(joined(gen_dir(out), name), gen_dir(out), out);
}

proof fn lemma_uic_run(
    uic: Seq<char>,
    out: Seq<char>,
    files: Seq<Seq<char>>,
    forms: Seq<Seq<char>>,
    i: int,
)
    ensures
        stays_below(uic_run(uic, gen_dir(out), files, forms, i), out),
{
    let header = form_header(forms, i);
    reveal_strlit("ui_");
    reveal_strlit(".h");
    reveal_strlit("-o");
    assert(header.first() == 'u' && header.last() == 'h');
    lemma_in_gen(out, header);
    let step = uic_run(uic, gen_dir(out), files, forms, i);
    let args = step->Run_args;
    assert forall|p: Seq<char>| #[trigger] writes(step, p) implies is_within(p, out) by {
        let k = choose|k: int|
            0 <= k && k + 1 < args.len() && #[trigger] args[k] == "-o"@ && p == args[k + 1];
        assert(args[1].last() == 'h');
        assert("-o"@.last() == 'o');
        assert(k == 0);
    }
}

proof fn lemma_rcc_run(
    rcc: Seq<char>,
    cwd: Seq<char>,
    out: Seq<char>,
    job: Job,
    file: Seq<char>,
    i: nat,
)
    ensures
        stays_below(rcc_run(rcc, cwd, gen_dir(out), job.lib(), file, i), out),
{
    let name = resource_name(job.lib(), i);
    let source = name + ".cpp"@;
    reveal_strlit("qtrs_ui");
    reveal_strlit("qtrs_qrc");
    reveal_strlit(".cpp");
    reveal_strlit("-o");
    reveal_strlit("-name");
    assert(job.lib().first() == 'q');
    assert(name.first() == 'q');
    assert(source.first() == 'q' && source.last() == 'p');
    lemma_in_gen(out, source);
    let step = rcc_run(rcc, cwd, gen_dir(out), job.lib(), file, i);
    let args = step->Run_args;
    assert forall|p: Seq<char>| #[trigger] writes(step, p) implies is_within(p, out) by {
        let k = choose|k: int|
            0 <= k && k + 1 < args.len() && #[trigger] args[k] == "-o"@ && p == args[k + 1];
        assert(args[0].len() != "-o"@.len());
        assert(args[1].first() == 'q');
        assert(args[3].last() == 'p');
        assert("-o"@.first() == '-' && "-o"@.last() == 'o');
        assert(k == 2);
    }
}

proof fn lemma_uic_steps(
    uic: Seq<char>,
    out: Seq<char>,
    files: Seq<Seq<char>>,
    forms: Seq<Seq<char>>,
    n: nat,
)
    ensures
        all_stay_below(uic_steps(uic, gen_dir(out), files, forms, n), out),
    decreases n,
{
    if n > 0 {
        let head = uic_steps(uic, gen_dir(out), files, forms, (n - 1) as nat);
        let tail = seq![uic_run(uic, gen_dir(out), files, forms, n - 1), rerun(files[n - 1])];
        lemma_uic_steps(uic, out, files, forms, (n - 1) as nat);
        lemma_uic_run(uic, out, files, forms, n - 1);
        assert(all_stay_below(tail, out));
        lemma_join_stays_below(head, tail, out);
    }
}

proof fn lemma_rcc_steps(
    rcc: Seq<char>,
    cwd: Seq<char>,
    out: Seq<char>,
    job: Job,
    lists: Seq<Seq<char>>,
)
    ensures
        all_stay_below(rcc_steps(rcc, cwd, gen_dir(out), job.lib(), lists), out),
    decreases lists.len(),
{
    if lists.len() > 0 {
        let i = (lists.len() - 1) as nat;
        let head = rcc_steps(rcc, cwd, gen_dir(out), job.lib(), lists.drop_last());
        let tail = seq![
            rcc_run(rcc, cwd, gen_dir(out), job.lib(), lists.last(), i),
            rerun(lists.last()),
        ];
        lemma_rcc_steps(rcc, cwd, out, job, lists.drop_last());
        lemma_rcc_run(rcc, cwd, out, job, lists.last(), i);
        assert(all_stay_below(tail, out));
        lemma_join_stays_below(head, tail, out);
    }
}

proof fn lemma_archive_steps(
    out: Seq<char>,
    rcc: Seq<char>,
    cwd: Seq<char>,
    lists: Seq<Seq<char>>,
    job: Job,
)
    ensures
        all_stay_below(archive_steps(out, rcc, lists, cwd, job.lib(), job.lib()), out),
{
    lemma_own_dirs(out);
    lemma_rcc_steps(rcc, cwd, out, job, lists);
    let all = archive_steps(out, rcc, lists, cwd, job.lib(), job.lib());
    let middle = rcc_steps(rcc, cwd, gen_dir(out), job.lib(), lists);
    let head = seq![StepModel::CreateDirs { dir: gen_dir(out) }];
    let tail = seq![all[all.len() - 2], all[all.len() - 1]];
    assert(all_stay_below(head, out));
    assert(all_stay_below(tail, out));
    lemma_join_stays_below(head, middle, out);
    lemma_join_stays_below(head + middle, tail, out);
    assert(all == head + middle + tail);
}

/// All that is written for the forms of a package lies below
/// `<package>/target/qtrs-build/ui`.
pub proof fn law_form_steps_stay_below(
    root: Seq<char>,
    dir: Seq<char>,
    files: Seq<Seq<char>>,
    uic: Seq<char>,
    rcc: Seq<char>,
    current: Seq<char>,
)
    ensures
        all_stay_below(form_steps(root, dir, files, uic, rcc, current), out_dir(root, Job::Forms)),
{
    let out = out_dir(root, Job::Forms);
    let list = joined(gen_dir(out), "ui.qrc"@);
    let inside = files.take(files_inside(dir, files) as int);
    let first = seq![StepModel::CreateDirs { dir: gen_dir(out) }];
    let checks = uic_steps(uic, gen_dir(out), inside, seen_files(dir, inside), inside.len());
    lemma_own_dirs(out);
    reveal_strlit("ui.qrc");
    assert("ui.qrc"@.len() == 6 && "ui.qrc"@.first() == 'u');
    lemma_in_gen(out, "ui.qrc"@);
    lemma_uic_steps(uic, out, inside, seen_files(dir, inside), inside.len());
    assert(all_stay_below(first, out));
    lemma_join_stays_below(first, checks, out);
    assert(check_steps(root, dir, files, uic) == first + checks);
    if form_error(dir, files) is None {
        let steps = form_steps(root, dir, files, uic, rcc, current);
        let n = (first + checks).len() as int;
        let listed = seq![steps[n], steps[n + 1]];
        let archive = archive_steps(
            out,
            rcc,
            seq![list],
            gen_dir(out),
            Job::Forms.lib(),
            Job::Forms.lib(),
        );
        let link = link_steps(lib_dir(out), Job::Forms.lib());
        lemma_archive_steps(out, rcc, gen_dir(out), seq![list], Job::Forms);
        assert(all_stay_below(listed, out));
        assert(all_stay_below(link, out));
        lemma_join_stays_below(first + checks, listed, out);
        lemma_join_stays_below(first + checks + listed, archive, out);
        lemma_join_stays_below(first + checks + listed + archive, link, out);
        assert(steps == first + checks + listed + archive + link);
    }
}

/// All that is written for the resource lists of a package lies below
/// `<package>/target/qtrs-build/qrc`.
pub proof fn law_resource_steps_stay_below(
    root: Seq<char>,
    dir: Seq<char>,
    lists: Seq<Seq<char>>,
    rcc: Seq<char>,
)
    ensures
        all_stay_below(resource_steps(root, dir, lists, rcc), out_dir(root, Job::Resources)),
{
    let out = out_dir(root, Job::Resources);
    let first = seq![StepModel::CreateDirs { dir: gen_dir(out) }];
    let archive = archive_steps(
        out,
        rcc,
        lists,
        dir,
        Job::Resources.lib(),
        Job::Resources.lib(),
    );
    let link = link_steps(lib_dir(out), Job::Resources.lib());
    lemma_own_dirs(out);
    lemma_archive_steps(out, rcc, dir, lists, Job::Resources);
    assert(all_stay_below(first, out));
    assert(all_stay_below(link, out));
    lemma_join_stays_below(first, archive, out);
    lemma_join_stays_below(first + archive, link, out);
}

/// All that is written for an empty archive lies below the output directory of
/// its job.
pub proof fn law_empty_steps_stay_below(root: Seq<char>, job: Job, includes: Seq<Seq<char>>)
    ensures
        all_stay_below(empty_steps(root, job), out_dir(root, job)),
        all_stay_below(empty_archive_steps(root, job, includes), out_dir(root, job)),
{
    let out = out_dir(root, job);
    lemma_own_dirs(out);
    reveal_strlit("empty.cpp");
    assert("empty.cpp"@.len() == 9 && "empty.cpp"@.first() == 'e');
    lemma_in_gen(out, "empty.cpp"@);
    let steps = empty_archive_steps(root, job, includes);
    let first = seq![steps[0]];
    let link = link_steps(lib_dir(out), job.lib());
    assert(all_stay_below(first, out));
    assert(all_stay_below(link, out));
    lemma_join_stays_below(first, link, out);
    assert(steps == first + link);
}

proof fn lemma_names()
    ensures
        components("target"@) == seq!["target"@],
        components("qtrs-build"@) == seq!["qtrs-build"@],
        components("ui"@) == seq!["ui"@],
        components("qrc"@) == seq!["qrc"@],
        components("resources"@) == seq!["resources"@],
        goes_down("target"@),
        goes_down("qtrs-build"@),
        goes_down("ui"@),
        goes_down("qrc"@),
        goes_down("resources"@),
        "target"@.len() == 6,
        "ui"@.len() == 2,
        "qrc"@.len() == 3,
        "resources"@.len() == 9,
{
    reveal_strlit("target");
    reveal_strlit("qtrs-build");
    reveal_strlit("ui");
    reveal_strlit("qrc");
    reveal_strlit("resources");
    assert("target"@.len() == 6 && "qtrs-build"@.len() == 10);
    assert("ui"@.len() == 2 && "qrc"@.len() == 3 && "resources"@.len() == 9);
    lemma_name("target"@);
    lemma_name("qtrs-build"@);
    lemma_name("ui"@);
    lemma_name("qrc"@);
    lemma_name("resources"@);
}

/// What a job writes is neither in the output directory of the other job nor in
/// the directories that hold the forms and the resource lists.
pub proof fn law_outputs_are_apart(root: Seq<char>, job: Job, p: Seq<char>)
    requires
        is_within(p, out_dir(root, job)),
    ensures
        !is_within(
            p,
            out_dir(
                root,
                match job {
                    Job::Forms => Job::Resources,
                    Job::Resources => Job::Forms,
                },
            ),
        ),
        !is_within(p, joined(root, UI_DIR@)),
        !is_within(p, joined(root, QRC_DIR@)),
{
    lemma_names();
    let other = match job {
        Job::Forms => Job::Resources,
        Job::Resources => Job::Forms,
    };
    let r = components(root);
    let n = r.len() as int;
    law_components_of_joined(root, "target"@);
    law_components_of_joined(joined(root, "target"@), "qtrs-build"@);
    law_components_of_joined(joined(joined(root, "target"@), "qtrs-build"@), job.tag());
    law_components_of_joined(joined(joined(root, "target"@), "qtrs-build"@), other.tag());
    law_components_of_joined(root, UI_DIR@);
    law_components_of_joined(root, QRC_DIR@);
    let own = components(out_dir(root, job));
    let c = components(p);
    assert(own.len() == n + 3);
    assert(own[n] == "target"@ && own[n + 2] == job.tag());
    assert(c.take(n + 3)[n] == c[n] && c.take(n + 3)[n + 2] == c[n + 2]);
    assert(c[n] == "target"@ && c[n + 2] == job.tag());
    if is_within(p, out_dir(root, other)) {
        assert(components(out_dir(root, other))[n + 2] == other.tag());
        assert(c.take(n + 3)[n + 2] == other.tag());
    }
    if is_within(p, joined(root, UI_DIR@)) {
        assert(components(joined(root, UI_DIR@))[n] == UI_DIR@);
        assert(c.take(n + 1)[n] == UI_DIR@);
    }
    if is_within(p, joined(root, QRC_DIR@)) {
        assert(components(joined(root, QRC_DIR@))[n] == QRC_DIR@);
        assert(c.take(n + 1)[n] == QRC_DIR@);
    }
}

} // verus!
