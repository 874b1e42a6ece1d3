//! When cargo is told to link an archive: behind everything that can fail.
use crate::forms::seen_files;
use crate::path::joined;
use crate::script::{
    archive_steps, check_steps, empty_archive_steps, empty_steps, files_inside, form_error,
    form_steps, gen_dir, lib_dir, link_steps, out_dir, rcc_steps, rerun, resource_steps, uic_steps,
    Job, StepModel,
};
use vstd::prelude::*;

verus! {

/// Whether the step tells cargo to link something, or where to find it.
pub open spec fn is_link_directive(step: StepModel) -> bool {
    step matches StepModel::Print { line } && "cargo:rustc-link-"@.is_prefix_of(line)
}

/// Whether none of the steps tells cargo to link something.
pub open spec fn links_nothing(steps: Seq<StepModel>) -> bool {
    forall|i: int| 0 <= i < steps.len() ==> !is_link_directive(#[trigger] steps[i])
}

/// Whether only lines are printed once cargo is told to link something.
pub open spec fn links_last(steps: Seq<StepModel>) -> bool {
    forall|i: int, j: int|
        0 <= i < j < steps.len() && is_link_directive(#[trigger] steps[i]) ==> (
        #[trigger] steps[j]) is Print
}

/// What is printed to link an archive tells cargo where it is and to link it.
pub proof fn law_link_steps_are_directives(dir: Seq<char>, lib: Seq<char>)
    ensures
        is_link_directive(link_steps(dir, lib)[0]),
        is_link_directive(link_steps(dir, lib)[1]),
{
    reveal_strlit("cargo:rustc-link-");
    reveal_strlit("cargo:rustc-link-search=native=");
    reveal_strlit("cargo:rustc-link-lib=static:+whole-archive=");
    let front = "cargo:rustc-link-"@;
    assert(front =~= ("cargo:rustc-link-search=native="@ + dir).subrange(0, front.len() as int));
    assert(front =~= ("cargo:rustc-link-lib=static:+whole-archive="@ + lib).subrange(
        0,
        front.len() as int,
    ));
}

proof fn lemma_rerun(path: Seq<char>)
    ensures
        !is_link_directive(rerun(path)),
{
    reveal_strlit("cargo:rustc-link-");
    reveal_strlit("cargo:rerun-if-changed=");
    let line = "cargo:rerun-if-changed="@ + path;
    assert(line[7] == 'e');
    if "cargo:rustc-link-"@.is_prefix_of(line) {
        assert("cargo:rustc-link-"@[7] == line.subrange(0, 17)[7]);
    }
}

pub proof fn lemma_join_links_nothing(a: Seq<StepModel>, b: Seq<StepModel>)
    requires
        links_nothing(a),
        links_nothing(b),
    ensures
        links_nothing(a + b),
{
    assert forall|i: int| 0 <= i < (a + b).len() implies !is_link_directive(
        #[trigger] (a + b)[i],
    ) by {
        if i < a.len() {
            assert((a + b)[i] == a[i]);
        } else {
            assert((a + b)[i] == b[i - a.len()]);
        }
    }
}

proof fn lemma_uic_steps(
    uic: Seq<char>,
    gen: Seq<char>,
    files: Seq<Seq<char>>,
    forms: Seq<Seq<char>>,
    n: nat,
)
    ensures
        links_nothing(uic_steps(uic, gen, files, forms, n)),
    decreases n,
{
    if n > 0 {
        lemma_uic_steps(uic, gen, files, forms, (n - 1) as nat);
        lemma_rerun(files[n - 1]);
    }
}

proof fn lemma_rcc_steps(
    rcc: Seq<char>,
    cwd: Seq<char>,
    gen: Seq<char>,
    prefix: Seq<char>,
    lists: Seq<Seq<char>>,
)
    ensures
        links_nothing(rcc_steps(rcc, cwd, gen, prefix, lists)),
    decreases lists.len(),
{
    if lists.len() > 0 {
        lemma_rcc_steps(rcc, cwd, gen, prefix, lists.drop_last());
        lemma_rerun(lists.last());
    }
}

proof fn lemma_archive_steps(
    out: Seq<char>,
    rcc: Seq<char>,
    lists: Seq<Seq<char>>,
    cwd: Seq<char>,
    lib: Seq<char>,
    prefix: Seq<char>,
)
    ensures
        links_nothing(archive_steps(out, rcc, lists, cwd, lib, prefix)),
{
    lemma_rcc_steps(rcc, cwd, gen_dir(out), prefix, lists);
}

proof fn lemma_links_last(front: Seq<StepModel>, dir: Seq<char>, lib: Seq<char>)
    requires
        links_nothing(front),
    ensures
        links_last(front + link_steps(dir, lib)),
{
    let link = link_steps(dir, lib);
    let all = front + link;
    assert forall|i: int, j: int|
        0 <= i < j < all.len() && is_link_directive(#[trigger] all[i]) implies (
    #[trigger] all[j]) is Print by {
        if i < front.len() {
            assert(all[i] == front[i]);
        }
        assert(all[j] == link[j - front.len()]);
    }
}

proof fn lemma_check_steps(root: Seq<char>, dir: Seq<char>, files: Seq<Seq<char>>, uic: Seq<char>)
    ensures
        links_nothing(check_steps(root, dir, files, uic)),
{
    let inside = files.take(files_inside(dir, files) as int);
    lemma_uic_steps(
        uic,
        gen_dir(out_dir(root, Job::Forms)),
        inside,
        seen_files(dir, inside),
        inside.len(),
    );
}

/// The steps for forms tell cargo to link their archive last, and not at all where
/// a form does not lie below the form directory.
pub proof fn law_form_steps_link_last(
    root: Seq<char>,
    dir: Seq<char>,
    files: Seq<Seq<char>>,
    uic: Seq<char>,
    rcc: Seq<char>,
    current: Seq<char>,
)
    ensures
        links_last(form_steps(root, dir, files, uic, rcc, current)),
        form_error(dir, files) is Some ==> links_nothing(form_steps(root, dir, files, uic, rcc, current)),
{
    let steps = form_steps(root, dir, files, uic, rcc, current);
    let checks = check_steps(root, dir, files, uic);
    lemma_check_steps(root, dir, files, uic);
    if form_error(dir, files) is None {
        let out = out_dir(root, Job::Forms);
        let gen = gen_dir(out);
        let list = joined(gen, "ui.qrc"@);
        let n = checks.len() as int;
        let listed = seq![steps[n], steps[n + 1]];
        let lib = Job::Forms.lib();
        let archive = archive_steps(out, rcc, seq![list], gen, lib, lib);
        assert(steps[n] is WriteFile && steps[n + 1] == rerun(list));
        lemma_rerun(list);
        lemma_archive_steps(out, rcc, seq![list], gen, lib, lib);
        assert(links_nothing(listed));
        lemma_join_links_nothing(checks, listed);
        lemma_join_links_nothing(checks + listed, archive);
        lemma_links_last(
            checks + listed + archive,
            lib_dir(out),
            Job::Forms.lib(),
        );
        assert(steps == checks + listed + archive + link_steps(
            lib_dir(out),
            Job::Forms.lib(),
        ));
    }
}

/// The steps for resource lists tell cargo to link their archive last.
pub proof fn law_resource_steps_link_last(
    root: Seq<char>,
    dir: Seq<char>,
    lists: Seq<Seq<char>>,
    rcc: Seq<char>,
)
    ensures
        links_last(resource_steps(root, dir, lists, rcc)),
{
    let out = out_dir(root, Job::Resources);
    let first = seq![StepModel::CreateDirs { dir: gen_dir(out) }];
    let lib = Job::Resources.lib();
    let archive = archive_steps(out, rcc, lists, dir, lib, lib);
    lemma_archive_steps(out, rcc, lists, dir, lib, lib);
    assert(links_nothing(first));
    lemma_join_links_nothing(first, archive);
    lemma_links_last(first + archive, lib_dir(out), Job::Resources.lib());
}

/// The steps for an empty archive tell cargo to link it last, once its include
/// directories are known.
pub proof fn law_empty_steps_link_last(root: Seq<char>, job: Job, includes: Seq<Seq<char>>)
    ensures
        links_nothing(empty_steps(root, job)),
        links_last(empty_archive_steps(root, job, includes)),
{
    let steps = empty_archive_steps(root, job, includes);
    let first = seq![steps[0]];
    let dir = lib_dir(out_dir(root, job));
    assert(links_nothing(first));
    lemma_links_last(first, dir, job.lib());
    assert(steps == first + link_steps(dir, job.lib()));
}

} // verus!
