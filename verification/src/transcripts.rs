//! The steps of each script, written out one by one.
use crate::compiler::PlanModel;
use crate::forms::{form_header, form_list, seen_files};
use crate::path::{absolute_path, joined, seen_from};
use crate::script::{
    archive_steps, empty_archive_steps, empty_source, empty_steps, files_inside, form_error,
    form_steps, gen_dir, law_files_inside, lemma_check_steps, lemma_rcc_steps, lemma_uic_steps,
    lib_dir, link_steps, marker, models, out_dir, rcc_argument, rcc_steps, rejection, rerun,
    resource_name, resource_source, resource_steps, uic_steps, whole_files, Job, Step, StepModel,
};
use crate::text::{decimal, opt_text, texts};
use crate::{QRC_DIR, UI_DIR, UI_PREFIX};
use vstd::prelude::*;

verus! {

/// The forms of a package are the `.ui` files below `ui`, and go into the archive
/// `qtrs_ui`; its resources are the `.qrc` files below `resources`, and go into the
/// archive `qtrs_qrc`.
pub proof fn law_jobs()
    ensures
        UI_PREFIX@ == "qrc"@,
        UI_DIR@ == "ui"@,
        QRC_DIR@ == "resources"@,
        Job::Forms.dir() == "ui"@,
        Job::Forms.ext() == "ui"@,
        Job::Forms.lib() == "qtrs_ui"@,
        Job::Forms.tag() == "ui"@,
        Job::Resources.dir() == "resources"@,
        Job::Resources.ext() == "qrc"@,
        Job::Resources.lib() == "qtrs_qrc"@,
        Job::Resources.tag() == "qrc"@,
{
}

/// What a step says is what it holds.
pub proof fn law_step_view(step: Step)
    ensures
        step matches Step::CreateDirs { dir } ==> step@ == (StepModel::CreateDirs { dir: dir@ }),
        step matches Step::WriteFile { path, text } ==> step@ == (StepModel::WriteFile {
            path: path@,
            text: text@,
        }),
        step matches Step::Run { program, args, cwd, subject } ==> step@ == (StepModel::Run {
            program: program@,
            args: texts(args@),
            cwd: opt_text(cwd),
            subject: subject@,
        }),
        step matches Step::Print { line } ==> step@ == (StepModel::Print { line: line@ }),
        step matches Step::Compile { plan } ==> step@ == (StepModel::Compile { plan: plan@ }),
{
}

/// What a list of steps says is what each of them says, in order.
pub proof fn law_models(steps: Seq<Step>)
    ensures
        models(steps).len() == steps.len(),
        forall|i: int| 0 <= i < steps.len() ==> #[trigger] models(steps)[i] == steps[i]@,
{
}

/// What is made for a job is put below `target/qtrs-build/ui` or `target/qtrs-build/qrc`
/// of the package: generated files in `generated` there, and the archive in `lib`.
pub proof fn law_output_dirs(root: Seq<char>, out: Seq<char>)
    ensures
        out_dir(root, Job::Forms) == joined(
            joined(joined(root, "target"@), "qtrs-build"@),
            "ui"@,
        ),
        out_dir(root, Job::Resources) == joined(
            joined(joined(root, "target"@), "qtrs-build"@),
            "qrc"@,
        ),
        gen_dir(out) == joined(out, "generated"@),
        lib_dir(out) == joined(out, "lib"@),
{
}

/// Cargo is told to watch a file by one line that names it.
pub proof fn law_rerun(path: Seq<char>)
    ensures
        rerun(path) == (StepModel::Print { line: "cargo:rerun-if-changed="@ + path }),
{
}

/// An archive is linked by three lines: where it is, that all of it is linked, and that
/// it is watched.
pub proof fn law_link_lines(dir: Seq<char>, lib: Seq<char>)
    ensures
        link_steps(dir, lib) == seq![
            StepModel::Print { line: "cargo:rustc-link-search=native="@ + dir },
            StepModel::Print { line: "cargo:rustc-link-lib=static:+whole-archive="@ + lib },
            StepModel::Print {
                line: "cargo:rerun-if-changed="@ + joined(dir, "lib"@ + lib + ".a"@),
            },
        ],
{
}

/// A resource list registers under the prefix, `_` and its number, and `rcc` makes a C++
/// source of that name of it.
pub proof fn law_resource_sources(gen: Seq<char>, prefix: Seq<char>, i: nat)
    ensures
        resource_name(prefix, i) == prefix + "_"@ + decimal(i),
        resource_source(gen, prefix, i) == joined(gen, prefix + "_"@ + decimal(i) + ".cpp"@),
{
}

/// `rcc` is told to read a list by its path from the directory where it is run, and by
/// its whole path where the list does not lie below that.
pub proof fn law_what_rcc_reads(cwd: Seq<char>, file: Seq<char>)
    ensures
        seen_from(file, cwd) is None ==> rcc_argument(cwd, file) == file,
        seen_from(file, cwd) matches Some(rel) ==> rcc_argument(cwd, file) == if rel.len() > 0 {
            rel
        } else {
            file
        },
{
}

/// `rcc` is run on each list in order, with the name under which the list registers and
/// the source that is to be made of it, and cargo is told to watch the list.
pub proof fn law_rcc_runs(
    rcc: Seq<char>,
    cwd: Seq<char>,
    gen: Seq<char>,
    prefix: Seq<char>,
    lists: Seq<Seq<char>>,
    i: int,
)
    requires
        0 <= i < lists.len(),
    ensures
        rcc_steps(rcc, cwd, gen, prefix, lists).len() == 2 * lists.len(),
        rcc_steps(rcc, cwd, gen, prefix, lists)[2 * i] == (StepModel::Run {
            program: rcc,
            args: seq![
                "-name"@,
                prefix + "_"@ + decimal(i as nat),
                "-o"@,
                joined(gen, prefix + "_"@ + decimal(i as nat) + ".cpp"@),
                rcc_argument(cwd, lists[i]),
            ],
            cwd: Some(cwd),
            subject: lists[i],
        }),
        rcc_steps(rcc, cwd, gen, prefix, lists)[2 * i + 1] == (StepModel::Print {
            line: "cargo:rerun-if-changed="@ + lists[i],
        }),
{
    lemma_rcc_steps(rcc, cwd, gen, prefix, lists, i);
}

/// An archive is made by creating the directory of the generated files, running `rcc` on
/// each list, creating the directory of the archive, and compiling the sources in order.
pub proof fn law_archive_script(
    out: Seq<char>,
    rcc: Seq<char>,
    lists: Seq<Seq<char>>,
    cwd: Seq<char>,
    lib: Seq<char>,
    prefix: Seq<char>,
    sources: Seq<Seq<char>>,
)
    requires
        sources.len() == lists.len(),
        forall|i: int|
            0 <= i < lists.len() ==> #[trigger] sources[i] == joined(
                joined(out, "generated"@),
                prefix + "_"@ + decimal(i as nat) + ".cpp"@,
            ),
    ensures
        archive_steps(out, rcc, lists, cwd, lib, prefix) == seq![
            StepModel::CreateDirs { dir: joined(out, "generated"@) },
        ] + rcc_steps(rcc, cwd, joined(out, "generated"@), prefix, lists) + seq![
            StepModel::CreateDirs { dir: joined(out, "lib"@) },
            StepModel::Compile {
                plan: PlanModel {
                    sources,
                    includes: Seq::empty(),
                    out_dir: joined(out, "lib"@),
                    lib_name: lib,
                },
            },
        ],
{
    let made = Seq::new(lists.len(), |i: int| resource_source(gen_dir(out), prefix, i as nat));
    assert(made == sources);
}

/// `uic` is run on each form in order, with the header that it is to write, and cargo is
/// told to watch the form.
pub proof fn law_uic_runs(
    uic: Seq<char>,
    gen: Seq<char>,
    files: Seq<Seq<char>>,
    forms: Seq<Seq<char>>,
    n: nat,
    i: int,
)
    requires
        0 <= i < n,
    ensures
        uic_steps(uic, gen, files, forms, n).len() == 2 * n,
        uic_steps(uic, gen, files, forms, n)[2 * i] == (StepModel::Run {
            program: uic,
            args: seq!["-o"@, joined(gen, form_header(forms, i)), files[i]],
            cwd: None,
            subject: files[i],
        }),
        uic_steps(uic, gen, files, forms, n)[2 * i + 1] == (StepModel::Print {
            line: "cargo:rerun-if-changed="@ + files[i],
        }),
{
    lemma_uic_steps(uic, gen, files, forms, n, i);
}

/// The files stay as many and in order when they are seen from the root directory on.
pub proof fn law_whole_files(current: Seq<char>, files: Seq<Seq<char>>)
    ensures
        whole_files(current, files).len() == files.len(),
        forall|i: int|
            0 <= i < files.len() ==> #[trigger] whole_files(current, files)[i] == absolute_path(
                current,
                files[i],
            ),
{
}

/// What is done for forms that all lie below the form directory, step by step: the
/// directory is created, each form is checked and watched, the list of the forms is
/// written and watched, `rcc` is run on that list by its name in the directory that holds
/// it, and the one source that it makes is compiled to the archive `qtrs_ui`, which is
/// linked.
pub proof fn law_form_script(
    root: Seq<char>,
    dir: Seq<char>,
    files: Seq<Seq<char>>,
    uic: Seq<char>,
    rcc: Seq<char>,
    current: Seq<char>,
    i: int,
)
    requires
        forall|j: int| 0 <= j < files.len() ==> seen_from(#[trigger] files[j], dir) is Some,
    ensures
        ({
            let out = joined(joined(joined(root, "target"@), "qtrs-build"@), "ui"@);
            let gen = joined(out, "generated"@);
            let lib = joined(out, "lib"@);
            let list = joined(gen, "ui.qrc"@);
            let source = joined(gen, "qtrs_ui"@ + "_"@ + decimal(0) + ".cpp"@);
            let steps = form_steps(root, dir, files, uic, rcc, current);
            let n = 2 * files.len();
            &&& form_error(dir, files) is None
            &&& steps.len() == n + 11
            &&& steps[0] == (StepModel::CreateDirs { dir: gen })
            &&& 0 <= i < files.len() ==> steps[1 + 2 * i] == (StepModel::Run {
                program: uic,
                args: seq![
                    "-o"@,
                    joined(gen, form_header(seen_files(dir, files), i)),
                    files[i],
                ],
                cwd: None,
                subject: files[i],
            })
            &&& 0 <= i < files.len() ==> steps[2 + 2 * i] == (StepModel::Print {
                line: "cargo:rerun-if-changed="@ + files[i],
            })
            &&& steps.skip((n + 1) as int) == seq![
                StepModel::WriteFile {
                    path: list,
                    text: form_list(whole_files(current, files), seen_files(dir, files)),
                },
                StepModel::Print { line: "cargo:rerun-if-changed="@ + list },
                StepModel::CreateDirs { dir: gen },
                StepModel::Run {
                    program: rcc,
                    args: seq![
                        "-name"@,
                        "qtrs_ui"@ + "_"@ + decimal(0),
                        "-o"@,
                        source,
                        rcc_argument(gen, list),
                    ],
                    cwd: Some(gen),
                    subject: list,
                },
                StepModel::Print { line: "cargo:rerun-if-changed="@ + list },
                StepModel::CreateDirs { dir: lib },
                StepModel::Compile {
                    plan: PlanModel {
                        sources: seq![source],
                        includes: Seq::empty(),
                        out_dir: lib,
                        lib_name: "qtrs_ui"@,
                    },
                },
                StepModel::Print { line: "cargo:rustc-link-search=native="@ + lib },
                StepModel::Print {
                    line: "cargo:rustc-link-lib=static:+whole-archive="@ + "qtrs_ui"@,
                },
                StepModel::Print {
                    line: "cargo:rerun-if-changed="@ + joined(lib, "lib"@ + "qtrs_ui"@ + ".a"@),
                },
            ]
        }),
{
    let out = out_dir(root, Job::Forms);
    let gen = gen_dir(out);
    let list = joined(gen, "ui.qrc"@);
    let source = joined(gen, "qtrs_ui"@ + "_"@ + decimal(0) + ".cpp"@);
    let steps = form_steps(root, dir, files, uic, rcc, current);
    law_files_inside(dir, files);
    lemma_check_steps(root, dir, files, uic);
    assert(files.take(files.len() as int) == files);
    if 0 <= i < files.len() {
        lemma_uic_steps(uic, gen, files, seen_files(dir, files), files.len(), i);
    }
    lemma_rcc_steps(rcc, gen, gen, "qtrs_ui"@, seq![list], 0);
    law_archive_script(out, rcc, seq![list], gen, "qtrs_ui"@, "qtrs_ui"@, seq![source]);
    let tail = steps.skip((2 * files.len() + 1) as int);
    let archive = archive_steps(out, rcc, seq![list], gen, "qtrs_ui"@, "qtrs_ui"@);
    assert(archive.len() == 5);
    assert(tail == seq![steps[(2 * files.len() + 1) as int], rerun(list)] + archive + link_steps(
        lib_dir(out),
        "qtrs_ui"@,
    ));
}

/// What is done where a form does not lie below the form directory, step by step: the
/// directory is created, and each form before that one is checked and watched.
pub proof fn law_script_of_a_form_outside(
    root: Seq<char>,
    dir: Seq<char>,
    files: Seq<Seq<char>>,
    uic: Seq<char>,
    rcc: Seq<char>,
    current: Seq<char>,
    n: int,
    i: int,
)
    requires
        0 <= n < files.len(),
        forall|j: int| 0 <= j < n ==> seen_from(#[trigger] files[j], dir) is Some,
        seen_from(files[n], dir) is None,
    ensures
        ({
            let gen = joined(
                joined(joined(joined(root, "target"@), "qtrs-build"@), "ui"@),
                "generated"@,
            );
            let steps = form_steps(root, dir, files, uic, rcc, current);
            &&& form_error(dir, files) == Some("prefix not found"@)
            &&& steps.len() == 2 * n + 1
            &&& steps[0] == (StepModel::CreateDirs { dir: gen })
            &&& 0 <= i < n ==> steps[1 + 2 * i] == (StepModel::Run {
                program: uic,
                args: seq![
                    "-o"@,
                    joined(gen, form_header(seen_files(dir, files.take(n)), i)),
                    files[i],
                ],
                cwd: None,
                subject: files[i],
            })
            &&& 0 <= i < n ==> steps[2 + 2 * i] == (StepModel::Print {
                line: "cargo:rerun-if-changed="@ + files[i],
            })
        }),
{
    let gen = gen_dir(out_dir(root, Job::Forms));
    law_files_inside(dir, files);
    lemma_check_steps(root, dir, files, uic);
    let m = files_inside(dir, files);
    if m < n {
        assert(seen_from(files[m as int], dir) is Some);
    } else if m > n {
        assert(seen_from(files[n], dir) is Some);
    }
    let inside = files.take(n);
    if 0 <= i < n {
        lemma_uic_steps(uic, gen, inside, seen_files(dir, inside), n as nat, i);
        assert(inside[i] == files[i]);
    }
}

/// What is done for resource lists, step by step: the directory is created, `rcc` is run
/// on each list in the resource directory and the list is watched, and the sources are
/// compiled in order to the archive `qtrs_qrc`, which is linked.
pub proof fn law_resource_script(
    root: Seq<char>,
    dir: Seq<char>,
    lists: Seq<Seq<char>>,
    rcc: Seq<char>,
    sources: Seq<Seq<char>>,
    i: int,
)
    requires
        sources.len() == lists.len(),
        forall|j: int|
            0 <= j < lists.len() ==> #[trigger] sources[j] == joined(
                joined(
                    joined(joined(joined(root, "target"@), "qtrs-build"@), "qrc"@),
                    "generated"@,
                ),
                "qtrs_qrc"@ + "_"@ + decimal(j as nat) + ".cpp"@,
            ),
    ensures
        ({
            let out = joined(joined(joined(root, "target"@), "qtrs-build"@), "qrc"@);
            let gen = joined(out, "generated"@);
            let lib = joined(out, "lib"@);
            let steps = resource_steps(root, dir, lists, rcc);
            let n = 2 * lists.len();
            &&& steps.len() == n + 7
            &&& steps[0] == (StepModel::CreateDirs { dir: gen })
            &&& steps[1] == (StepModel::CreateDirs { dir: gen })
            &&& 0 <= i < lists.len() ==> steps[2 + 2 * i] == (StepModel::Run {
                program: rcc,
                args: seq![
                    "-name"@,
                    "qtrs_qrc"@ + "_"@ + decimal(i as nat),
                    "-o"@,
                    sources[i],
                    rcc_argument(dir, lists[i]),
                ],
                cwd: Some(dir),
                subject: lists[i],
            })
            &&& 0 <= i < lists.len() ==> steps[3 + 2 * i] == (StepModel::Print {
                line: "cargo:rerun-if-changed="@ + lists[i],
            })
            &&& steps.skip((n + 2) as int) == seq![
                StepModel::CreateDirs { dir: lib },
                StepModel::Compile {
                    plan: PlanModel {
                        sources,
                        includes: Seq::empty(),
                        out_dir: lib,
                        lib_name: "qtrs_qrc"@,
                    },
                },
                StepModel::Print { line: "cargo:rustc-link-search=native="@ + lib },
                StepModel::Print {
                    line: "cargo:rustc-link-lib=static:+whole-archive="@ + "qtrs_qrc"@,
                },
                StepModel::Print {
                    line: "cargo:rerun-if-changed="@ + joined(lib, "lib"@ + "qtrs_qrc"@ + ".a"@),
                },
            ]
        }),
{
    let out = out_dir(root, Job::Resources);
    let gen = gen_dir(out);
    let runs = rcc_steps(rcc, dir, gen, "qtrs_qrc"@, lists);
    if lists.len() == 0 {
        assert(runs.len() == 0);
    } else {
        lemma_rcc_steps(rcc, dir, gen, "qtrs_qrc"@, lists, 0);
    }
    if 0 <= i < lists.len() {
        lemma_rcc_steps(rcc, dir, gen, "qtrs_qrc"@, lists, i);
    }
    law_archive_script(out, rcc, lists, dir, "qtrs_qrc"@, "qtrs_qrc"@, sources);
    let steps = resource_steps(root, dir, lists, rcc);
    let n = 2 * lists.len();
    let archive = archive_steps(out, rcc, lists, dir, "qtrs_qrc"@, "qtrs_qrc"@);
    assert(archive.len() == n + 3);
    let link = link_steps(lib_dir(out), "qtrs_qrc"@);
    assert(steps.skip((n + 2) as int) == seq![
        archive[(n + 1) as int],
        archive[(n + 2) as int],
        link[0],
        link[1],
        link[2],
    ]);
}

/// What is done for an empty archive, step by step: a source that holds one symbol, named
/// after the job, is written and compiled, and the archive is linked. `tag` is what the
/// job's things are called, and `lib` the name of its archive.
pub proof fn law_empty_script(
    root: Seq<char>,
    job: Job,
    includes: Seq<Seq<char>>,
    tag: Seq<char>,
    lib: Seq<char>,
)
    requires
        job == Job::Forms ==> tag == "ui"@ && lib == "qtrs_ui"@,
        job == Job::Resources ==> tag == "qrc"@ && lib == "qtrs_qrc"@,
    ensures
        ({
            let out = joined(joined(joined(root, "target"@), "qtrs-build"@), tag);
            let gen = joined(out, "generated"@);
            let libs = joined(out, "lib"@);
            let source = joined(gen, "empty.cpp"@);
            &&& empty_steps(root, job) == seq![
                StepModel::CreateDirs { dir: gen },
                StepModel::WriteFile {
                    path: source,
                    text: "// qtrs-build — empty placeholder.\nint "@ + ("qtrs_empty_marker_"@
                        + tag) + ";\n"@,
                },
                StepModel::CreateDirs { dir: libs },
            ]
            &&& empty_archive_steps(root, job, includes) == seq![
                StepModel::Compile {
                    plan: PlanModel {
                        sources: seq![source],
                        includes,
                        out_dir: libs,
                        lib_name: lib,
                    },
                },
                StepModel::Print { line: "cargo:rustc-link-search=native="@ + libs },
                StepModel::Print { line: "cargo:rustc-link-lib=static:+whole-archive="@ + lib },
                StepModel::Print {
                    line: "cargo:rerun-if-changed="@ + joined(libs, "lib"@ + lib + ".a"@),
                },
            ]
        }),
        marker(job) == "qtrs_empty_marker_"@ + tag,
        empty_source(job) == "// qtrs-build — empty placeholder.\nint "@ + ("qtrs_empty_marker_"@
            + tag) + ";\n"@,
{
    assert(job == Job::Forms || job == Job::Resources);
    let made = empty_archive_steps(root, job, includes);
    assert(made == seq![made[0], made[1], made[2], made[3]]);
}

/// What is said when a program rejects a file names the program and then the file.
pub proof fn law_rejection(program: Seq<char>, subject: Seq<char>)
    ensures
        rejection(program, subject) == "qtrs-build: `"@ + program + "` failed for "@ + subject,
{
}

} // verus!
