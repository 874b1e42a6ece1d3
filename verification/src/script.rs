//! What is to be done for an archive, step by step.
use crate::compiler::{BuildPlan, PlanModel};
use crate::forms::{form_header, form_list, header_of_form, qrc_of_forms, seen_files};
use crate::path::{
    absolute_path, has_file_name, is_absolute, is_named, is_plain, join, joined, law_absolute_path,
    law_joined_is_seen, lemma_has_file_name, lemma_name, make_absolute, seen_from, strip_prefix,
};
use crate::text::{
    concat2, concat3, decimal, decimal_text, law_decimal, law_decimal_is_injective, opt_text, texts,
    to_chars,
};
use crate::{QRC_DIR, UI_DIR};
use vstd::prelude::*;

verus! {

/// What is embedded.
#[derive(Debug, Clone, Copy, PartialEq, Eq, Structural)]
pub enum Job {
    /// The `.ui` forms below `<package>/ui`.
    Forms,
    /// The `.qrc` resource lists below `<package>/resources`.
    Resources,
}

impl Job {
    /// The directory below the package that is scanned.
    pub open spec fn dir(self) -> Seq<char> {
        match self {
            Job::Forms => UI_DIR@,
            Job::Resources => QRC_DIR@,
        }
    }

    /// The extension of the files that are embedded.
    pub open spec fn ext(self) -> Seq<char> {
        match self {
            Job::Forms => "ui"@,
            Job::Resources => "qrc"@,
        }
    }

    /// The name of the archive, and what the names of its resources begin with.
    pub open spec fn lib(self) -> Seq<char> {
        match self {
            Job::Forms => "qtrs_ui"@,
            Job::Resources => "qtrs_qrc"@,
        }
    }

    /// What the job's own things are called, to tell them from the other job's.
    pub open spec fn tag(self) -> Seq<char> {
        match self {
            Job::Forms => "ui"@,
            Job::Resources => "qrc"@,
        }
    }

    /// The directory below the package that is scanned.
    pub fn source_dir(&self) -> (r: &'static str)
        ensures
            r@ == self.dir(),
    {
        match self {
            Job::Forms => UI_DIR,
            Job::Resources => QRC_DIR,
        }
    }

    /// The extension of the files that are embedded.
    pub fn extension(&self) -> (r: &'static str)
        ensures
            r@ == self.ext(),
    {
        match self {
            Job::Forms => "ui",
            Job::Resources => "qrc",
        }
    }

    fn tag_name(&self) -> (r: &'static str)
        ensures
            r@ == self.tag(),
    {
        match self {
            Job::Forms => "ui",
            Job::Resources => "qrc",
        }
    }

    /// The name of the archive.
    pub fn lib_name(&self) -> (r: &'static str)
        ensures
            r@ == self.lib(),
    {
        match self {
            Job::Forms => "qtrs_ui",
            Job::Resources => "qtrs_qrc",
        }
    }
}

/// One thing to do.
#[derive(Debug)]
pub enum Step {
    /// Create the directory and those above it.
    CreateDirs { dir: String },
    /// Write the text to the file.
    WriteFile { path: String, text: String },
    /// Run the program on the file `subject`, in the directory `cwd` where one
    /// is given.
    Run { program: String, args: Vec<String>, cwd: Option<String>, subject: String },
    /// Print the line to the standard output.
    Print { line: String },
    /// Compile the archive.
    Compile { plan: BuildPlan },
}

/// What a [`Step`] says.
pub enum StepModel {
    CreateDirs { dir: Seq<char> },
    WriteFile { path: Seq<char>, text: Seq<char> },
    Run {
        program: Seq<char>,
        args: Seq<Seq<char>>,
        cwd: Option<Seq<char>>,
        subject: Seq<char>,
    },
    Print { line: Seq<char> },
    Compile { plan: PlanModel },
}

impl View for Step {
    type V = StepModel;

    open spec fn view(&self) -> StepModel {
        match *self {
            Step::CreateDirs { dir } => StepModel::CreateDirs { dir: dir@ },
            Step::WriteFile { path, text } => StepModel::WriteFile { path: path@, text: text@ },
            Step::Run { program, args, cwd, subject } => StepModel::Run {
                program: program@,
                args: texts(args@),
                cwd: opt_text(cwd),
                subject: subject@,
            },
            Step::Print { line } => StepModel::Print { line: line@ },
            Step::Compile { plan } => StepModel::Compile { plan: plan@ },
        }
    }
}

/// What a list of steps says.
pub open spec fn models(steps: Seq<Step>) -> Seq<StepModel> {
    steps.map_values(|s: Step| s@)
}

/// The directory below the package that everything made for a job is put in.
pub open spec fn out_dir(root: Seq<char>, job: Job) -> Seq<char> {
    joined(joined(joined(root, "target"@), "qtrs-build"@), job.tag())
}

/// The directory that generated files are put in.
pub open spec fn gen_dir(out: Seq<char>) -> Seq<char> {
    joined(out, "generated"@)
}

/// The directory that the archive is put in.
pub open spec fn lib_dir(out: Seq<char>) -> Seq<char> {
    joined(out, "lib"@)
}

/// The file name of the archive that the linker knows as `lib`.
pub open spec fn archive_name(lib: Seq<char>) -> Seq<char> {
    "lib"@ + lib + ".a"@
}

/// Tells cargo to run the build again when the file changes.
pub open spec fn rerun(path: Seq<char>) -> StepModel {
    StepModel::Print { line: "cargo:rerun-if-changed="@ + path }
}

/// Tells cargo where the archive is, to link it whole, and to run the build
/// again when it changes.
pub open spec fn link_steps(dir: Seq<char>, lib: Seq<char>) -> Seq<StepModel> {
    seq![
        StepModel::Print { line: "cargo:rustc-link-search=native="@ + dir },
        StepModel::Print { line: "cargo:rustc-link-lib=static:+whole-archive="@ + lib },
        rerun(joined(dir, archive_name(lib))),
    ]
}

/// The name under which the `i`-th resource list registers itself.
pub open spec fn resource_name(prefix: Seq<char>, i: nat) -> Seq<char> {
    prefix + "_"@ + decimal(i)
}

/// The C++ source that `rcc` makes of the `i`-th resource list.
pub open spec fn resource_source(gen: Seq<char>, prefix: Seq<char>, i: nat) -> Seq<char> {
    joined(gen, resource_name(prefix, i) + ".cpp"@)
}

/// What `rcc` is told to read when it is run in `cwd`: the list as seen from
/// there, or its whole path where it does not lie below.
pub open spec fn rcc_argument(cwd: Seq<char>, file: Seq<char>) -> Seq<char> {
    match seen_from(file, cwd) {
        Some(rel) => if rel.len() > 0 {
            rel
        } else {
            file
        },
        None => file,
    }
}

/// The run of `rcc` in `cwd` on the `i`-th of the resource lists.
pub open spec fn rcc_run(
    rcc: Seq<char>,
    cwd: Seq<char>,
    gen: Seq<char>,
    prefix: Seq<char>,
    file: Seq<char>,
    i: nat,
) -> StepModel {
    StepModel::Run {
        program: rcc,
        args: seq![
            "-name"@,
            resource_name(prefix, i),
            "-o"@,
            resource_source(gen, prefix, i),
            rcc_argument(cwd, file),
        ],
        cwd: Some(cwd),
        subject: file,
    }
}

/// Runs `rcc` in `cwd` on each resource list, in order.
pub open spec fn rcc_steps(
    rcc: Seq<char>,
    cwd: Seq<char>,
    gen: Seq<char>,
    prefix: Seq<char>,
    lists: Seq<Seq<char>>,
) -> Seq<StepModel>
    decreases lists.len(),
{
    if lists.len() == 0 {
        Seq::empty()
    } else {
        rcc_steps(rcc, cwd, gen, prefix, lists.drop_last()) + seq![
            rcc_run(rcc, cwd, gen, prefix, lists.last(), (lists.len() - 1) as nat),
            rerun(lists.last()),
        ]
    }
}

/// Makes the archive `lib` of the resource lists, with `rcc` run in `cwd`. The names
/// of the resources begin with `prefix`.
pub open spec fn archive_steps(
    out: Seq<char>,
    rcc: Seq<char>,
    lists: Seq<Seq<char>>,
    cwd: Seq<char>,
    lib: Seq<char>,
    prefix: Seq<char>,
) -> Seq<StepModel> {
    seq![StepModel::CreateDirs { dir: gen_dir(out) }] + rcc_steps(
        rcc,
        cwd,
        gen_dir(out),
        prefix,
        lists,
    ) + seq![
        StepModel::CreateDirs { dir: lib_dir(out) },
        StepModel::Compile {
            plan: PlanModel {
                sources: Seq::new(
                    lists.len(),
                    |i: int| resource_source(gen_dir(out), prefix, i as nat),
                ),
                includes: Seq::empty(),
                out_dir: lib_dir(out),
                lib_name: lib,
            },
        },
    ]
}

/// The run of `uic` that checks the `i`-th form. `forms` are the files as seen
/// from the form directory.
pub open spec fn uic_run(
    uic: Seq<char>,
    gen: Seq<char>,
    files: Seq<Seq<char>>,
    forms: Seq<Seq<char>>,
    i: int,
) -> StepModel {
    StepModel::Run {
        program: uic,
        args: seq!["-o"@, joined(gen, form_header(forms, i)), files[i]],
        cwd: None,
        subject: files[i],
    }
}

/// Has `uic` check each of the first `n` forms, in order.
pub open spec fn uic_steps(
    uic: Seq<char>,
    gen: Seq<char>,
    files: Seq<Seq<char>>,
    forms: Seq<Seq<char>>,
    n: nat,
) -> Seq<StepModel>
    decreases n,
{
    if n == 0 {
        Seq::empty()
    } else {
        uic_steps(uic, gen, files, forms, (n - 1) as nat) + seq![
            uic_run(uic, gen, files, forms, n - 1),
            rerun(files[n - 1]),
        ]
    }
}

/// How many of the files come before the first one that does not lie below the
/// directory.
pub open spec fn files_inside(dir: Seq<char>, files: Seq<Seq<char>>) -> nat
    decreases files.len(),
{
    if files.len() == 0 {
        0
    } else {
        let n = files_inside(dir, files.drop_last());
        if n == files.len() - 1 && seen_from(files.last(), dir) is Some {
            n + 1
        } else {
            n
        }
    }
}

/// What is said when a form does not lie below the form directory.
pub open spec fn form_error(dir: Seq<char>, files: Seq<Seq<char>>) -> Option<Seq<char>> {
    if files_inside(dir, files) < files.len() {
        Some("prefix not found"@)
    } else {
        None
    }
}

/// What is done to check the forms that come before the first one that does not
/// lie below the form directory.
pub open spec fn check_steps(
    root: Seq<char>,
    dir: Seq<char>,
    files: Seq<Seq<char>>,
    uic: Seq<char>,
) -> Seq<StepModel> {
    let gen = gen_dir(out_dir(root, Job::Forms));
    let inside = files.take(files_inside(dir, files) as int);
    seq![StepModel::CreateDirs { dir: gen }] + uic_steps(
        uic,
        gen,
        inside,
        seen_files(dir, inside),
        inside.len(),
    )
}

/// The files from the root directory on, where `current` is the current directory.
pub open spec fn whole_files(current: Seq<char>, files: Seq<Seq<char>>) -> Seq<Seq<char>> {
    files.map_values(|f: Seq<char>| absolute_path(current, f))
}

/// What is done for the forms of a package: they are checked, listed in a
/// resource list of their own, and made an archive, which is linked. It ends
/// with the checks where a form does not lie below the form directory `dir`.
/// The list names the forms from the root directory on, so that `rcc` finds them
/// wherever it is run; `current` is the current directory.
pub open spec fn form_steps(
    root: Seq<char>,
    dir: Seq<char>,
    files: Seq<Seq<char>>,
    uic: Seq<char>,
    rcc: Seq<char>,
    current: Seq<char>,
) -> Seq<StepModel> {
    let out = out_dir(root, Job::Forms);
    let list = joined(gen_dir(out), "ui.qrc"@);
    if form_error(dir, files) is Some {
        check_steps(root, dir, files, uic)
    } else {
        check_steps(root, dir, files, uic) + seq![
            StepModel::WriteFile {
                path: list,
                text: form_list(whole_files(current, files), seen_files(dir, files)),
            },
            rerun(list),
        ] + archive_steps(
            out,
            rcc,
            seq![list],
            gen_dir(out),
            Job::Forms.lib(),
            Job::Forms.lib(),
        ) + link_steps(lib_dir(out), Job::Forms.lib())
    }
}

/// What is done for the resource lists of a package: they are made an archive,
/// which is linked. `dir` is the directory that `rcc` is run in.
pub open spec fn resource_steps(
    root: Seq<char>,
    dir: Seq<char>,
    lists: Seq<Seq<char>>,
    rcc: Seq<char>,
) -> Seq<StepModel> {
    let out = out_dir(root, Job::Resources);
    seq![StepModel::CreateDirs { dir: gen_dir(out) }] + archive_steps(
        out,
        rcc,
        lists,
        dir,
        Job::Resources.lib(),
        Job::Resources.lib(),
    ) + link_steps(lib_dir(out), Job::Resources.lib())
}

/// The symbol that an empty archive of the job holds.
pub open spec fn marker(job: Job) -> Seq<char> {
    "qtrs_empty_marker_"@ + job.tag()
}

/// The source of an archive that holds nothing but the job's marker symbol.
pub open spec fn empty_source(job: Job) -> Seq<char> {
    "// qtrs-build — empty placeholder.\nint "@ + marker(job) + ";\n"@
}

/// What is done for an empty archive before its include directories are known.
pub open spec fn empty_steps(root: Seq<char>, job: Job) -> Seq<StepModel> {
    let out = out_dir(root, job);
    seq![
        StepModel::CreateDirs { dir: gen_dir(out) },
        StepModel::WriteFile { path: joined(gen_dir(out), "empty.cpp"@), text: empty_source(job) },
        StepModel::CreateDirs { dir: lib_dir(out) },
    ]
}

/// What is done for an empty archive once its include directories are known.
pub open spec fn empty_archive_steps(
    root: Seq<char>,
    job: Job,
    includes: Seq<Seq<char>>,
) -> Seq<StepModel> {
    let out = out_dir(root, job);
    seq![
        StepModel::Compile {
            plan: PlanModel {
                sources: seq![joined(gen_dir(out), "empty.cpp"@)],
                includes,
                out_dir: lib_dir(out),
                lib_name: job.lib(),
            },
        },
    ] + link_steps(lib_dir(out), job.lib())
}

/// What is said when a program rejects the file that it was run on.
pub open spec fn rejection(program: Seq<char>, subject: Seq<char>) -> Seq<char> {
    "qtrs-build: `"@ + program + "` failed for "@ + subject
}

fn out_dir_of(root: &str, job: Job) -> (r: String)
    ensures
        r@ == out_dir(root@, job),
{
    let target = join(root, "target");
    let own = join(target.as_str(), "qtrs-build");
    join(own.as_str(), job.tag_name())
}

fn rerun_step(path: &str) -> (r: Step)
    ensures
        r@ == rerun(path@),
{
    Step::Print { line: concat2("cargo:rerun-if-changed=", path) }
}

fn link_whole_archive(dir: &str, lib_name: &str, out: &mut Vec<Step>)
    ensures
        models(final(out)@) == models(old(out)@) + link_steps(dir@, lib_name@),
{
    out.push(Step::Print { line: concat2("cargo:rustc-link-search=native=", dir) });
    out.push(Step::Print { line: concat2("cargo:rustc-link-lib=static:+whole-archive=", lib_name) });
    let name = concat3("lib", lib_name, ".a");
    let archive = join(dir, name.as_str());
    out.push(rerun_step(archive.as_str()));
    assert(models(out@) == models(old(out)@) + link_steps(dir@, lib_name@));
}

fn resource_name_of(prefix: &str, i: usize) -> (r: String)
    ensures
        r@ == resource_name(prefix@, i as nat),
{
    let number = decimal_text(i);
    concat3(prefix, "_", number.as_str())
}

fn rcc_argument_of(cwd: &str, file: &str) -> (r: String)
    ensures
        r@ == rcc_argument(cwd@, file@),
{
    if let Some(rel) = strip_prefix(file, cwd) {
        let chars = to_chars(rel.as_str());
        if chars.len() > 0 {
            return rel;
        }
    }
    file.to_owned()
}

/// Whether each of the files ends in a file name.
pub open spec fn all_have_names(files: Seq<Seq<char>>) -> bool {
    forall|i: int| 0 <= i < files.len() ==> has_file_name(#[trigger] files[i])
}

/// What is done to run `rcc` over the list of `.qrc` files (from `rcc_cwd`) and to
/// compile what it generates into an archive. The names of the resources begin
/// with `name_prefix`, so that they never collide between the two archives.
pub fn compile_qrc_into_archive(
    out_dir: &str,
    rcc: &str,
    qrc_files: &Vec<String>,
    rcc_cwd: &str,
    lib_name: &str,
    name_prefix: &str,
    out: &mut Vec<Step>,
)
    requires
        all_have_names(texts(qrc_files@)),
    ensures
        models(final(out)@) == models(old(out)@) + archive_steps(
            out_dir@,
            rcc@,
            texts(qrc_files@),
            rcc_cwd@,
            lib_name@,
            name_prefix@,
        ),
{
    let gen = join(out_dir, "generated");
    let ghost start = models(out@).push(StepModel::CreateDirs { dir: gen@ });
    out.push(Step::CreateDirs { dir: gen.clone() });
    assert(models(out@) == start);
    let ghost lists = texts(qrc_files@);
    let ghost all = Seq::new(lists.len(), |i: int| resource_source(gen@, name_prefix@, i as nat));
    let mut sources: Vec<String> = Vec::new();
    let mut i: usize = 0;
    assert(lists.take(0) == Seq::<Seq<char>>::empty());
    assert(start == start + rcc_steps(rcc@, rcc_cwd@, gen@, name_prefix@, lists.take(0)));
    assert(texts(sources@) == all.take(0));
    while i < qrc_files.len()
        invariant
            i <= qrc_files@.len(),
            lists == texts(qrc_files@),
            all == Seq::new(lists.len(), |i: int| resource_source(gen@, name_prefix@, i as nat)),
            texts(sources@) == all.take(i as int),
            models(out@) == start + rcc_steps(
                rcc@,
                rcc_cwd@,
                gen@,
                name_prefix@,
                lists.take(i as int),
            ),
        decreases qrc_files@.len() - i,
    {
        let ghost before = models(out@);
        let ghost sources_before = texts(sources@);
        let res_name = resource_name_of(name_prefix, i);
        let cpp_name = concat2(res_name.as_str(), ".cpp");
        let cpp = join(gen.as_str(), cpp_name.as_str());
        let file = qrc_files[i].as_str();
        let args = vec![
            "-name".to_owned(),
            res_name,
            "-o".to_owned(),
            cpp.clone(),
            rcc_argument_of(rcc_cwd, file),
        ];
        let ghost run = rcc_run(rcc@, rcc_cwd@, gen@, name_prefix@, lists[i as int], i as nat);
        assert(texts(args@) == run->Run_args);
        out.push(
            Step::Run {
                program: rcc.to_owned(),
                args,
                cwd: Some(rcc_cwd.to_owned()),
                subject: file.to_owned(),
            },
        );
        out.push(rerun_step(file));
        assert(models(out@) == before + seq![run, rerun(lists[i as int])]);
        sources.push(cpp);
        assert(texts(sources@) == sources_before.push(all[i as int]));
        assert(all.take(i + 1) == all.take(i as int).push(all[i as int]));
        assert(lists.take(i + 1).drop_last() == lists.take(i as int));
        assert(lists.take(i + 1).last() == lists[i as int]);
        assert(models(out@) == start + rcc_steps(
            rcc@,
            rcc_cwd@,
            gen@,
            name_prefix@,
            lists.take(i + 1),
        ));
        i += 1;
    }
    assert(lists.take(qrc_files@.len() as int) == lists);
    assert(all.take(qrc_files@.len() as int) == all);
    let ghost before = models(out@);
    let lib_dir = join(out_dir, "lib");
    out.push(Step::CreateDirs { dir: lib_dir.clone() });
    let plan = BuildPlan {
        sources,
        includes: Vec::new(),
        out_dir: lib_dir,
        lib_name: lib_name.to_owned(),
    };
    assert(plan@.includes == Seq::<Seq<char>>::empty());
    out.push(Step::Compile { plan });
    assert(models(out@) == before + seq![
        StepModel::CreateDirs { dir: lib_dir@ },
        StepModel::Compile { plan: plan@ },
    ]);
    assert(models(out@) == models(old(out)@) + archive_steps(
        out_dir@,
        rcc@,
        texts(qrc_files@),
        rcc_cwd@,
        lib_name@,
        name_prefix@,
    ));
}

/// The files that come before the first one that does not lie below the
/// directory, as they are seen from it.
fn strip_prefixes(dir: &str, files: &Vec<String>) -> (r: Vec<String>)
    ensures
        r@.len() == files_inside(dir@, texts(files@)),
        texts(r@) == seen_files(
            dir@,
            texts(files@).take(files_inside(dir@, texts(files@)) as int),
        ),
        r@.len() <= files@.len(),
{
    let ghost all = texts(files@);
    let mut out: Vec<String> = Vec::new();
    let mut i: usize = 0;
    assert(all.take(0) == Seq::<Seq<char>>::empty());
    assert(texts(out@) == seen_files(dir@, all.take(0)));
    while i < files.len()
        invariant
            i <= files@.len(),
            all == texts(files@),
            out@.len() == i,
            files_inside(dir@, all.take(i as int)) == i,
            texts(out@) == seen_files(dir@, all.take(i as int)),
        decreases files@.len() - i,
    {
        let ghost before = texts(out@);
        assert(all.take(i + 1).drop_last() == all.take(i as int));
        assert(all.take(i + 1).last() == files@[i as int]@);
        match strip_prefix(files[i].as_str(), dir) {
            Some(rel) => {
                out.push(rel);
                assert(texts(out@) == before.push(rel@));
                assert(texts(out@) == seen_files(dir@, all.take(i + 1)));
            },
            None => {
                proof {
                    lemma_files_inside_stays(dir@, all, i + 1);
                }
                return out;
            },
        }
        i += 1;
    }
    assert(all.take(files@.len() as int) == all);
    out
}

proof fn lemma_files_inside_stays(dir: Seq<char>, files: Seq<Seq<char>>, k: int)
    requires
        0 < k <= files.len(),
        files_inside(dir, files.take(k)) < k,
    ensures
        files_inside(dir, files) == files_inside(dir, files.take(k)),
    decreases files.len() - k,
{
    if k < files.len() {
        assert(files.take(k + 1).drop_last() == files.take(k));
        lemma_files_inside_stays(dir, files, k + 1);
    } else {
        assert(files.take(k) == files);
    }
}

fn make_whole(current: &str, files: &Vec<String>) -> (r: Vec<String>)
    ensures
        texts(r@) == whole_files(current@, texts(files@)),
{
    let ghost all = whole_files(current@, texts(files@));
    let mut out: Vec<String> = Vec::new();
    let mut i: usize = 0;
    assert(texts(out@) == all.take(0));
    while i < files.len()
        invariant
            i <= files@.len(),
            all == whole_files(current@, texts(files@)),
            texts(out@) == all.take(i as int),
        decreases files@.len() - i,
    {
        let ghost before = texts(out@);
        out.push(make_absolute(current, files[i].as_str()));
        assert(texts(out@) == before.push(all[i as int]));
        assert(all.take(i + 1) == all.take(i as int).push(all[i as int]));
        i += 1;
    }
    assert(all.take(files@.len() as int) == all);
    out
}

/// What is done for the forms of a package, once both tools are found, and what
/// is said behind it where a form does not lie below the form directory `ui_dir`.
/// `current` is the current directory, from which relative paths are seen.
pub fn compile_ui_core(
    root: &str,
    ui_dir: &str,
    files: &Vec<String>,
    uic: &str,
    rcc: &str,
    current: &str,
) -> (r: (Vec<Step>, Option<String>))
    requires
        is_absolute(current@),
    ensures
        models(r.0@) == form_steps(root@, ui_dir@, texts(files@), uic@, rcc@, current@),
        opt_text(r.1) == form_error(ui_dir@, texts(files@)),
{
    let out_root = out_dir_of(root, Job::Forms);
    let gen = join(out_root.as_str(), "generated");
    let forms = strip_prefixes(ui_dir, files);
    let n: usize = forms.len();
    let mut out: Vec<Step> = Vec::new();
    out.push(Step::CreateDirs { dir: gen.clone() });
    let ghost start = seq![StepModel::CreateDirs { dir: gen@ }];
    let ghost inside = texts(files@).take(n as int);
    let ghost seen = texts(forms@);
    assert(models(out@) == start);
    assert(start == start + uic_steps(uic@, gen@, inside, seen, 0));
    let mut i: usize = 0;
    while i < n
        invariant
            i <= n,
            n == forms@.len(),
            n <= files@.len(),
            inside == texts(files@).take(n as int),
            seen == texts(forms@),
            models(out@) == start + uic_steps(uic@, gen@, inside, seen, i as nat),
        decreases n - i,
    {
        let ghost before = models(out@);
        let file = files[i].as_str();
        let header = header_of_form(&forms, i);
        let args = vec!["-o".to_owned(), join(gen.as_str(), header.as_str()), file.to_owned()];
        let ghost run = uic_run(uic@, gen@, inside, seen, i as int);
        assert(inside[i as int] == file@);
        assert(texts(args@) == run->Run_args);
        out.push(Step::Run { program: uic.to_owned(), args, cwd: None, subject: file.to_owned() });
        out.push(rerun_step(file));
        assert(models(out@) == before + seq![run, rerun(file@)]);
        assert(models(out@) == start + uic_steps(uic@, gen@, inside, seen, (i + 1) as nat));
        i += 1;
    }
    assert(models(out@) == check_steps(root@, ui_dir@, texts(files@), uic@));
    if n < files.len() {
        return (out, Some("prefix not found".to_owned()));
    }
    assert(inside == texts(files@));
    let ghost before = models(out@);
    let qrc_path = join(gen.as_str(), "ui.qrc");
    let whole = make_whole(current, files);
    assert(whole@.len() == texts(whole@).len());
    out.push(Step::WriteFile { path: qrc_path.clone(), text: qrc_of_forms(&whole, &forms) });
    out.push(rerun_step(qrc_path.as_str()));
    assert(models(out@) == before + seq![
        StepModel::WriteFile {
            path: qrc_path@,
            text: form_list(whole_files(current@, texts(files@)), seen),
        },
        rerun(qrc_path@),
    ]);
    let lists = vec![qrc_path.clone()];
    assert(texts(lists@) == seq![qrc_path@]);
    proof {
        reveal_strlit("ui.qrc");
        assert(qrc_path@.last() == 'c');
        lemma_has_file_name(qrc_path@);
    }
    compile_qrc_into_archive(
        out_root.as_str(),
        rcc,
        &lists,
        gen.as_str(),
        "qtrs_ui",
        "qtrs_ui",
        &mut out,
    );
    let lib_dir = join(out_root.as_str(), "lib");
    link_whole_archive(lib_dir.as_str(), "qtrs_ui", &mut out);
    (out, None)
}

/// What is done for the resource lists of a package, once `rcc` is found.
/// `rcc` is run in the resource directory `res_dir`.
pub fn compile_rcc_core(root: &str, res_dir: &str, files: &Vec<String>, rcc: &str) -> (r: Vec<Step>)
    requires
        all_have_names(texts(files@)),
    ensures
        models(r@) == resource_steps(root@, res_dir@, texts(files@), rcc@),
{
    let out_root = out_dir_of(root, Job::Resources);
    let gen = join(out_root.as_str(), "generated");
    let mut out: Vec<Step> = Vec::new();
    out.push(Step::CreateDirs { dir: gen });
    assert(models(out@) == seq![StepModel::CreateDirs { dir: gen@ }]);
    compile_qrc_into_archive(
        out_root.as_str(),
        rcc,
        files,
        res_dir,
        "qtrs_qrc",
        "qtrs_qrc",
        &mut out,
    );
    let lib_dir = join(out_root.as_str(), "lib");
    link_whole_archive(lib_dir.as_str(), "qtrs_qrc", &mut out);
    out
}

/// What is done for an empty archive, so that whole-archive linking always has
/// a member, before its include directories are known.
pub fn empty_lib(root: &str, job: Job) -> (r: Vec<Step>)
    ensures
        models(r@) == empty_steps(root@, job),
{
    let out_root = out_dir_of(root, job);
    let gen = join(out_root.as_str(), "generated");
    let cpp = join(gen.as_str(), "empty.cpp");
    let lib_dir = join(out_root.as_str(), "lib");
    let symbol = concat2("qtrs_empty_marker_", job.tag_name());
    let text = concat3("// qtrs-build — empty placeholder.\nint ", symbol.as_str(), ";\n");
    let r = vec![
        Step::CreateDirs { dir: gen },
        Step::WriteFile { path: cpp, text },
        Step::CreateDirs { dir: lib_dir },
    ];
    assert(models(r@) == empty_steps(root@, job));
    r
}

/// What is done for an empty archive once its include directories are known.
pub fn build_static_lib(root: &str, job: Job, includes: Vec<String>) -> (r: Vec<Step>)
    ensures
        models(r@) == empty_archive_steps(root@, job, texts(includes@)),
{
    let out_root = out_dir_of(root, job);
    let gen = join(out_root.as_str(), "generated");
    let cpp = join(gen.as_str(), "empty.cpp");
    let lib_dir = join(out_root.as_str(), "lib");
    let sources = vec![cpp];
    assert(texts(sources@) == seq![cpp@]);
    let plan = BuildPlan {
        sources,
        includes,
        out_dir: lib_dir.clone(),
        lib_name: job.lib_name().to_owned(),
    };
    let mut out: Vec<Step> = Vec::new();
    out.push(Step::Compile { plan });
    assert(models(out@) == seq![StepModel::Compile { plan: plan@ }]);
    link_whole_archive(lib_dir.as_str(), job.lib_name(), &mut out);
    out
}

/// What is said when a program rejects the file that it was run on.
pub fn rejection_text(program: &str, subject: &str) -> (r: String)
    ensures
        r@ == rejection(program@, subject@),
{
    let mut out = concat3("qtrs-build: `", program, "` failed for ");
    out.append(subject);
    out
}

/// Resources that are made under different prefixes, or under different numbers of
/// one prefix, register under different names; so the names never collide, neither
/// within an archive nor between the two.
pub proof fn law_resource_names_never_collide(p: Seq<char>, i: nat, q: Seq<char>, j: nat)
    requires
        resource_name(p, i) == resource_name(q, j),
    ensures
        p == q,
        i == j,
{
    let t = resource_name(p, i);
    reveal_strlit("_");
    law_decimal(i);
    law_decimal(j);
    let a = t.len() - decimal(i).len() - 1;
    let b = t.len() - decimal(j).len() - 1;
    assert(a == p.len() && b == q.len());
    assert(t == q + "_"@ + decimal(j));
    assert(t[a] == '_' && t[b] == '_');
    if a < b {
        assert(t[b] == decimal(i)[b - a - 1]);
    } else if b < a {
        assert(t[a] == decimal(j)[a - b - 1]);
    }
    assert(t.take(a) == p);
    assert(t.take(b) == q);
    assert(t.skip(a + 1) == decimal(i));
    assert(t.skip(b + 1) == decimal(j));
    law_decimal_is_injective(i, j);
}

/// The two archives have different names.
pub proof fn law_archives_have_their_own_names()
    ensures
        Job::Forms.lib() != Job::Resources.lib(),
{
    reveal_strlit("qtrs_ui");
    reveal_strlit("qtrs_qrc");
    assert(Job::Forms.lib().len() != Job::Resources.lib().len());
}

/// Two empty archives that are linked into one binary hold different symbols.
pub proof fn law_markers_differ()
    ensures
        marker(Job::Forms) != marker(Job::Resources),
        empty_source(Job::Forms) != empty_source(Job::Resources),
{
    reveal_strlit("ui");
    reveal_strlit("qrc");
    assert(marker(Job::Forms).len() != marker(Job::Resources).len());
    assert(empty_source(Job::Forms).len() != empty_source(Job::Resources).len());
}

/// The sources that `rcc` makes for one archive are files of their own.
pub proof fn law_sources_are_distinct(gen: Seq<char>, job: Job, i: nat, j: nat)
    requires
        resource_source(gen, job.lib(), i) == resource_source(gen, job.lib(), j),
    ensures
        i == j,
{
    reveal_strlit("qtrs_ui");
    reveal_strlit("qtrs_qrc");
    reveal_strlit(".cpp");
    let a = resource_name(job.lib(), i);
    let b = resource_name(job.lib(), j);
    assert(job.lib().first() == 'q');
    assert(a.first() == 'q' && b.first() == 'q');
    assert((a + ".cpp"@).first() == 'q' && (b + ".cpp"@).first() == 'q');
    let front = if gen.len() == 0 || gen.last() == '/' {
        gen
    } else {
        gen.push('/')
    };
    let p = resource_source(gen, job.lib(), i);
    assert(p == front + (a + ".cpp"@));
    assert(p == front + (b + ".cpp"@));
    assert(p.subrange(front.len() as int, p.len() - 4) == a);
    assert(p.subrange(front.len() as int, p.len() - 4) == b);
    law_resource_names_never_collide(job.lib(), i, job.lib(), j);
}

/// Whether all the files lie below the directory.
pub open spec fn all_inside(dir: Seq<char>, files: Seq<Seq<char>>) -> bool {
    forall|i: int| 0 <= i < files.len() ==> seen_from(#[trigger] files[i], dir) is Some
}

/// The checks go up to the first file that does not lie below the directory, and
/// an error is told exactly where there is one.
pub proof fn law_files_inside(dir: Seq<char>, files: Seq<Seq<char>>)
    ensures
        files_inside(dir, files) <= files.len(),
        forall|i: int|
            0 <= i < files_inside(dir, files) ==> seen_from(#[trigger] files[i], dir) is Some,
        files_inside(dir, files) < files.len() ==> seen_from(
            files[files_inside(dir, files) as int],
            dir,
        ) is None,
        form_error(dir, files) is None <==> all_inside(dir, files),
    decreases files.len(),
{
    if files.len() > 0 {
        let head = files.drop_last();
        law_files_inside(dir, head);
        let n = files_inside(dir, files);
        assert forall|i: int| 0 <= i < n implies seen_from(#[trigger] files[i], dir) is Some by {
            if i < head.len() {
                assert(head[i] == files[i]);
            }
        }
        if n < files.len() {
            if files_inside(dir, head) < head.len() {
                assert(head[n as int] == files[n as int]);
            }
            assert(seen_from(files[n as int], dir) is None);
        }
    }
}

pub proof fn lemma_uic_steps(
    uic: Seq<char>,
    gen: Seq<char>,
    files: Seq<Seq<char>>,
    forms: Seq<Seq<char>>,
    n: nat,
    i: int,
)
    requires
        0 <= i < n,
    ensures
        uic_steps(uic, gen, files, forms, n).len() == 2 * n,
        uic_steps(uic, gen, files, forms, n)[2 * i] == uic_run(uic, gen, files, forms, i),
        uic_steps(uic, gen, files, forms, n)[2 * i + 1] == rerun(files[i]),
    decreases n,
{
    reveal_with_fuel(uic_steps, 2);
    if n > 1 {
        lemma_uic_steps(
            uic,
            gen,
            files,
            forms,
            (n - 1) as nat,
            if i < n - 1 {
                i
            } else {
                0
            },
        );
    }
}

/// Each form is checked by `uic`, in order and before the list of the forms is
/// written, and cargo is told to watch it.
pub proof fn law_every_form_is_checked(
    root: Seq<char>,
    dir: Seq<char>,
    files: Seq<Seq<char>>,
    uic: Seq<char>,
    rcc: Seq<char>,
    current: Seq<char>,
    i: int,
)
    requires
        0 <= i < files.len(),
        all_inside(dir, files),
    ensures
        ({
            let steps = form_steps(root, dir, files, uic, rcc, current);
            &&& steps.len() > 2 * files.len() + 1
            &&& steps[1 + 2 * i] matches StepModel::Run { program, args, subject, .. } && program
                == uic && args.last() == files[i] && subject == files[i]
            &&& steps[2 + 2 * i] == rerun(files[i])
            &&& steps[(1 + 2 * files.len()) as int] == (StepModel::WriteFile {
                path: joined(gen_dir(out_dir(root, Job::Forms)), "ui.qrc"@),
                text: form_list(whole_files(current, files), seen_files(dir, files)),
            })
        }),
{
    let gen = gen_dir(out_dir(root, Job::Forms));
    law_files_inside(dir, files);
    assert(files.take(files.len() as int) == files);
    lemma_uic_steps(uic, gen, files, seen_files(dir, files), files.len(), i);
    lemma_check_steps(root, dir, files, uic);
}

pub proof fn lemma_check_steps(root: Seq<char>, dir: Seq<char>, files: Seq<Seq<char>>, uic: Seq<char>)
    ensures
        check_steps(root, dir, files, uic).len() == 1 + 2 * files_inside(dir, files),
{
    let gen = gen_dir(out_dir(root, Job::Forms));
    law_files_inside(dir, files);
    let inside = files.take(files_inside(dir, files) as int);
    if inside.len() > 0 {
        lemma_uic_steps(uic, gen, inside, seen_files(dir, inside), inside.len(), 0);
    }
}

/// The paths that stand in the list of the forms are absolute, however the forms are
/// given, and a form that is given by an absolute path is listed by that path.
pub proof fn law_listed_paths_are_absolute(current: Seq<char>, files: Seq<Seq<char>>, i: int)
    requires
        is_absolute(current),
        0 <= i < files.len(),
    ensures
        whole_files(current, files).len() == files.len(),
        is_absolute(whole_files(current, files)[i]),
        is_absolute(files[i]) ==> whole_files(current, files)[i] == files[i],
{
    law_absolute_path(current, files[i]);
}

/// Where a form does not lie below the form directory, the forms before the first
/// such one are checked, in order, and that is all: nothing is written, and no
/// tool is run on that form or on any behind it.
pub proof fn law_a_form_outside_ends_the_script(
    root: Seq<char>,
    dir: Seq<char>,
    files: Seq<Seq<char>>,
    uic: Seq<char>,
    rcc: Seq<char>,
    current: Seq<char>,
)
    requires
        !all_inside(dir, files),
    ensures
        ({
            let steps = form_steps(root, dir, files, uic, rcc, current);
            let n = files_inside(dir, files);
            &&& form_error(dir, files) == Some("prefix not found"@)
            &&& n < files.len()
            &&& steps.len() == 1 + 2 * n
            &&& steps[0] is CreateDirs
            &&& forall|i: int|
                #![trigger files[i]]
                0 <= i < n ==> (steps[1 + 2 * i] matches StepModel::Run {
                    program,
                    subject,
                    ..
                } && program == uic && subject == files[i]) && steps[2 + 2 * i] == rerun(files[i])
        }),
{
    let gen = gen_dir(out_dir(root, Job::Forms));
    law_files_inside(dir, files);
    lemma_check_steps(root, dir, files, uic);
    let n = files_inside(dir, files);
    let inside = files.take(n as int);
    let steps = form_steps(root, dir, files, uic, rcc, current);
    assert forall|i: int|
        #![trigger files[i]]
        0 <= i < n implies (steps[1 + 2 * i] matches StepModel::Run { program, subject, .. }
        && program == uic && subject == files[i]) && steps[2 + 2 * i] == rerun(files[i]) by {
        lemma_uic_steps(uic, gen, inside, seen_files(dir, inside), n, i);
        assert(inside[i] == files[i]);
    }
}

pub proof fn lemma_rcc_steps(
    rcc: Seq<char>,
    cwd: Seq<char>,
    gen: Seq<char>,
    prefix: Seq<char>,
    lists: Seq<Seq<char>>,
    i: int,
)
    requires
        0 <= i < lists.len(),
    ensures
        rcc_steps(rcc, cwd, gen, prefix, lists).len() == 2 * lists.len(),
        rcc_steps(rcc, cwd, gen, prefix, lists)[2 * i] == rcc_run(
            rcc,
            cwd,
            gen,
            prefix,
            lists[i],
            i as nat,
        ),
        rcc_steps(rcc, cwd, gen, prefix, lists)[2 * i + 1] == rerun(lists[i]),
    decreases lists.len(),
{
    reveal_with_fuel(rcc_steps, 2);
    if lists.len() > 1 {
        lemma_rcc_steps(
            rcc,
            cwd,
            gen,
            prefix,
            lists.drop_last(),
            if i < lists.len() - 1 {
                i
            } else {
                0
            },
        );
    }
}

/// Each resource list, at any depth, is given to `rcc` as it is seen from the
/// resource directory, where `rcc` is run; what `rcc` makes of it is a source of
/// the archive; and cargo is told to watch it.
pub proof fn law_every_list_is_compiled(
    root: Seq<char>,
    dir: Seq<char>,
    lists: Seq<Seq<char>>,
    rcc: Seq<char>,
    i: int,
)
    requires
        0 <= i < lists.len(),
    ensures
        ({
            let steps = resource_steps(root, dir, lists, rcc);
            &&& steps.len() == 2 * lists.len() + 7
            &&& steps[2 + 2 * i] matches StepModel::Run { program, args, cwd, subject } && program
                == rcc && cwd == Some(dir) && args.last() == rcc_argument(dir, lists[i]) && subject
                == lists[i] && (steps[steps.len() - 4] matches StepModel::Compile { plan }
                && plan.sources.len() == lists.len() && plan.sources[i] == args[3])
            &&& steps[3 + 2 * i] == rerun(lists[i])
        }),
{
    let gen = gen_dir(out_dir(root, Job::Resources));
    lemma_rcc_steps(rcc, dir, gen, Job::Resources.lib(), lists, i);
}

/// `rcc` finds a list that lies below the directory where it is run by the list's
/// path from there; so the synthetic list of the forms is given to it by its name.
pub proof fn law_rcc_argument(cwd: Seq<char>, rel: Seq<char>)
    ensures
        is_plain(rel) ==> rcc_argument(cwd, joined(cwd, rel)) == rel,
        rcc_argument(cwd, joined(cwd, "ui.qrc"@)) == "ui.qrc"@,
{
    if is_plain(rel) {
        law_joined_is_seen(cwd, rel);
    }
    reveal_strlit("ui.qrc");
    assert("ui.qrc"@.len() == 6);
    assert(is_named("ui.qrc"@));
    assert(!"ui.qrc"@.contains('/'));
    lemma_name("ui.qrc"@);
    law_joined_is_seen(cwd, "ui.qrc"@);
}

} // verus!
