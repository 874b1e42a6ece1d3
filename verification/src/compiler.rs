//! How the C++ compiler is set up for an archive.
use crate::text::texts;
use vstd::prelude::*;

verus! {

/// Declares `cc::Build`, the compiler set-up of the `cc` crate.
#[verifier::external_type_specification]
#[verifier::external_body]
pub struct ExBuild(cc::Build);

/// The source files that were added to a set-up with `cc::Build::file`.
pub uninterp spec fn build_sources(build: cc::Build) -> Seq<Seq<char>>;

/// The directories that were added to a set-up with `cc::Build::includes`.
pub uninterp spec fn build_includes(build: cc::Build) -> Seq<Seq<char>>;

/// The flags that were added to a set-up with `cc::Build::flag_if_supported`.
pub uninterp spec fn build_flags(build: cc::Build) -> Seq<Seq<char>>;

/// Whether the sources are C++, as set with `cc::Build::cpp`.
pub uninterp spec fn build_is_cpp(build: cc::Build) -> bool;

/// Whether directives for cargo are printed, as set with
/// `cc::Build::cargo_metadata`.
pub uninterp spec fn build_prints_metadata(build: cc::Build) -> bool;

/// The output directory, as set with `cc::Build::out_dir`.
pub uninterp spec fn build_out_dir(build: cc::Build) -> Option<Seq<char>>;

/// What a compiler set-up holds.
pub struct BuildConfig {
    pub sources: Seq<Seq<char>>,
    pub includes: Seq<Seq<char>>,
    pub flags: Seq<Seq<char>>,
    pub is_cpp: bool,
    pub prints_metadata: bool,
    pub out_dir: Option<Seq<char>>,
}

/// What a compiler set-up holds.
pub open spec fn config(build: cc::Build) -> BuildConfig {
    BuildConfig {
        sources: build_sources(build),
        includes: build_includes(build),
        flags: build_flags(build),
        is_cpp: build_is_cpp(build),
        prints_metadata: build_prints_metadata(build),
        out_dir: build_out_dir(build),
    }
}

/// Calls `cc::Build::new`: a set-up for C without sources, include directories,
/// flags or an output directory, which prints directives for cargo.
#[verifier::external_body]
fn new_build() -> (build: cc::Build)
    ensures
        build_sources(build) == Seq::<Seq<char>>::empty(),
        build_includes(build) == Seq::<Seq<char>>::empty(),
        build_flags(build) == Seq::<Seq<char>>::empty(),
        build_is_cpp(build) == false,
        build_prints_metadata(build) == true,
        build_out_dir(build) is None,
{
    cc::Build::new()
}

/// Calls `cc::Build::cpp`, which sets whether the sources are C++ and changes
/// nothing else.
#[verifier::external_body]
fn set_cpp(build: &mut cc::Build, cpp: bool)
    ensures
        config(*final(build)) == (BuildConfig { is_cpp: cpp, ..config(*old(build)) }),
{
    build.cpp(cpp);
}

/// Calls `cc::Build::cargo_metadata`, which sets whether directives for cargo
/// are printed and changes nothing else.
#[verifier::external_body]
fn set_cargo_metadata(build: &mut cc::Build, print: bool)
    ensures
        config(*final(build)) == (BuildConfig { prints_metadata: print, ..config(*old(build)) }),
{
    build.cargo_metadata(print);
}

/// Calls `cc::Build::flag_if_supported`, which adds a flag behind those that are
/// there and changes nothing else.
#[verifier::external_body]
fn add_flag_if_supported(build: &mut cc::Build, flag: &str)
    ensures
        config(*final(build)) == (BuildConfig {
            flags: config(*old(build)).flags.push(flag@),
            ..config(*old(build))
        }),
{
    build.flag_if_supported(flag);
}

/// Calls `cc::Build::file`, which adds a source file behind those that are there
/// and changes nothing else.
#[verifier::external_body]
fn add_file(build: &mut cc::Build, file: &str)
    ensures
        config(*final(build)) == (BuildConfig {
            sources: config(*old(build)).sources.push(file@),
            ..config(*old(build))
        }),
{
    build.file(file);
}

/// Calls `cc::Build::includes`, which adds the directories behind those that are
/// there, in order, and changes nothing else.
#[verifier::external_body]
fn add_includes(build: &mut cc::Build, dirs: &Vec<String>)
    ensures
        config(*final(build)) == (BuildConfig {
            includes: config(*old(build)).includes + texts(dirs@),
            ..config(*old(build))
        }),
{
    build.includes(dirs);
}

/// Calls `cc::Build::out_dir`, which sets the output directory and changes
/// nothing else.
#[verifier::external_body]
fn set_out_dir(build: &mut cc::Build, dir: &str)
    ensures
        config(*final(build)) == (BuildConfig { out_dir: Some(dir@), ..config(*old(build)) }),
{
    build.out_dir(dir);
}

/// What a [`BuildPlan`] says.
pub struct PlanModel {
    pub sources: Seq<Seq<char>>,
    pub includes: Seq<Seq<char>>,
    pub out_dir: Seq<char>,
    pub lib_name: Seq<char>,
}

/// An archive that is to be compiled.
#[derive(Debug)]
pub struct BuildPlan {
    /// The C++ sources, in order.
    pub sources: Vec<String>,
    /// The include directories, in order.
    pub includes: Vec<String>,
    /// The directory that the archive is put in.
    pub out_dir: String,
    /// The name of the archive, without `lib` and `.a`.
    pub lib_name: String,
}

impl View for BuildPlan {
    type V = PlanModel;

    open spec fn view(&self) -> PlanModel {
        PlanModel {
            sources: texts(self.sources@),
            includes: texts(self.includes@),
            out_dir: self.out_dir@,
            lib_name: self.lib_name@,
        }
    }
}

/// The compiler set-up for an archive: C++ without the warnings that generated
/// code gives rise to, and without directives of its own for cargo.
pub fn compiler_for(plan: &BuildPlan) -> (build: cc::Build)
    ensures
        config(build) == (BuildConfig {
            sources: plan@.sources,
            includes: plan@.includes,
            flags: seq!["-Wno-unused-variable"@, "-Wno-unused-function"@],
            is_cpp: true,
            prints_metadata: false,
            out_dir: Some(plan@.out_dir),
        }),
{
    let mut build = new_build();
    set_cpp(&mut build, true);
    set_cargo_metadata(&mut build, false);
    add_flag_if_supported(&mut build, "-Wno-unused-variable");
    add_flag_if_supported(&mut build, "-Wno-unused-function");
    let ghost start = config(build);
    assert(start.flags == seq!["-Wno-unused-variable"@, "-Wno-unused-function"@]);
    let mut i: usize = 0;
    assert(start.sources == plan@.sources.take(0));
    while i < plan.sources.len()
        invariant
            i <= plan.sources@.len(),
            config(build) == (BuildConfig { sources: plan@.sources.take(i as int), ..start }),
        decreases plan.sources@.len() - i,
    {
        add_file(&mut build, plan.sources[i].as_str());
        assert(plan@.sources.take(i + 1) == plan@.sources.take(i as int).push(
            plan.sources@[i as int]@,
        ));
        i += 1;
    }
    assert(plan@.sources.take(plan.sources@.len() as int) == plan@.sources);
    add_includes(&mut build, &plan.includes);
    assert(config(build).includes == plan@.includes);
    set_out_dir(&mut build, plan.out_dir.as_str());
    build
}

/// What a set-up holds is what was added to it and set in it.
pub proof fn law_config(build: cc::Build)
    ensures
        config(build).sources == build_sources(build),
        config(build).includes == build_includes(build),
        config(build).flags == build_flags(build),
        config(build).is_cpp == build_is_cpp(build),
        config(build).prints_metadata == build_prints_metadata(build),
        config(build).out_dir == build_out_dir(build),
{
}

/// What a plan says is what it holds.
pub proof fn law_plan(plan: BuildPlan)
    ensures
        plan@.sources == texts(plan.sources@),
        plan@.includes == texts(plan.includes@),
        plan@.out_dir == plan.out_dir@,
        plan@.lib_name == plan.lib_name@,
{
}

} // verus!
