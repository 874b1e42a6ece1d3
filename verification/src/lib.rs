//! Build helpers for qtrs: compile a project's Qt Designer `.ui` forms and
//! `.qrc` resource lists into the final binary.
//!
//! Qt's own `uic` and `rcc` are run at compile time, the C++ code that they
//! generate is made a static archive, and the archive is linked whole, so that
//! Qt registers the resources the moment the program starts. After that
//!
//! - `<package>/ui/<name>.ui` is a resource at `:/qrc/<name>.ui`, and
//! - the resources that `<package>/resources/*.qrc` list are available under
//!   `:/...`.
//!
//! Where there is nothing to embed, or no tool to embed it with, the archive is
//! empty (it keeps a single marker symbol) and no error is raised.
//!
//! This library decides what is to be done and in what order; it does nothing
//! itself. [`Ui::embed`] and [`Rcc::embed`] start a session ([`Embed`]), which
//! asks for one thing after another: an environment variable, the listing of a
//! directory, a run of a tool, a file to be written. Whoever drives the session
//! does what is asked and hands back what came of it.
//!
//! | module       | what it decides                                            |
//! |--------------|------------------------------------------------------------|
//! | [`tools`]    | where `uic` and `rcc` are looked for                       |
//! | [`collect`]  | which files of a directory tree are embedded               |
//! | [`forms`]    | what a form is called in the binary                        |
//! | [`headers`]  | where Qt's headers are                                     |
//! | [`script`]   | the steps that make and link an archive                    |
//! | [`compiler`] | how the C++ compiler is set up                             |
//! | [`embed`]    | what is asked for next                                     |
//! | [`places`]   | where the steps write                                      |
//! | [`requests`] | where each reply takes a session                           |
//! | [`transcripts`] | what each script is, step by step                       |
//! | [`links`]    | when cargo is told to link                                 |
//! | [`laws`]     | what holds of every session                                |
use vstd::prelude::*;

pub mod collect;
pub mod compiler;
pub mod demo;
pub mod embed;
pub mod forms;
pub mod headers;
pub mod laws;
pub mod links;
pub mod path;
pub mod places;
pub mod requests;
pub mod script;
pub mod text;
pub mod tools;
pub mod transcripts;

pub use crate::collect::Entry;
pub use crate::compiler::{compiler_for, BuildPlan};
pub use crate::embed::{Embed, Rcc, Reply, Request, Ui};
pub use crate::headers::ProgramOutput;
pub use crate::script::{Job, Step};
pub use crate::tools::QtTools;

verus! {

/// Embedded virtual file prefix used for generated `.ui` sources.
pub const UI_PREFIX: &'static str = "qrc";

/// The directory scanned for `.ui` files (`<package root>/ui`).
pub const UI_DIR: &'static str = "ui";

/// The directory scanned for `.qrc` files (`<package root>/resources`).
pub const QRC_DIR: &'static str = "resources";

} // verus!
