//! The compiler between its frontend and the build: checks the modules, has
//! the backend lower and print them, and adds the build file.

use vstd::prelude::*;
use vstd::string::*;
use crate::backend::{
    Backend, backend_stmts, file_names, lemma_backend_stmts_known, ninja_new, ninja_stmts,
    ninja_text, ninja_to_string,
};
use crate::il::{BuildArtifacts, PrintError, artifacts_view, il_files};
use crate::lower::modules_lowered;
use crate::mir;
use crate::type_check::{TypeError, modules_error, type_check};

verus! {

/// Why modules were not compiled.
#[derive(Debug, PartialEq, Eq)]
pub enum CompileError {
    /// The modules break a typing rule.
    Type(TypeError),
    /// Their IL text could not be printed.
    Print(PrintError),
}

/// The files of a build: the IL files of the modules, and then the build
/// file, which holds what the backend adds to an empty build file.
pub open spec fn build_files(modules: Seq<mir::ModuleView>, backend: Backend) -> Seq<
    (Seq<char>, Seq<char>),
> {
    let ils = il_files(modules_lowered(modules));
    ils.push(
        (
            "build.ninja"@,
            ninja_text(
                backend_stmts(
                    backend.libraries(),
                    backend.library_paths(),
                    file_names(ils),
                    backend.output(),
                ),
            ),
        ),
    )
}

/// Compiles modules to the files of their build. Modules that break a
/// typing rule are not compiled: the first violation is reported.
pub fn compile(modules: &[mir::Module], backend: &Backend) -> (r: Result<
    BuildArtifacts,
    CompileError,
>)
    ensures
        match modules_error(mir::modules_view(modules@)) {
            Some(violation) => r matches Err(CompileError::Type(err)) && err@ == violation,
            None => r matches Ok(files) && artifacts_view(files@) == build_files(
                mir::modules_view(modules@),
                *backend,
            ),
        },
{
    if let Err(err) = type_check(modules) {
        return Err(CompileError::Type(err));
    }
    let mut ninja_writer = ninja_new();
    let mut build_artifacts = match backend.generate_build_artifacts(modules, &mut ninja_writer) {
        Ok(files) => files,
        Err(err) => {
            return Err(CompileError::Print(err));
        },
    };
    let ghost printed = artifacts_view(build_artifacts@);
    proof {
        lemma_backend_stmts_known(
            backend.libraries(),
            backend.library_paths(),
            file_names(il_files(modules_lowered(mir::modules_view(modules@)))),
            backend.output(),
        );
        assert(ninja_stmts(ninja_writer) =~= backend_stmts(
            backend.libraries(),
            backend.library_paths(),
            file_names(il_files(modules_lowered(mir::modules_view(modules@)))),
            backend.output(),
        ));
    }
    let text = ninja_to_string(&ninja_writer);
    let ghost written = text@;
    build_artifacts.push((String::from_str("build.ninja"), text));
    assert(artifacts_view(build_artifacts@) =~= printed.push(("build.ninja"@, written)));
    Ok(build_artifacts)
}

} // verus!
