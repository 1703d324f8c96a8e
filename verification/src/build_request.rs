//! The request to build a project.

use vstd::prelude::*;

use crate::diagnostics::{opt_str, path_diagnostic, path_report, rooted, Diagnostic, SDiagnostic};
use crate::json::Json;
use crate::limits::{CompilerLimits, CompilerOptions};
use crate::project_config::{
    join_path, joined_path, prepare as prepare_project, prepared, states_view, Manifest, PathState,
    PreparedProject, SPreparedProject, SProjectError,
};
use crate::session::FileCompileRequest;
use crate::text::{clone_names, strings};

verus! {

pub struct ProjectBuildRequest {
    pub project_root: String,
    pub entry: String,
    pub module_roots: Vec<String>,
    pub inputs: Json,
    pub options: CompilerOptions,
    pub config_version: u32,
}

impl ProjectBuildRequest {
    pub fn as_file_request(&self) -> (r: FileCompileRequest)
        ensures
            r.source_dir@ == self.project_root@,
            r.entry@ == self.entry@,
            r.inputs@ == self.inputs@,
            strings(r.module_roots@) == strings(self.module_roots@),
            r.options == self.options,
    {
        FileCompileRequest {
            source_dir: self.project_root.clone(),
            entry: self.entry.clone(),
            inputs: self.inputs.clone(),
            module_roots: clone_names(&self.module_roots),
            options: self.options,
        }
    }
}

/// The directory of a project: the one that was asked for, taken from the current one, or the
/// current one.
pub open spec fn root_of(cwd: Seq<char>, project: Option<Seq<char>>) -> Seq<char> {
    match project {
        Some(p) => joined_path(cwd, p),
        None => cwd,
    }
}

pub fn project_root(cwd: &str, project: Option<&str>) -> (r: String)
    ensures
        r@ == root_of(cwd@, opt_str(project)),
{
    match project {
        Some(p) => join_path(cwd, p),
        None => cwd.to_owned(),
    }
}

/// The request to build a project, given its manifest, what its paths lead to, and its inputs.
pub fn prepare(
    cwd: &str,
    project: Option<&str>,
    entry: String,
    extra_roots: &Vec<String>,
    manifest: &Manifest,
    states: &Vec<(String, PathState)>,
    inputs: Result<Json, Diagnostic>,
    options: CompilerOptions,
) -> (r: Result<ProjectBuildRequest, Diagnostic>)
    ensures
        match prepared(
            root_of(cwd@, opt_str(project)),
            strings(extra_roots@),
            *manifest,
            states_view(states@),
        ) {
            Err(e) => r is Err && r->Err_0@ == path_report(e.code, e.path, e.message),
            Ok(p) => match inputs {
                Err(d) => r is Err && r->Err_0@ == d@,
                Ok(j) => {
                    &&& r is Ok
                    &&& r->Ok_0.project_root@ == p.project_root
                    &&& r->Ok_0.entry@ == entry@
                    &&& strings(r->Ok_0.module_roots@) == p.module_roots
                    &&& r->Ok_0.inputs@ == j@
                    &&& r->Ok_0.options == options
                    &&& r->Ok_0.config_version == p.config_version
                },
            },
        },
{
    let root = project_root(cwd, project);
    proof {
        reveal(prepared);
    }
    match prepare_project(&root, extra_roots, manifest, states) {
        Err(e) => Err(path_diagnostic(e.code, &e.path, e.message)),
        Ok(p) => match inputs {
            Err(d) => Err(d),
            Ok(j) => Ok(
                ProjectBuildRequest {
                    project_root: p.project_root,
                    entry,
                    module_roots: p.module_roots,
                    inputs: j,
                    options,
                    config_version: p.config_version,
                },
            ),
        },
    }
}

/// The limits that were asked for, and the usual ones where nothing was.
pub fn options(
    evaluation_steps: Option<u64>,
    call_depth: Option<u16>,
    expression_depth: Option<u16>,
    memoized_calls: Option<usize>,
) -> (r: CompilerOptions)
    ensures
        r.limits == (CompilerLimits {
            evaluation_steps: match evaluation_steps {
                Some(n) => n,
                None => 1_000_000,
            },
            call_depth: match call_depth {
                Some(n) => n,
                None => 64,
            },
            expression_depth: match expression_depth {
                Some(n) => n,
                None => 128,
            },
            memoized_calls: match memoized_calls {
                Some(n) => n,
                None => 16_384,
            },
        }),
{
    let usual = CompilerLimits::default();
    CompilerOptions {
        limits: CompilerLimits {
            evaluation_steps: match evaluation_steps {
                Some(n) => n,
                None => usual.evaluation_steps,
            },
            call_depth: match call_depth {
                Some(n) => n,
                None => usual.call_depth,
            },
            expression_depth: match expression_depth {
                Some(n) => n,
                None => usual.expression_depth,
            },
            memoized_calls: match memoized_calls {
                Some(n) => n,
                None => usual.memoized_calls,
            },
        },
    }
}

} // verus!
