//! The manifest of a project and the directories that it names.

use vstd::prelude::*;
use vstd::string::StrSliceExecFns;

use crate::env::keyed;
use crate::resolver::absolute;
use crate::text::{cat2, cat3, cat5, clone_names, decimal, same, show_u64, strings};

verus! {

broadcast use vstd::seq_lib::group_seq_properties;

/// Why a project cannot be prepared.
#[derive(Debug)]
pub struct ProjectError {
    pub code: &'static str,
    pub path: String,
    pub message: String,
}

/// The model of a [`ProjectError`].
#[verifier::ext_equal]
pub struct SProjectError {
    pub code: Seq<char>,
    pub path: Seq<char>,
    pub message: Seq<char>,
}

impl View for ProjectError {
    type V = SProjectError;

    open spec fn view(&self) -> SProjectError {
        SProjectError { code: self.code@, path: self.path@, message: self.message@ }
    }
}

/// A project's root and its module roots in their order. The paths are as they were written: their
/// spelling is part of what a stored artifact is known by.
#[derive(Debug)]
pub struct PreparedProject {
    pub project_root: String,
    pub module_roots: Vec<String>,
    pub config_version: u32,
}

/// The model of a [`PreparedProject`].
#[verifier::ext_equal]
pub struct SPreparedProject {
    pub project_root: Seq<char>,
    pub module_roots: Seq<Seq<char>>,
    pub config_version: u32,
}

impl View for PreparedProject {
    type V = SPreparedProject;

    open spec fn view(&self) -> SPreparedProject {
        SPreparedProject {
            project_root: self.project_root@,
            module_roots: strings(self.module_roots@),
            config_version: self.config_version,
        }
    }
}

/// What a manifest says.
#[derive(Debug)]
pub struct ProjectConfig {
    pub version: u32,
    pub module_roots: Vec<String>,
}

/// What became of reading a manifest.
#[derive(Debug)]
pub enum Manifest {
    Unreadable(String),
    Malformed(String),
    Parsed(ProjectConfig),
}

/// What a path leads to.
#[derive(Debug)]
pub enum PathState {
    Directory,
    Other,
    Unavailable(String),
}

/// The model of a [`PathState`].
#[verifier::ext_equal]
pub enum SPathState {
    Directory,
    Other,
    Unavailable(Seq<char>),
}

impl View for PathState {
    type V = SPathState;

    open spec fn view(&self) -> SPathState {
        match self {
            PathState::Directory => SPathState::Directory,
            PathState::Other => SPathState::Other,
            PathState::Unavailable(m) => SPathState::Unavailable(m@),
        }
    }
}

pub open spec fn states_view(items: Seq<(String, PathState)>) -> Seq<(Seq<char>, SPathState)> {
    Seq::new(items.len(), |i: int| (items[i].0@, items[i].1@))
}

/// A path taken from a directory: an absolute path is itself.
pub open spec fn joined_path(root: Seq<char>, path: Seq<char>) -> Seq<char> {
    if absolute(path) || root.len() == 0 {
        path
    } else if root[root.len() - 1] == '/' {
        root + path
    } else {
        root + "/"@ + path
    }
}

pub fn join_path(root: &str, path: &str) -> (r: String)
    ensures
        r@ == joined_path(root@, path@),
{
    let n: usize = root.unicode_len();
    if (path.unicode_len() > 0 && path.get_char(0) == '/') || n == 0 {
        return path.to_owned();
    }
    if root.get_char(n - 1) == '/' {
        cat2(root, path)
    } else {
        cat3(root, "/", path)
    }
}

pub open spec fn directory_error(path: Seq<char>, kind: Seq<char>, state: SPathState) -> Option<
    SProjectError,
> {
    match state {
        SPathState::Directory => None,
        SPathState::Other => Some(
            SProjectError {
                code: "path_not_directory"@,
                path,
                message: kind + " is not a directory: "@ + path,
            },
        ),
        SPathState::Unavailable(m) => Some(
            SProjectError {
                code: "path_unavailable"@,
                path,
                message: "cannot access "@ + kind + " "@ + path + ": "@ + m,
            },
        ),
    }
}

/// Refuses a path that does not lead to a directory.
pub fn require_directory(path: &str, kind: &str, state: &PathState) -> (r: Result<
    (),
    ProjectError,
>)
    ensures
        match r {
            Ok(_) => directory_error(path@, kind@, state@) is None,
            Err(e) => directory_error(path@, kind@, state@) == Some(e@),
        },
{
    match state {
        PathState::Directory => Ok(()),
        PathState::Other => Err(
            ProjectError {
                code: "path_not_directory",
                path: path.to_owned(),
                message: cat3(kind, " is not a directory: ", path),
            },
        ),
        PathState::Unavailable(m) => Err(
            ProjectError {
                code: "path_unavailable",
                path: path.to_owned(),
                message: cat2(&cat5("cannot access ", kind, " ", path, ": "), m),
            },
        ),
    }
}

/// The path of a project's manifest.
pub open spec fn manifest_path(root: Seq<char>) -> Seq<char> {
    joined_path(root, "mag.toml"@)
}

/// The version and the module roots of a manifest, or why it is refused.
pub open spec fn loaded(root: Seq<char>, manifest: Manifest) -> Result<
    (u32, Seq<Seq<char>>),
    SProjectError,
> {
    match manifest {
        Manifest::Unreadable(m) => Err(
            SProjectError {
                code: "project_read"@,
                path: manifest_path(root),
                message: "cannot read project manifest: "@ + m@,
            },
        ),
        Manifest::Malformed(m) => Err(
            SProjectError {
                code: "project_config"@,
                path: manifest_path(root),
                message: "invalid project manifest: "@ + m@,
            },
        ),
        Manifest::Parsed(c) => if c.version != 1 {
            Err(
                SProjectError {
                    code: "project_version"@,
                    path: manifest_path(root),
                    message: "unsupported project manifest version "@ + decimal(c.version as nat),
                },
            )
        } else {
            Ok((c.version, strings(c.module_roots@)))
        },
    }
}

/// Accepts a manifest.
pub fn load(root: &str, manifest: &Manifest) -> (r: Result<ProjectConfig, ProjectError>)
    ensures
        match r {
            Ok(c) => loaded(root@, *manifest) == Ok::<(u32, Seq<Seq<char>>), SProjectError>(
                (c.version, strings(c.module_roots@)),
            ),
            Err(e) => loaded(root@, *manifest) == Err::<(u32, Seq<Seq<char>>), SProjectError>(e@),
        },
{
    let path = join_path(root, "mag.toml");
    match manifest {
        Manifest::Unreadable(m) => Err(
            ProjectError {
                code: "project_read",
                path,
                message: cat2("cannot read project manifest: ", m),
            },
        ),
        Manifest::Malformed(m) => Err(
            ProjectError {
                code: "project_config",
                path,
                message: cat2("invalid project manifest: ", m),
            },
        ),
        Manifest::Parsed(c) => {
            if c.version != 1 {
                Err(
                    ProjectError {
                        code: "project_version",
                        path,
                        message: cat2(
                            "unsupported project manifest version ",
                            &show_u64(c.version as u64),
                        ),
                    },
                )
            } else {
                Ok(ProjectConfig { version: c.version, module_roots: clone_names(&c.module_roots) })
            }
        },
    }
}

pub open spec fn joined_paths(root: Seq<char>, paths: Seq<Seq<char>>) -> Seq<Seq<char>> {
    Seq::new(paths.len(), |i: int| joined_path(root, paths[i]))
}

/// The directories that modules are looked for in: the project's own, those of its manifest, and
/// those that were asked for, each taken from the project's.
pub open spec fn effective_roots(
    root: Seq<char>,
    configured: Seq<Seq<char>>,
    extra: Seq<Seq<char>>,
) -> Seq<Seq<char>> {
    seq![root] + joined_paths(root, configured) + joined_paths(root, extra)
}

fn add_joined(root: &str, paths: &Vec<String>, out: &mut Vec<String>)
    ensures
        strings(final(out)@) == strings(old(out)@) + joined_paths(root@, strings(paths@)),
{
    let ghost before = strings(out@);
    let ghost more = joined_paths(root@, strings(paths@));
    let mut i: usize = 0;
    assert(before + more.take(0) =~= before);
    while i < paths.len()
        invariant
            i <= paths.len(),
            more == joined_paths(root@, strings(paths@)),
            strings(out@) == before + more.take(i as int),
        decreases paths.len() - i,
    {
        let ghost so_far = strings(out@);
        let path = join_path(root, &paths[i]);
        out.push(path);
        proof {
            assert(strings(out@) =~= so_far.push(path@));
            assert(more.take(i + 1) =~= more.take(i as int).push(path@));
        }
        i = i + 1;
    }
    assert(more.take(paths.len() as int) =~= more);
}

pub fn module_roots(root: &str, configured: &Vec<String>, extra: &Vec<String>) -> (r: Vec<String>)
    ensures
        strings(r@) == effective_roots(root@, strings(configured@), strings(extra@)),
{
    let mut r: Vec<String> = Vec::new();
    r.push(root.to_owned());
    assert(strings(r@) =~= seq![root@]);
    add_joined(root, configured, &mut r);
    add_joined(root, extra, &mut r);
    r
}

/// What a path was found to lead to.
pub open spec fn state_of(states: Seq<(Seq<char>, SPathState)>, path: Seq<char>) -> SPathState {
    match keyed(states, path, 0) {
        Some(s) => s,
        None => SPathState::Unavailable("path was not inspected"@),
    }
}

fn check_state(states: &Vec<(String, PathState)>, path: &str, kind: &str) -> (r: Result<
    (),
    ProjectError,
>)
    ensures
        match r {
            Ok(_) => directory_error(path@, kind@, state_of(states_view(states@), path@)) is None,
            Err(e) => directory_error(path@, kind@, state_of(states_view(states@), path@)) == Some(
                e@,
            ),
        },
{
    let ghost all = states_view(states@);
    let mut i: usize = 0;
    while i < states.len()
        invariant
            i <= states.len(),
            all == states_view(states@),
            keyed(all, path@, 0) == keyed(all, path@, i as nat),
        decreases states.len() - i,
    {
        assert(all[i as int] == (states@[i as int].0@, states@[i as int].1@));
        if same(&states[i].0, path) {
            return require_directory(path, kind, &states[i].1);
        }
        i = i + 1;
    }
    let missing = PathState::Unavailable("path was not inspected".to_owned());
    require_directory(path, kind, &missing)
}

/// The first of some paths, from `i` on, that does not lead to a directory.
pub open spec fn roots_error(
    states: Seq<(Seq<char>, SPathState)>,
    roots: Seq<Seq<char>>,
    i: nat,
) -> Option<SProjectError>
    decreases roots.len() - i,
{
    if i >= roots.len() {
        None
    } else {
        match directory_error(
            roots[i as int],
            "module_root"@,
            state_of(states, roots[i as int]),
        ) {
            Some(e) => Some(e),
            None => roots_error(states, roots, i + 1),
        }
    }
}

#[verifier::opaque]
pub open spec fn prepared(
    root: Seq<char>,
    extra: Seq<Seq<char>>,
    manifest: Manifest,
    states: Seq<(Seq<char>, SPathState)>,
) -> Result<SPreparedProject, SProjectError> {
    match directory_error(root, "project"@, state_of(states, root)) {
        Some(e) => Err(e),
        None => match loaded(root, manifest) {
            Err(e) => Err(e),
            Ok((version, configured)) => {
                let roots = effective_roots(root, configured, extra);
                match roots_error(states, roots, 0) {
                    Some(e) => Err(e),
                    None => Ok(
                        SPreparedProject {
                            project_root: root,
                            module_roots: roots,
                            config_version: version,
                        },
                    ),
                }
            },
        },
    }
}

/// Prepares a project, given its manifest and what its paths lead to.
pub fn prepare(
    project_root: &str,
    extra_roots: &Vec<String>,
    manifest: &Manifest,
    states: &Vec<(String, PathState)>,
) -> (r: Result<PreparedProject, ProjectError>)
    ensures
        match r {
            Ok(p) => prepared(
                project_root@,
                strings(extra_roots@),
                *manifest,
                states_view(states@),
            ) == Ok::<SPreparedProject, SProjectError>(p@),
            Err(e) => prepared(
                project_root@,
                strings(extra_roots@),
                *manifest,
                states_view(states@),
            ) == Err::<SPreparedProject, SProjectError>(e@),
        },
{
    proof {
        reveal(prepared);
    }
    check_state(states, project_root, "project")?;
    let config = load(project_root, manifest)?;
    let roots = module_roots(project_root, &config.module_roots, extra_roots);
    let ghost all = strings(roots@);
    let ghost seen = states_view(states@);
    let mut i: usize = 0;
    while i < roots.len()
        invariant
            i <= roots.len(),
            all == strings(roots@),
            seen == states_view(states@),
            all == effective_roots(
                project_root@,
                strings(config.module_roots@),
                strings(extra_roots@),
            ),
            directory_error(project_root@, "project"@, state_of(seen, project_root@)) is None,
            loaded(project_root@, *manifest) == Ok::<(u32, Seq<Seq<char>>), SProjectError>(
                (config.version, strings(config.module_roots@)),
            ),
            roots_error(seen, all, 0) == roots_error(seen, all, i as nat),
        decreases roots.len() - i,
    {
        proof {
            reveal(prepared);
            assert(all[i as int] == roots@[i as int]@);
        }
        check_state(states, &roots[i], "module_root")?;
        i = i + 1;
    }
    Ok(
        PreparedProject {
            project_root: project_root.to_owned(),
            module_roots: roots,
            config_version: config.version,
        },
    )
}

} // verus!
