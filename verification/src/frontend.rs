//! The grammars of sources.

use vstd::prelude::*;
use vstd::string::StrSliceExecFns;

use crate::authored::{forms_view, Module, SForm};
use crate::error::{MagError, SError};
use crate::operations::eval_error;
use crate::text::{cat2, same};

verus! {

/// The grammar of one source.
#[derive(Debug, Clone, Copy, PartialEq, Eq, Structural)]
pub enum SyntaxMode {
    /// The nominal, expression-oriented syntax.
    New,
    /// The compatibility syntax of prefix lists.
    Lisp,
}

impl Default for SyntaxMode {
    fn default() -> (r: SyntaxMode)
        ensures
            r == SyntaxMode::New,
    {
        SyntaxMode::New
    }
}

/// What a source is to a compilation.
#[derive(Debug, Clone, Copy, PartialEq, Eq, Structural)]
pub enum SourceRole {
    Entry,
    Module,
}

/// Whether the character before `n` adds nothing to a path: a separator, or a component that
/// stays where it is.
pub open spec fn idle_before(path: Seq<char>, n: nat) -> bool {
    n > 0 && (path[n - 1] == '/' || (n > 1 && path[n - 1] == '.' && path[n - 2] == '/'))
}

/// The end of a path's last component.
pub open spec fn trimmed_end(path: Seq<char>, n: nat) -> nat
    decreases n,
{
    if idle_before(path, n) {
        trimmed_end(path, (n - 1) as nat)
    } else {
        n
    }
}

/// The start of the component that ends at `n`.
pub open spec fn component_start(path: Seq<char>, n: nat) -> nat
    decreases n,
{
    if n > 0 && path[n - 1] != '/' {
        component_start(path, (n - 1) as nat)
    } else {
        n
    }
}

/// A path's last component.
pub open spec fn file_name(path: Seq<char>) -> Seq<char> {
    let end = trimmed_end(path, path.len());
    path.subrange(component_start(path, end) as int, end as int)
}

/// What stands behind the last dot of a file's name, where something stands before that dot.
pub open spec fn extension(name: Seq<char>) -> Option<Seq<char>> {
    match crate::resolver::last_dot(name, name.len()) {
        Some(at) => if at == 0 || name == ".."@ {
            None
        } else {
            Some(name.skip(at as int + 1))
        },
        None => None,
    }
}

pub open spec fn syntax_of(path: Seq<char>) -> Result<SyntaxMode, SError> {
    if extension(file_name(path)) == Some("mag"@) {
        Ok(SyntaxMode::New)
    } else if extension(file_name(path)) == Some("magl"@) {
        Ok(SyntaxMode::Lisp)
    } else {
        eval_error("MAG source path must end in .mag or .magl: "@ + path)
    }
}

proof fn ends_in_range(path: Seq<char>, n: nat)
    requires
        n <= path.len(),
    ensures
        trimmed_end(path, n) <= n,
        component_start(path, n) <= n,
    decreases n,
{
    if n > 0 {
        ends_in_range(path, (n - 1) as nat);
    }
}

fn last_component(path: &str) -> (r: &str)
    ensures
        r@ == file_name(path@),
{
    let len: usize = path.unicode_len();
    proof {
        ends_in_range(path@, path@.len());
        ends_in_range(path@, trimmed_end(path@, path@.len()));
    }
    let mut end: usize = len;
    while end > 0 && (path.get_char(end - 1) == '/' || (end > 1 && path.get_char(end - 1) == '.'
        && path.get_char(end - 2) == '/'))
        invariant
            end <= len,
            len == path@.len(),
            trimmed_end(path@, len as nat) == trimmed_end(path@, end as nat),
        decreases end,
    {
        end = end - 1;
    }
    assert(trimmed_end(path@, end as nat) == end);
    let mut start: usize = end;
    while start > 0 && path.get_char(start - 1) != '/'
        invariant
            start <= end <= len,
            len == path@.len(),
            component_start(path@, end as nat) == component_start(path@, start as nat),
        decreases start,
    {
        start = start - 1;
    }
    assert(component_start(path@, start as nat) == start);
    path.substring_char(start, end)
}

pub open spec fn mode_result(r: Result<SyntaxMode, MagError>) -> Result<SyntaxMode, SError> {
    match r {
        Ok(m) => Ok(m),
        Err(e) => Err(e@),
    }
}

/// The grammar that a path's suffix names.
pub fn syntax_for_path(path: &str) -> (r: Result<SyntaxMode, MagError>)
    ensures
        mode_result(r) == syntax_of(path@),
{
    let name = last_component(path);
    let n: usize = name.unicode_len();
    match crate::resolver::find_last_dot(name, n) {
        Some(at) => {
            if at > 0 && !same(name, "..") {
                let suffix = name.substring_char(at + 1, n);
                assert(suffix@ =~= name@.skip(at + 1));
                if same(suffix, "mag") {
                    return Ok(SyntaxMode::New);
                }
                if same(suffix, "magl") {
                    return Ok(SyntaxMode::Lisp);
                }
            }
        },
        None => {},
    }
    Err(MagError::Eval(cat2("MAG source path must end in .mag or .magl: ", path)))
}

pub open spec fn syntax_label(syntax: SyntaxMode) -> Seq<char> {
    match syntax {
        SyntaxMode::New => "new"@,
        SyntaxMode::Lisp => "lisp"@,
    }
}

/// An error of a source's grammar, which says the grammar.
pub open spec fn labelled(e: SError, syntax: SyntaxMode) -> SError {
    match e {
        SError::Syntax(code, stage, message, path, _) => SError::Syntax(
            code,
            stage,
            message,
            path,
            Some(syntax_label(syntax)),
        ),
        other => other,
    }
}

pub open spec fn module_result(r: Result<Module, MagError>) -> Result<Seq<SForm>, SError> {
    match r {
        Ok(m) => Ok(forms_view(m.forms@)),
        Err(e) => Err(e@),
    }
}

/// What a frontend made of a source, with the grammar in the errors that have a place for it.
pub fn compile_source(syntax: SyntaxMode, read: Result<Module, MagError>) -> (r: Result<
    Module,
    MagError,
>)
    ensures
        module_result(r) == match module_result(read) {
            Ok(m) => Ok(m),
            Err(e) => Err(labelled(e, syntax)),
        },
{
    match read {
        Ok(m) => Ok(m),
        Err(MagError::Syntax(d)) => {
            let mut diagnostic = *d;
            let label = match syntax {
                SyntaxMode::New => "new",
                SyntaxMode::Lisp => "lisp",
            };
            diagnostic.syntax = Some(label.to_owned());
            Err(MagError::Syntax(Box::new(diagnostic)))
        },
        Err(e) => Err(e),
    }
}

} // verus!
