//! Which files names and paths stand for. What there is on disk is handed in; which of it is
//! meant is decided here.

use vstd::prelude::*;
use vstd::string::StrSliceExecFns;

use crate::authored::{BlockItem, Form, SForm, SItem};
use crate::error::{MagError, SError};
use crate::frontend::{syntax_for_path, syntax_of, SyntaxMode};
use crate::modules::{dotted, is_dotted};
use crate::operations::eval_error;
use crate::project_config::{join_path, joined_path};
use crate::templates::{replace_text, replaced};
use crate::text::{
    before, cat2, cat3, cat4, cat5, comes_before, join, joined, order_names, ordered, same,
    same_names, strictly_sorted, strings,
};

verus! {

broadcast use vstd::seq_lib::group_seq_properties;

/// Whether a path starts at the root.
pub open spec fn absolute(path: Seq<char>) -> bool {
    path.len() > 0 && path[0] == '/'
}

/// Whether the two characters at `i` are a component that leads to the parent.
pub open spec fn parent_at(path: Seq<char>, i: int) -> bool {
    &&& i + 2 <= path.len()
    &&& path[i] == '.'
    &&& path[i + 1] == '.'
    &&& (i == 0 || path[i - 1] == '/')
    &&& (i + 2 == path.len() || path[i + 2] == '/')
}

/// Whether a path leads out of the directory that it is taken from.
pub open spec fn escapes(path: Seq<char>) -> bool {
    absolute(path) || exists|i: int| 0 <= i && #[trigger] parent_at(path, i)
}

pub fn path_escapes(path: &str) -> (r: bool)
    ensures
        r == escapes(path@),
{
    let n: usize = path.unicode_len();
    if n > 0 && path.get_char(0) == '/' {
        return true;
    }
    let mut i: usize = 0;
    while i < n
        invariant
            i <= n,
            n == path@.len(),
            !absolute(path@),
            forall|j: int| 0 <= j < i ==> !(#[trigger] parent_at(path@, j)),
        decreases n - i,
    {
        if n - i >= 2 && path.get_char(i) == '.' && path.get_char(i + 1) == '.' && (i == 0
            || path.get_char(i - 1) == '/') && (n - i == 2 || path.get_char(i + 2) == '/') {
            assert(parent_at(path@, i as int));
            return true;
        }
        assert(!parent_at(path@, i as int));
        i = i + 1;
    }
    assert forall|j: int| 0 <= j implies !(#[trigger] parent_at(path@, j)) by {
        if j < n {
            assert(!parent_at(path@, j));
        }
    }
    false
}

/// The error of a path that leads out of the workspace.
pub open spec fn escape_error(path: Seq<char>) -> SError {
    SError::Eval("path escapes workspace: "@ + path)
}

/// A component of a path, where a part of it is one: no part is empty, and only the first may
/// stand for the directory itself.
pub open spec fn component(part: Seq<char>, first: bool) -> Seq<Seq<char>> {
    if part.len() == 0 || (part == "."@ && !first) {
        Seq::empty()
    } else {
        seq![part]
    }
}

/// The components of a path from `i` on. The part that `i` stands in is `part` up to there.
pub open spec fn components_from(
    path: Seq<char>,
    i: nat,
    part: Seq<char>,
    first: bool,
) -> Seq<Seq<char>>
    decreases path.len() - i,
{
    if i >= path.len() {
        component(part, first)
    } else if path[i as int] == '/' {
        component(part, first) + components_from(path, i + 1, Seq::empty(), false)
    } else {
        components_from(path, i + 1, part.push(path[i as int]), first)
    }
}

/// The components of a path, of which the root is the first where the path starts there.
pub open spec fn path_components(path: Seq<char>) -> Seq<Seq<char>> {
    if absolute(path) {
        seq!["/"@] + components_from(path, 0, Seq::empty(), true)
    } else {
        components_from(path, 0, Seq::empty(), true)
    }
}

/// Whether a path is a directory or lies in it.
pub open spec fn lies_in(path: Seq<char>, directory: Seq<char>) -> bool {
    path_components(directory).is_prefix_of(path_components(path))
}

fn keep_component(out: &mut Vec<String>, part: String, first: bool)
    ensures
        strings(final(out)@) == strings(old(out)@) + component(part@, first),
{
    let ghost before = strings(out@);
    if part.as_str().unicode_len() == 0 || (!first && same(&part, ".")) {
        assert(before + component(part@, first) =~= before);
    } else {
        out.push(part);
        assert(strings(out@) =~= before + seq![part@]);
    }
}

fn split_path(path: &str) -> (r: Vec<String>)
    ensures
        strings(r@) == path_components(path@),
{
    let n: usize = path.unicode_len();
    let mut out: Vec<String> = Vec::new();
    if n > 0 && path.get_char(0) == '/' {
        out.push("/".to_owned());
        assert(strings(out@) =~= seq!["/"@]);
    } else {
        assert(strings(out@) =~= Seq::empty());
    }
    let mut part = String::new();
    let mut first = true;
    let mut i: usize = 0;
    proof {
        assert(part@ =~= Seq::empty());
        assert(strings(out@) + components_from(path@, 0, Seq::empty(), true) =~= path_components(
            path@,
        ));
    }
    while i < n
        invariant
            i <= n,
            n == path@.len(),
            path_components(path@) == strings(out@) + components_from(
                path@,
                i as nat,
                part@,
                first,
            ),
        decreases n - i,
    {
        let c = path.get_char(i);
        if c == '/' {
            let ghost before = strings(out@);
            let ghost rest = components_from(path@, (i + 1) as nat, Seq::empty(), false);
            let ghost here = component(part@, first);
            let done = part;
            part = String::new();
            keep_component(&mut out, done, first);
            first = false;
            proof {
                assert(part@ =~= Seq::empty());
                assert(before + (here + rest) =~= before + here + rest);
            }
        } else {
            part.push(c);
        }
        i = i + 1;
    }
    keep_component(&mut out, part, first);
    out
}

/// Whether a path is a directory or lies in it, as far as the two texts say.
pub fn is_inside(path: &str, directory: &str) -> (r: bool)
    ensures
        r == lies_in(path@, directory@),
{
    let inner = split_path(path);
    let outer = split_path(directory);
    let ghost a = strings(inner@);
    let ghost b = strings(outer@);
    assert(a.len() == inner@.len() && b.len() == outer@.len());
    if outer.len() > inner.len() {
        return false;
    }
    let mut i: usize = 0;
    while i < outer.len()
        invariant
            i <= outer.len() <= inner.len(),
            a == strings(inner@),
            b == strings(outer@),
            a == path_components(path@),
            b == path_components(directory@),
            forall|j: int| 0 <= j < i ==> #[trigger] a[j] == b[j],
        decreases outer.len() - i,
    {
        assert(a[i as int] == inner@[i as int]@ && b[i as int] == outer@[i as int]@);
        if !same(&inner[i], &outer[i]) {
            assert(!(b =~= a.subrange(0, b.len() as int))) by {
                assert(a.subrange(0, b.len() as int)[i as int] == a[i as int]);
            }
            return false;
        }
        i = i + 1;
    }
    assert(b =~= a.subrange(0, b.len() as int));
    true
}

/// Where a component stands among others: the root first, then those that lead nowhere else or to
/// a parent, then names.
pub open spec fn component_rank(c: Seq<char>) -> nat {
    if c == "/"@ {
        0
    } else if c == "."@ {
        1
    } else if c == ".."@ {
        2
    } else {
        3
    }
}

pub open spec fn component_before(a: Seq<char>, b: Seq<char>) -> bool {
    component_rank(a) < component_rank(b) || (component_rank(a) == 3 && component_rank(b) == 3
        && before(a, b))
}

/// Whether components, which agree up to `i`, come before others.
pub open spec fn components_before(a: Seq<Seq<char>>, b: Seq<Seq<char>>, i: nat) -> bool
    decreases b.len() - i,
{
    if i >= b.len() {
        false
    } else if i >= a.len() {
        true
    } else if a[i as int] == b[i as int] {
        components_before(a, b, i + 1)
    } else {
        component_before(a[i as int], b[i as int])
    }
}

/// Whether a path comes before another: by their components, the first that differ.
pub open spec fn path_before(a: Seq<char>, b: Seq<char>) -> bool {
    components_before(path_components(a), path_components(b), 0)
}

fn rank_of(c: &str) -> (r: u8)
    ensures
        r as nat == component_rank(c@),
{
    if same(c, "/") {
        0
    } else if same(c, ".") {
        1
    } else if same(c, "..") {
        2
    } else {
        3
    }
}

fn path_comes_before(a: &str, b: &str) -> (r: bool)
    ensures
        r == path_before(a@, b@),
{
    let left = split_path(a);
    let right = split_path(b);
    let ghost x = strings(left@);
    let ghost y = strings(right@);
    assert(x.len() == left@.len() && y.len() == right@.len());
    let mut i: usize = 0;
    while i < left.len() && i < right.len()
        invariant
            i <= left.len(),
            i <= right.len(),
            x == strings(left@),
            y == strings(right@),
            x.len() == left@.len(),
            y.len() == right@.len(),
            path_before(a@, b@) == components_before(x, y, i as nat),
        decreases right.len() - i,
    {
        assert(x[i as int] == left@[i as int]@ && y[i as int] == right@[i as int]@);
        if !same(&left[i], &right[i]) {
            let m = rank_of(&left[i]);
            let n = rank_of(&right[i]);
            return m < n || (m == 3 && n == 3 && comes_before(&left[i], &right[i]));
        }
        i = i + 1;
    }
    i < right.len()
}

fn is_same_path(a: &str, b: &str) -> (r: bool)
    ensures
        r == (path_components(a@) == path_components(b@)),
{
    let left = split_path(a);
    let right = split_path(b);
    same_names(&left, &right)
}

/// The path that a relative path leads to below a root: none where it is absolute or leads to a
/// parent, and none where the directory that it lies in, links followed, is not in the root.
pub open spec fn workspace_path(
    root: Seq<char>,
    relative: Seq<char>,
    canonical_root: Seq<char>,
    canonical_parent: Option<Seq<char>>,
) -> Result<Seq<char>, SError> {
    if escapes(relative) || (canonical_parent is Some && !lies_in(
        canonical_parent->Some_0,
        canonical_root,
    )) {
        Err(escape_error(relative))
    } else {
        Ok(joined_path(root, relative))
    }
}

pub open spec fn opt_text(s: Option<&str>) -> Option<Seq<char>> {
    match s {
        Some(s) => Some(s@),
        None => None,
    }
}

/// The path that a relative path leads to below a root. With links followed, the root is
/// `canonical_root` and the directory of that path `canonical_parent`, where it has one.
pub fn resolve_workspace_path(
    root: &str,
    relative: &str,
    canonical_root: &str,
    canonical_parent: Option<&str>,
) -> (r: Result<String, MagError>)
    ensures
        text_result(r) == workspace_path(
            root@,
            relative@,
            canonical_root@,
            opt_text(canonical_parent),
        ),
{
    let outside = match canonical_parent {
        Some(parent) => !is_inside(parent, canonical_root),
        None => false,
    };
    if outside || path_escapes(relative) {
        return Err(MagError::Eval(cat2("path escapes workspace: ", relative)));
    }
    Ok(join_path(root, relative))
}

/// Whether a character may stand in a part of a module's name.
pub open spec fn name_char(c: char) -> bool {
    ('a' <= c && c <= 'z') || ('A' <= c && c <= 'Z') || ('0' <= c && c <= '9') || c == '_' || c
        == '-'
}

/// Whether the parts of a name, from `i` on, are as those of a module's name are. `open` says
/// whether the part that `i` stands in has a character before `i`.
pub open spec fn parts_valid(name: Seq<char>, i: nat, open: bool) -> bool
    decreases name.len() - i,
{
    if i >= name.len() {
        open
    } else if name[i as int] == '.' {
        open && parts_valid(name, i + 1, false)
    } else {
        name_char(name[i as int]) && parts_valid(name, i + 1, true)
    }
}

/// Whether a name is a module's: parts of letters, digits, `_` and `-` with dots between them.
pub open spec fn module_name(name: Seq<char>) -> bool {
    parts_valid(name, 0, false)
}

fn is_module_name(name: &str) -> (r: bool)
    ensures
        r == module_name(name@),
{
    let n: usize = name.unicode_len();
    let mut open = false;
    let mut i: usize = 0;
    while i < n
        invariant
            i <= n,
            n == name@.len(),
            module_name(name@) == parts_valid(name@, i as nat, open),
        decreases n - i,
    {
        let c = name.get_char(i);
        if c == '.' {
            if !open {
                return false;
            }
            open = false;
        } else {
            if !(('a' <= c && c <= 'z') || ('A' <= c && c <= 'Z') || ('0' <= c && c <= '9') || c
                == '_' || c == '-') {
                return false;
            }
            open = true;
        }
        i = i + 1;
    }
    open
}

/// The path of a module without its suffix.
pub open spec fn stem(name: Seq<char>) -> Result<Seq<char>, SError> {
    if module_name(name) {
        Ok(replaced(name, "."@, "/"@))
    } else {
        eval_error("invalid module name: "@ + name)
    }
}

pub fn module_stem(name: &str) -> (r: Result<String, MagError>)
    ensures
        text_result(r) == stem(name@),
{
    if is_module_name(name) {
        Ok(replace_text(name, ".", "/"))
    } else {
        Err(MagError::Eval(cat2("invalid module name: ", name)))
    }
}

/// A file that a module is read from.
#[derive(Debug)]
pub struct ResolvedModule {
    pub path: String,
    pub syntax: SyntaxMode,
}

pub open spec fn candidates_view(items: Seq<ResolvedModule>) -> Seq<(Seq<char>, SyntaxMode)> {
    Seq::new(items.len(), |i: int| (items[i].path@, items[i].syntax))
}

pub open spec fn candidate_paths(items: Seq<(Seq<char>, SyntaxMode)>) -> Seq<Seq<char>> {
    Seq::new(items.len(), |i: int| items[i].0)
}

/// The files with one more behind those whose paths do not come after its own.
pub open spec fn placed_file(
    sorted: Seq<(Seq<char>, SyntaxMode)>,
    file: (Seq<char>, SyntaxMode),
) -> Seq<(Seq<char>, SyntaxMode)>
    decreases sorted.len(),
{
    if sorted.len() == 0 {
        seq![file]
    } else if path_before(file.0, sorted.last().0) {
        placed_file(sorted.drop_last(), file).push(sorted.last())
    } else {
        sorted.push(file)
    }
}

/// The files in the order of their paths, those of one path in the order in which they were found.
pub open spec fn files_by_path(found: Seq<(Seq<char>, SyntaxMode)>) -> Seq<(Seq<char>, SyntaxMode)>
    decreases found.len(),
{
    if found.len() == 0 {
        Seq::empty()
    } else {
        placed_file(files_by_path(found.drop_last()), found.last())
    }
}

/// Whether a file is another again: in the same grammar, with a path of the same components.
pub open spec fn same_file(a: (Seq<char>, SyntaxMode), b: (Seq<char>, SyntaxMode)) -> bool {
    path_components(a.0) == path_components(b.0) && a.1 == b.1
}

/// The files without those that repeat the one before them.
pub open spec fn unrepeated(found: Seq<(Seq<char>, SyntaxMode)>) -> Seq<(Seq<char>, SyntaxMode)>
    decreases found.len(),
{
    if found.len() == 0 {
        Seq::empty()
    } else {
        let rest = unrepeated(found.drop_last());
        if rest.len() > 0 && same_file(rest.last(), found.last()) {
            rest
        } else {
            rest.push(found.last())
        }
    }
}

/// The one of some files that a module is read from. One file that was found in two grammars is
/// two.
#[verifier::opaque]
pub open spec fn module_file(name: Seq<char>, found: Seq<(Seq<char>, SyntaxMode)>) -> Result<
    (Seq<char>, SyntaxMode),
    SError,
> {
    match stem(name) {
        Err(e) => Err(e),
        Ok(_) => {
            let different = unrepeated(files_by_path(found));
            if different.len() == 1 {
                Ok(different[0])
            } else if different.len() == 0 {
                eval_error("cannot find module "@ + name + " in search roots"@)
            } else {
                eval_error(
                    "module "@ + name + " is ambiguous across search roots or syntax suffixes: "@
                        + joined(candidate_paths(different), ", "@),
                )
            }
        },
    }
}

fn place_file(files: &mut Vec<ResolvedModule>, path: String, syntax: SyntaxMode)
    ensures
        candidates_view(final(files)@) == placed_file(
            candidates_view(old(files)@),
            (path@, syntax),
        ),
    decreases old(files)@.len(),
{
    let ghost all = candidates_view(files@);
    let ghost file = (path@, syntax);
    let n = files.len();
    assert(all.len() == n);
    if n == 0 {
        files.push(ResolvedModule { path, syntax });
        assert(candidates_view(files@) =~= seq![file]);
    } else if path_comes_before(&path, &files[n - 1].path) {
        match files.pop() {
            Some(last) => {
                assert(candidates_view(files@) =~= all.drop_last());
                place_file(files, path, syntax);
                let ghost placed = candidates_view(files@);
                files.push(last);
                assert(candidates_view(files@) =~= placed.push(all.last()));
            },
            None => {},
        }
    } else {
        files.push(ResolvedModule { path, syntax });
        assert(candidates_view(files@) =~= all.push(file));
    }
}

fn order_files(found: &Vec<ResolvedModule>) -> (r: Vec<ResolvedModule>)
    ensures
        candidates_view(r@) == files_by_path(candidates_view(found@)),
{
    let ghost all = candidates_view(found@);
    let mut r: Vec<ResolvedModule> = Vec::new();
    let mut i: usize = 0;
    assert(all.take(0) =~= Seq::empty());
    assert(candidates_view(r@) =~= Seq::empty());
    while i < found.len()
        invariant
            i <= found.len(),
            all == candidates_view(found@),
            candidates_view(r@) == files_by_path(all.take(i as int)),
        decreases found.len() - i,
    {
        proof {
            assert(all.take(i + 1).drop_last() =~= all.take(i as int));
            assert(all.take(i + 1).last() == all[i as int]);
        }
        place_file(&mut r, found[i].path.clone(), found[i].syntax);
        i = i + 1;
    }
    assert(all.take(found.len() as int) =~= all);
    r
}

fn drop_repeated(found: Vec<ResolvedModule>) -> (r: Vec<ResolvedModule>)
    ensures
        candidates_view(r@) == unrepeated(candidates_view(found@)),
{
    let ghost all = candidates_view(found@);
    let mut r: Vec<ResolvedModule> = Vec::new();
    let mut i: usize = 0;
    assert(all.take(0) =~= Seq::empty());
    assert(candidates_view(r@) =~= Seq::empty());
    while i < found.len()
        invariant
            i <= found.len(),
            all == candidates_view(found@),
            candidates_view(r@) == unrepeated(all.take(i as int)),
        decreases found.len() - i,
    {
        let ghost so_far = candidates_view(r@);
        let ghost file = all[i as int];
        let n = r.len();
        proof {
            assert(all.take(i + 1).drop_last() =~= all.take(i as int));
            assert(all.take(i + 1).last() == file);
            assert(so_far.len() == n);
        }
        let repeats = n > 0 && is_same_path(&r[n - 1].path, &found[i].path) && r[n - 1].syntax
            == found[i].syntax;
        assert(n > 0 ==> so_far.last() == (r@[n - 1].path@, r@[n - 1].syntax));
        assert(repeats == (n > 0 && same_file(so_far.last(), file)));
        if !repeats {
            r.push(ResolvedModule { path: found[i].path.clone(), syntax: found[i].syntax });
            assert(candidates_view(r@) =~= so_far.push(file));
        }
        i = i + 1;
    }
    assert(all.take(found.len() as int) =~= all);
    r
}

/// Picks the file that a module is read from among those that the roots have under its name.
pub fn resolve_module(name: &str, found: &Vec<ResolvedModule>) -> (r: Result<
    ResolvedModule,
    MagError,
>)
    ensures
        match r {
            Ok(m) => module_file(name@, candidates_view(found@)) == Ok::<
                (Seq<char>, SyntaxMode),
                SError,
            >((m.path@, m.syntax)),
            Err(e) => module_file(name@, candidates_view(found@)) == Err::<
                (Seq<char>, SyntaxMode),
                SError,
            >(e@),
        },
{
    proof {
        reveal(module_file);
    }
    module_stem(name)?;
    let different = drop_repeated(order_files(found));
    let ghost all = candidates_view(different@);
    assert(all.len() == different@.len());
    if different.len() == 1 {
        assert(all[0] == (different@[0].path@, different@[0].syntax));
        let path = different[0].path.clone();
        return Ok(ResolvedModule { path, syntax: different[0].syntax });
    }
    if different.len() == 0 {
        return Err(MagError::Eval(cat3("cannot find module ", name, " in search roots")));
    }
    let paths = paths_of(&different);
    Err(
        MagError::Eval(
            cat4(
                "module ",
                name,
                " is ambiguous across search roots or syntax suffixes: ",
                &join(&paths, ", "),
            ),
        ),
    )
}

/// Some files of one grammar.
pub open spec fn in_one_grammar(found: Seq<Seq<char>>) -> Seq<(Seq<char>, SyntaxMode)> {
    Seq::new(found.len(), |i: int| (found[i], SyntaxMode::Lisp))
}

/// The different ones of some paths in their order.
pub open spec fn paths_in_order(found: Seq<Seq<char>>) -> Seq<Seq<char>> {
    candidate_paths(unrepeated(files_by_path(in_one_grammar(found))))
}

proof fn placed_files_were_given(
    sorted: Seq<(Seq<char>, SyntaxMode)>,
    file: (Seq<char>, SyntaxMode),
    k: int,
)
    requires
        0 <= k < placed_file(sorted, file).len(),
    ensures
        placed_file(sorted, file)[k] == file || sorted.contains(placed_file(sorted, file)[k]),
    decreases sorted.len(),
{
    if sorted.len() > 0 && path_before(file.0, sorted.last().0) {
        let rest = placed_file(sorted.drop_last(), file);
        if k < rest.len() {
            placed_files_were_given(sorted.drop_last(), file, k);
            if rest[k] != file {
                let j = choose|j: int| 0 <= j < sorted.len() - 1 && sorted.drop_last()[j] == rest[k];
                assert(sorted[j] == rest[k]);
            }
        } else {
            assert(sorted[sorted.len() - 1] == placed_file(sorted, file)[k]);
        }
    } else if sorted.len() > 0 && k < sorted.len() {
        assert(sorted[k] == placed_file(sorted, file)[k]);
    }
}

proof fn ordered_files_were_found(found: Seq<(Seq<char>, SyntaxMode)>, k: int)
    requires
        0 <= k < files_by_path(found).len(),
    ensures
        found.contains(files_by_path(found)[k]),
    decreases found.len(),
{
    if found.len() > 0 {
        let rest = files_by_path(found.drop_last());
        placed_files_were_given(rest, found.last(), k);
        let x = files_by_path(found)[k];
        if x == found.last() {
            assert(found[found.len() - 1] == x);
        } else {
            let j = choose|j: int| 0 <= j < rest.len() && rest[j] == x;
            ordered_files_were_found(found.drop_last(), j);
            let i = choose|i: int| 0 <= i < found.len() - 1 && found.drop_last()[i] == x;
            assert(found[i] == x);
        }
    }
}

proof fn unrepeated_files_were_found(found: Seq<(Seq<char>, SyntaxMode)>, k: int)
    requires
        0 <= k < unrepeated(found).len(),
    ensures
        found.contains(unrepeated(found)[k]),
    decreases found.len(),
{
    if found.len() > 0 {
        let rest = unrepeated(found.drop_last());
        if k < rest.len() {
            unrepeated_files_were_found(found.drop_last(), k);
            let i = choose|i: int| 0 <= i < found.len() - 1 && found.drop_last()[i] == rest[k];
            assert(found[i] == rest[k]);
        } else {
            assert(found[found.len() - 1] == found.last());
        }
    }
}

/// What is among some paths in their order was among them before.
proof fn ordered_paths_were_found(found: Seq<Seq<char>>, k: int)
    requires
        0 <= k < paths_in_order(found).len(),
    ensures
        found.contains(paths_in_order(found)[k]),
{
    let tagged = in_one_grammar(found);
    let sorted = files_by_path(tagged);
    unrepeated_files_were_found(sorted, k);
    let x = unrepeated(sorted)[k];
    let j = choose|j: int| 0 <= j < sorted.len() && sorted[j] == x;
    ordered_files_were_found(tagged, j);
    let i = choose|i: int| 0 <= i < tagged.len() && tagged[i] == x;
    assert(found[i] == x.0);
}

fn order_paths(found: &Vec<String>) -> (r: Vec<String>)
    ensures
        strings(r@) == paths_in_order(strings(found@)),
{
    let mut files: Vec<ResolvedModule> = Vec::new();
    let mut i: usize = 0;
    while i < found.len()
        invariant
            i <= found.len(),
            files.len() == i,
            forall|j: int|
                0 <= j < i ==> (#[trigger] files@[j]).path@ == found@[j]@ && files@[j].syntax
                    == SyntaxMode::Lisp,
        decreases found.len() - i,
    {
        files.push(ResolvedModule { path: found[i].clone(), syntax: SyntaxMode::Lisp });
        i = i + 1;
    }
    assert(candidates_view(files@) =~= in_one_grammar(strings(found@)));
    let different = drop_repeated(order_files(&files));
    paths_of(&different)
}

fn paths_of(files: &Vec<ResolvedModule>) -> (r: Vec<String>)
    ensures
        strings(r@) == candidate_paths(candidates_view(files@)),
{
    let ghost all = candidates_view(files@);
    let mut paths: Vec<String> = Vec::new();
    let mut i: usize = 0;
    while i < files.len()
        invariant
            i <= files.len(),
            all == candidates_view(files@),
            paths.len() == i,
            forall|j: int| 0 <= j < i ==> (#[trigger] paths@[j])@ == all[j].0,
        decreases files.len() - i,
    {
        paths.push(files[i].path.clone());
        i = i + 1;
    }
    assert(strings(paths@) =~= candidate_paths(all));
    paths
}

/// The one of some paths that data is read from.
#[verifier::opaque]
pub open spec fn data_path(path: Seq<char>, found: Seq<Seq<char>>) -> Result<Seq<char>, SError> {
    let different = paths_in_order(found);
    if different.len() == 1 {
        Ok(different[0])
    } else if different.len() == 0 {
        eval_error("cannot find JSON data "@ + path + " in source or module roots"@)
    } else {
        eval_error(
            "JSON data "@ + path + " is ambiguous across source and module roots: "@ + joined(
                different,
                ", "@,
            ),
        )
    }
}

pub open spec fn text_result(r: Result<String, MagError>) -> Result<Seq<char>, SError> {
    match r {
        Ok(s) => Ok(s@),
        Err(e) => Err(e@),
    }
}

/// Picks the file that data is read from among those that the roots have under its path.
pub fn resolve_json(path: &str, found: &Vec<String>) -> (r: Result<String, MagError>)
    ensures
        text_result(r) == data_path(path@, strings(found@)),
        r is Ok ==> strings(found@).contains(r->Ok_0@),
{
    proof {
        reveal(data_path);
    }
    let different = order_paths(found);
    let ghost all = strings(different@);
    assert(all.len() == different@.len());
    if different.len() == 1 {
        let chosen = different[0].clone();
        proof {
            assert(all[0] == chosen@);
            ordered_paths_were_found(strings(found@), 0);
        }
        return Ok(chosen);
    }
    if different.len() == 0 {
        return Err(
            MagError::Eval(cat3("cannot find JSON data ", path, " in source or module roots")),
        );
    }
    Err(
        MagError::Eval(
            cat4(
                "JSON data ",
                path,
                " is ambiguous across source and module roots: ",
                &join(&different, ", "),
            ),
        ),
    )
}

/// A name in two parts: what stands before its last dot and what stands behind it.
pub open spec fn last_dot(name: Seq<char>, n: nat) -> Option<nat>
    decreases n,
{
    if n == 0 {
        None
    } else if name[n - 1] == '.' {
        Some((n - 1) as nat)
    } else {
        last_dot(name, (n - 1) as nat)
    }
}

pub(crate) fn find_last_dot(name: &str, len: usize) -> (r: Option<usize>)
    requires
        len == name@.len(),
    ensures
        match r {
            Some(i) => i < len && last_dot(name@, len as nat) == Some(i as nat),
            None => last_dot(name@, len as nat) is None,
        },
{
    let mut n: usize = len;
    while n > 0
        invariant
            n <= len,
            len == name@.len(),
            last_dot(name@, len as nat) == last_dot(name@, n as nat),
        decreases n,
    {
        n = n - 1;
        if name.get_char(n) == '.' {
            return Some(n);
        }
    }
    None
}

/// Whether a form declares a name.
pub open spec fn declares(form: SForm, export: Seq<char>) -> bool {
    match form {
        SForm::Type(d) => d.name == export && !dotted(d.name),
        SForm::Block(SItem::Let(name, _)) => name == export,
        _ => false,
    }
}

pub open spec fn some_declares(forms: Seq<SForm>, export: Seq<char>) -> bool {
    exists|i: int| 0 <= i < forms.len() && declares(#[trigger] forms[i], export)
}

/// The import that would resolve a name: none where the name is qualified by another module, or
/// where the module does not declare it.
#[verifier::opaque]
pub open spec fn suggestion(
    identity: Seq<char>,
    forms: Seq<SForm>,
    unresolved: Seq<char>,
) -> Option<Seq<char>> {
    match last_dot(unresolved, unresolved.len()) {
        Some(at) => if unresolved.take(at as int) == identity && some_declares(
            forms,
            unresolved.skip(at as int + 1),
        ) {
            Some("import "@ + identity + ".{}"@)
        } else {
            None
        },
        None => if some_declares(forms, unresolved) {
            Some("import "@ + identity + ".{"@ + unresolved + "}"@)
        } else {
            None
        },
    }
}

pub fn directly_declares(forms: &Vec<Form>, export: &str) -> (r: bool)
    ensures
        r == some_declares(crate::authored::forms_view(forms@), export@),
{
    let ghost all = crate::authored::forms_view(forms@);
    let mut i: usize = 0;
    while i < forms.len()
        invariant
            i <= forms.len(),
            all == crate::authored::forms_view(forms@),
            forall|j: int| 0 <= j < i ==> !declares(#[trigger] all[j], export@),
        decreases forms.len() - i,
    {
        assert(all[i as int] == forms@[i as int]@);
        let found = match &forms[i] {
            Form::Type(d) => same(&d.name, export) && !is_dotted(&d.name),
            Form::Block(BlockItem::Let { name, .. }) => same(name, export),
            _ => false,
        };
        if found {
            return true;
        }
        i = i + 1;
    }
    false
}

/// The import of a module that would resolve a name.
pub fn import_suggestion(identity: &str, forms: &Vec<Form>, unresolved: &str) -> (r: Option<
    String,
>)
    ensures
        match r {
            Some(s) => suggestion(
                identity@,
                crate::authored::forms_view(forms@),
                unresolved@,
            ) == Some(s@),
            None => suggestion(
                identity@,
                crate::authored::forms_view(forms@),
                unresolved@,
            ) is None,
        },
{
    proof {
        reveal(suggestion);
    }
    let n: usize = unresolved.unicode_len();
    match find_last_dot(unresolved, n) {
        Some(at) => {
            let module = unresolved.substring_char(0, at);
            let export = unresolved.substring_char(at + 1, n);
            assert(module@ =~= unresolved@.take(at as int));
            assert(export@ =~= unresolved@.skip(at + 1));
            if same(module, identity) && directly_declares(forms, export) {
                Some(cat3("import ", identity, ".{}"))
            } else {
                None
            }
        },
        None => {
            if directly_declares(forms, unresolved) {
                Some(cat5("import ", identity, ".{", unresolved, "}"))
            } else {
                None
            }
        },
    }
}

/// The name that the module of a file below a root is imported by, where it has one.
pub open spec fn identity_of(relative: Seq<char>) -> Option<Seq<char>> {
    match (syntax_of(relative), last_dot(relative, relative.len())) {
        (Ok(_), Some(at)) => {
            let name = replaced(relative.take(at as int), "/"@, "."@);
            if module_name(name) {
                Some(name)
            } else {
                None
            }
        },
        _ => None,
    }
}

/// The name that the module of a file below a root is imported by: its path without the suffix,
/// with dots between the parts. A file of another suffix, or in a path that is no name, has none.
pub fn module_identity(relative: &str) -> (r: Option<String>)
    ensures
        match r {
            Some(s) => identity_of(relative@) == Some(s@),
            None => identity_of(relative@) is None,
        },
{
    if syntax_for_path(relative).is_err() {
        return None;
    }
    let n: usize = relative.unicode_len();
    match find_last_dot(relative, n) {
        Some(at) => {
            let stem = relative.substring_char(0, at);
            assert(stem@ =~= relative@.take(at as int));
            let name = replace_text(stem, "/", ".");
            if is_module_name(&name) {
                Some(name)
            } else {
                None
            }
        },
        None => None,
    }
}

/// A module that was read: the name that it is imported by, and its forms.
pub struct ReadModule {
    pub identity: String,
    pub forms: Vec<Form>,
}

pub open spec fn modules_view(modules: Seq<ReadModule>) -> Seq<(Seq<char>, Seq<SForm>)> {
    Seq::new(
        modules.len(),
        |i: int| (modules[i].identity@, crate::authored::forms_view(modules[i].forms@)),
    )
}

/// What the first `n` of some modules suggest for a name.
pub open spec fn suggested(
    modules: Seq<(Seq<char>, Seq<SForm>)>,
    unresolved: Seq<char>,
    n: nat,
) -> Set<Seq<char>> {
    Set::new(
        |s: Seq<char>|
            exists|i: int|
                0 <= i < n && #[trigger] suggestion(modules[i].0, modules[i].1, unresolved) == Some(
                    s,
                ),
    )
}

/// The imports that would resolve a name, of all modules that were read: in their order, and each
/// once. No module is evaluated for it.
pub fn import_suggestions(modules: &Vec<ReadModule>, unresolved: &str) -> (r: Vec<String>)
    ensures
        strictly_sorted(strings(r@)),
        strings(r@).to_set() == suggested(
            modules_view(modules@),
            unresolved@,
            modules@.len(),
        ),
        strings(r@) == ordered(
            suggested(modules_view(modules@), unresolved@, modules@.len()),
        ),
{
    let ghost all = modules_view(modules@);
    let mut found: Vec<String> = Vec::new();
    let mut i: usize = 0;
    proof {
        assert(strings(found@).to_set() =~= suggested(all, unresolved@, 0));
    }
    while i < modules.len()
        invariant
            i <= modules.len(),
            all == modules_view(modules@),
            strings(found@).to_set() == suggested(all, unresolved@, i as nat),
        decreases modules.len() - i,
    {
        let ghost before = strings(found@);
        let ghost now = suggested(all, unresolved@, (i + 1) as nat);
        let ghost this = suggestion(all[i as int].0, all[i as int].1, unresolved@);
        assert forall|s: Seq<char>| #[trigger] now.contains(s) <==> (before.to_set().contains(s)
            || this == Some(s)) by {
            if this == Some(s) {
                assert(suggestion(all[i as int].0, all[i as int].1, unresolved@) == Some(s));
            }
            if suggested(all, unresolved@, i as nat).contains(s) {
                let k = choose|k: int|
                    0 <= k < i && #[trigger] suggestion(all[k].0, all[k].1, unresolved@) == Some(s);
                assert(suggestion(all[k].0, all[k].1, unresolved@) == Some(s));
            }
        }
        match import_suggestion(&modules[i].identity, &modules[i].forms, unresolved) {
            Some(s) => {
                found.push(s);
                assert(strings(found@) =~= before.push(s@));
            },
            None => {},
        }
        assert(strings(found@).to_set() =~= now);
        i = i + 1;
    }
    order_names(&found)
}

} // verus!
