//! What the command line tool reports, and the inputs that it reads for a host.

use vstd::prelude::*;
use vstd::string::StrSliceExecFns;

use crate::env::keyed;
use crate::error::{error_text, opt_text, MagError, SError};
use crate::json::{
    find_member, member_index, members_numeric, members_view, numeric, place_member, placed_member,
    placed_stays_numeric, Json, SJson,
};
use crate::project_config::{join_path, joined_path};
use crate::text::{cat2, cat3, cat4, quoted, quoted_text, same, strings};
use crate::wire::{parse_json, parsed_json};

verus! {

broadcast use vstd::seq_lib::group_seq_properties;

/// A report: what went wrong, at which stage, and with which path.
#[derive(Debug)]
pub struct Diagnostic {
    pub code: String,
    pub stage: String,
    pub message: String,
    pub path: Option<String>,
}

/// The model of a [`Diagnostic`].
#[verifier::ext_equal]
pub struct SDiagnostic {
    pub code: Seq<char>,
    pub stage: Seq<char>,
    pub message: Seq<char>,
    pub path: Option<Seq<char>>,
}

impl View for Diagnostic {
    type V = SDiagnostic;

    open spec fn view(&self) -> SDiagnostic {
        SDiagnostic {
            code: self.code@,
            stage: self.stage@,
            message: self.message@,
            path: opt_text(self.path),
        }
    }
}

/// The report of an error.
pub open spec fn reported(e: SError) -> SDiagnostic {
    match e {
        SError::Syntax(code, stage, message, path, _) => SDiagnostic { code, stage, message, path },
        SError::Lex(_) => report("syntax_lex"@, "lex"@, e),
        SError::Parse(_) => report("syntax_parse"@, "parse"@, e),
        SError::Type(_) => report("type_error"@, "typecheck"@, e),
        SError::Unresolved(_) => report("type_error"@, "typecheck"@, e),
        SError::Arity(_, _) => report("type_error"@, "typecheck"@, e),
        SError::Budget(_) => report("evaluation_budget"@, "evaluate"@, e),
        SError::Eval(_) => report("evaluation_error"@, "evaluate"@, e),
    }
}

pub open spec fn report(code: Seq<char>, stage: Seq<char>, e: SError) -> SDiagnostic {
    SDiagnostic { code, stage, message: error_text(e), path: None }
}

pub fn mag_diagnostic(e: &MagError) -> (r: Diagnostic)
    ensures
        r@ == reported(e@),
{
    match e {
        MagError::Syntax(d) => Diagnostic {
            code: d.code.clone(),
            stage: d.stage.clone(),
            message: d.message.clone(),
            path: match &d.path {
                Some(p) => Some(p.clone()),
                None => None,
            },
        },
        _ => {
            let (code, stage) = match e {
                MagError::Lex(_) => ("syntax_lex", "lex"),
                MagError::Parse(_) => ("syntax_parse", "parse"),
                MagError::Budget(_) => ("evaluation_budget", "evaluate"),
                MagError::Eval(_) => ("evaluation_error", "evaluate"),
                _ => ("type_error", "typecheck"),
            };
            Diagnostic {
                code: code.to_owned(),
                stage: stage.to_owned(),
                message: e.text(),
                path: None,
            }
        },
    }
}

pub open spec fn input_report(code: Seq<char>, message: Seq<char>) -> SDiagnostic {
    SDiagnostic { code, stage: "input"@, message, path: None }
}

pub open spec fn path_report(code: Seq<char>, path: Seq<char>, message: Seq<char>) -> SDiagnostic {
    SDiagnostic { code, stage: "input"@, message, path: Some(path) }
}

pub fn path_diagnostic(code: &str, path: &str, message: String) -> (r: Diagnostic)
    ensures
        r@ == path_report(code@, path@, message@),
{
    Diagnostic {
        code: code.to_owned(),
        stage: "input".to_owned(),
        message,
        path: Some(path.to_owned()),
    }
}

fn input_diagnostic(code: &str, message: String) -> (r: Diagnostic)
    ensures
        r@ == input_report(code@, message@),
{
    Diagnostic { code: code.to_owned(), stage: "input".to_owned(), message, path: None }
}

/// Where the first equals sign stands, from `i` on.
pub open spec fn equals_sign(s: Seq<char>, i: nat) -> Option<nat>
    decreases s.len() - i,
{
    if i >= s.len() {
        None
    } else if s[i as int] == '=' {
        Some(i)
    } else {
        equals_sign(s, i + 1)
    }
}

/// The name and the path of a host input that is written `NAME=PATH`.
pub open spec fn input_parts(spec: Seq<char>) -> Result<(Seq<char>, Seq<char>), SDiagnostic> {
    match equals_sign(spec, 0) {
        None => Err(
            input_report("input_argument"@, "host input must be NAME=PATH, got "@ + spec),
        ),
        Some(at) => if at == 0 || at + 1 == spec.len() {
            Err(
                input_report(
                    "input_argument"@,
                    "host input must have a non-empty name and path, got "@ + spec,
                ),
            )
        } else {
            Ok((spec.take(at as int), spec.skip(at as int + 1)))
        },
    }
}

pub fn parse_input(spec: &str) -> (r: Result<(String, String), Diagnostic>)
    ensures
        match r {
            Ok((n, p)) => input_parts(spec@) == Ok::<(Seq<char>, Seq<char>), SDiagnostic>(
                (n@, p@),
            ),
            Err(d) => input_parts(spec@) == Err::<(Seq<char>, Seq<char>), SDiagnostic>(d@),
        },
{
    let n: usize = spec.unicode_len();
    let mut i: usize = 0;
    while i < n
        invariant
            i <= n,
            n == spec@.len(),
            equals_sign(spec@, 0) == equals_sign(spec@, i as nat),
        decreases n - i,
    {
        if spec.get_char(i) == '=' {
            if i == 0 || i + 1 == n {
                return Err(
                    input_diagnostic(
                        "input_argument",
                        cat2("host input must have a non-empty name and path, got ", spec),
                    ),
                );
            }
            let name = spec.substring_char(0, i).to_owned();
            let path = spec.substring_char(i + 1, n).to_owned();
            assert(name@ =~= spec@.take(i as int));
            assert(path@ =~= spec@.skip(i + 1));
            return Ok((name, path));
        }
        i = i + 1;
    }
    Err(input_diagnostic("input_argument", cat2("host input must be NAME=PATH, got ", spec)))
}

/// What became of reading a file: its text, or why it could not be read.
pub open spec fn contents_view(items: Seq<(String, Result<String, String>)>) -> Seq<
    (Seq<char>, Result<Seq<char>, Seq<char>>),
> {
    Seq::new(
        items.len(),
        |i: int|
            (
                items[i].0@,
                match items[i].1 {
                    Ok(t) => Ok(t@),
                    Err(m) => Err(m@),
                },
            ),
    )
}

pub open spec fn rooted(root: Option<Seq<char>>, path: Seq<char>) -> Seq<char> {
    match root {
        Some(r) => joined_path(r, path),
        None => path,
    }
}

/// The value of one input.
pub open spec fn input_value(
    path: Seq<char>,
    contents: Seq<(Seq<char>, Result<Seq<char>, Seq<char>>)>,
) -> Result<SJson, SDiagnostic> {
    match keyed(contents, path, 0) {
        None => Err(
            path_report(
                "input_read"@,
                path,
                "cannot read host input "@ + path + ": file was not read"@,
            ),
        ),
        Some(Err(m)) => Err(
            path_report("input_read"@, path, "cannot read host input "@ + path + ": "@ + m),
        ),
        Some(Ok(text)) => match parsed_json(text) {
            Err(m) => Err(
                path_report(
                    "input_json"@,
                    path,
                    "invalid host input JSON "@ + path + ": "@ + m,
                ),
            ),
            Ok(j) => Ok(j),
        },
    }
}

/// The inputs that specifications from `i` on name, among those that were found before.
pub open spec fn inputs_loaded(
    specs: Seq<Seq<char>>,
    root: Option<Seq<char>>,
    contents: Seq<(Seq<char>, Result<Seq<char>, Seq<char>>)>,
    i: nat,
    done: Seq<(Seq<char>, SJson)>,
) -> Result<SJson, SDiagnostic>
    decreases specs.len() - i,
{
    if i >= specs.len() {
        Ok(SJson::Object(done))
    } else {
        match input_parts(specs[i as int]) {
            Err(d) => Err(d),
            Ok((name, path)) => if member_index(done, name, 0) < done.len() {
                Err(
                    input_report(
                        "input_duplicate"@,
                        "host input "@ + quoted_text(name) + " was supplied more than once"@,
                    ),
                )
            } else {
                match input_value(rooted(root, path), contents) {
                    Err(d) => Err(d),
                    Ok(j) => inputs_loaded(
                        specs,
                        root,
                        contents,
                        i + 1,
                        placed_member(done, name, j),
                    ),
                }
            },
        }
    }
}

fn read_input(path: &str, contents: &Vec<(String, Result<String, String>)>) -> (r: Result<
    Json,
    Diagnostic,
>)
    ensures
        match r {
            Ok(j) => input_value(path@, contents_view(contents@)) == Ok::<SJson, SDiagnostic>(j@),
            Err(d) => input_value(path@, contents_view(contents@)) == Err::<SJson, SDiagnostic>(
                d@,
            ),
        },
        r matches Ok(j) ==> numeric(j@),
{
    let ghost all = contents_view(contents@);
    let mut i: usize = 0;
    while i < contents.len()
        invariant
            i <= contents.len(),
            all == contents_view(contents@),
            keyed(all, path@, 0) == keyed(all, path@, i as nat),
        decreases contents.len() - i,
    {
        if same(&contents[i].0, path) {
            return match &contents[i].1 {
                Err(m) => Err(
                    path_diagnostic(
                        "input_read",
                        path,
                        cat4("cannot read host input ", path, ": ", m),
                    ),
                ),
                Ok(text) => match parse_json(text) {
                    Err(m) => Err(
                        path_diagnostic(
                            "input_json",
                            path,
                            cat4("invalid host input JSON ", path, ": ", &m),
                        ),
                    ),
                    Ok(j) => Ok(j),
                },
            };
        }
        i = i + 1;
    }
    Err(
        path_diagnostic(
            "input_read",
            path,
            cat3("cannot read host input ", path, ": file was not read"),
        ),
    )
}

pub open spec fn opt_str(s: Option<&str>) -> Option<Seq<char>> {
    match s {
        Some(s) => Some(s@),
        None => None,
    }
}

/// The path of an input, taken from a root if there is one.
pub fn input_path(root: Option<&str>, path: &str) -> (r: String)
    ensures
        r@ == rooted(opt_str(root), path@),
{
    match root {
        Some(r) => join_path(r, path),
        None => path.to_owned(),
    }
}

/// The host inputs, given the contents of the files that they name.
pub fn load_inputs(
    specs: &Vec<String>,
    root: Option<&str>,
    contents: &Vec<(String, Result<String, String>)>,
) -> (r: Result<Json, Diagnostic>)
    ensures
        match r {
            Ok(j) => inputs_loaded(
                strings(specs@),
                opt_str(root),
                contents_view(contents@),
                0,
                Seq::empty(),
            ) == Ok::<SJson, SDiagnostic>(j@),
            Err(d) => inputs_loaded(
                strings(specs@),
                opt_str(root),
                contents_view(contents@),
                0,
                Seq::empty(),
            ) == Err::<SJson, SDiagnostic>(d@),
        },
        r matches Ok(j) ==> numeric(j@),
{
    let ghost all = strings(specs@);
    let ghost files = contents_view(contents@);
    let ghost base = opt_str(root);
    let ghost whole = inputs_loaded(all, base, files, 0, Seq::empty());
    let mut done: Vec<(String, Json)> = Vec::new();
    let mut i: usize = 0;
    assert(members_view(done@) =~= Seq::empty());
    while i < specs.len()
        invariant
            i <= specs.len(),
            all == strings(specs@),
            files == contents_view(contents@),
            base == opt_str(root),
            whole == inputs_loaded(all, base, files, 0, Seq::empty()),
            whole == inputs_loaded(all, base, files, i as nat, members_view(done@)),
            members_numeric(members_view(done@)),
        decreases specs.len() - i,
    {
        assert(all[i as int] == specs@[i as int]@);
        assert(members_view(done@).len() == done@.len());
        let (name, path) = parse_input(&specs[i])?;
        if find_member(&done, &name) < done.len() {
            return Err(
                input_diagnostic(
                    "input_duplicate",
                    cat3("host input ", &quoted(&name), " was supplied more than once"),
                ),
            );
        }
        let full = input_path(root, &path);
        let j = read_input(&full, contents)?;
        proof {
            placed_stays_numeric(members_view(done@), name@, j@);
        }
        place_member(&mut done, name, j);
        i = i + 1;
    }
    let r = Json::Object(done);
    assert(r@ == SJson::Object(members_view(done@)));
    Ok(r)
}

} // verus!
