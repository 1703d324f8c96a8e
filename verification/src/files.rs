//! What builtin functions read from files. The contents are handed in; what is not there is asked
//! for.

use vstd::prelude::*;

use crate::ast::{string_of, value_fields_view, values_view, SValue, Value};
use crate::codec::{json_to_value, plain_value};
use crate::env::{keyed, value_result};
use crate::error::{MagError, SError};
use crate::operations::{arity, counted, eval_error};
use crate::resolver::{data_path, escape_error, escapes, path_escapes, resolve_json};
use crate::templates::{replace_text, replaced};
use crate::text::{cat2, cat3, cat4, same, strings};
use crate::values::{value_string, value_text};
use crate::wire::{parse_json, parsed_json};
use crate::world::{SWanted, SWorld, Wanted, World};

verus! {

broadcast use vstd::seq_lib::group_seq_properties;

/// What became of reading a file.
#[derive(Debug)]
pub enum FileAnswer {
    Text(String),
    /// Why it could not be read.
    Failed(String),
    /// It lies outside of the workspace.
    Outside,
}

/// The model of a [`FileAnswer`].
#[verifier::ext_equal]
pub enum SFileAnswer {
    Text(Seq<char>),
    Failed(Seq<char>),
    Outside,
}

impl View for FileAnswer {
    type V = SFileAnswer;

    open spec fn view(&self) -> SFileAnswer {
        match self {
            FileAnswer::Text(t) => SFileAnswer::Text(t@),
            FileAnswer::Failed(m) => SFileAnswer::Failed(m@),
            FileAnswer::Outside => SFileAnswer::Outside,
        }
    }
}

pub open spec fn answers_view(items: Seq<(String, FileAnswer)>) -> Seq<(Seq<char>, SFileAnswer)> {
    Seq::new(items.len(), |i: int| (items[i].0@, items[i].1@))
}

pub open spec fn data_view(items: Seq<(String, Vec<(String, FileAnswer)>)>) -> Seq<
    (Seq<char>, Seq<(Seq<char>, SFileAnswer)>),
> {
    Seq::new(items.len(), |i: int| (items[i].0@, answers_view(items[i].1@)))
}

/// The files that were read: texts by the path that asked for them, and data by the path that
/// asked for it, with each file that a root has under that path.
#[derive(Debug)]
pub struct Files {
    pub texts: Vec<(String, FileAnswer)>,
    pub data: Vec<(String, Vec<(String, FileAnswer)>)>,
}

/// The model of [`Files`].
#[verifier::ext_equal]
pub struct SFiles {
    pub texts: Seq<(Seq<char>, SFileAnswer)>,
    pub data: Seq<(Seq<char>, Seq<(Seq<char>, SFileAnswer)>)>,
}

impl View for Files {
    type V = SFiles;

    open spec fn view(&self) -> SFiles {
        SFiles { texts: answers_view(self.texts@), data: data_view(self.data@) }
    }
}

fn find_answer<'a>(items: &'a Vec<(String, FileAnswer)>, path: &str) -> (r: Option<
    &'a FileAnswer,
>)
    ensures
        match r {
            Some(a) => keyed(answers_view(items@), path@, 0) == Some(a@),
            None => keyed(answers_view(items@), path@, 0) is None,
        },
{
    let ghost all = answers_view(items@);
    let mut i: usize = 0;
    while i < items.len()
        invariant
            i <= items.len(),
            all == answers_view(items@),
            keyed(all, path@, 0) == keyed(all, path@, i as nat),
        decreases items.len() - i,
    {
        assert(all[i as int] == (items@[i as int].0@, items@[i as int].1@));
        if same(&items[i].0, path) {
            return Some(&items[i].1);
        }
        i = i + 1;
    }
    None
}

fn find_data<'a>(items: &'a Vec<(String, Vec<(String, FileAnswer)>)>, path: &str) -> (r: Option<
    &'a Vec<(String, FileAnswer)>,
>)
    ensures
        match r {
            Some(a) => keyed(data_view(items@), path@, 0) == Some(answers_view(a@)),
            None => keyed(data_view(items@), path@, 0) is None,
        },
{
    let ghost all = data_view(items@);
    let mut i: usize = 0;
    while i < items.len()
        invariant
            i <= items.len(),
            all == data_view(items@),
            keyed(all, path@, 0) == keyed(all, path@, i as nat),
        decreases items.len() - i,
    {
        assert(all[i as int] == (items@[i as int].0@, answers_view(items@[i as int].1@)));
        if same(&items[i].0, path) {
            return Some(&items[i].1);
        }
        i = i + 1;
    }
    None
}

/// A text in which each `{{name}}` has been replaced by the text of the value of that name.
pub open spec fn filled_in(s: Seq<char>, fields: Seq<(Seq<char>, SValue)>) -> Seq<char>
    decreases fields.len(),
{
    if fields.len() == 0 {
        s
    } else {
        filled_in(
            replaced(s, "{{"@ + fields[0].0 + "}}"@, value_text(fields[0].1)),
            fields.drop_first(),
        )
    }
}

fn fill_in(given: String, fields: &Vec<(String, Value)>) -> (r: String)
    ensures
        r@ == filled_in(given@, value_fields_view(fields@)),
{
    let ghost all = value_fields_view(fields@);
    let ghost whole = filled_in(given@, all);
    let mut s = given;
    let mut i: usize = 0;
    proof {
        assert(all.len() == fields@.len());
        assert(all.skip(0) =~= all);
    }
    while i < fields.len()
        invariant
            i <= fields.len(),
            all == value_fields_view(fields@),
            all.len() == fields@.len(),
            whole == filled_in(s@, all.skip(i as int)),
        decreases fields.len() - i,
    {
        proof {
            assert(all.skip(i as int)[0] == (fields@[i as int].0@, fields@[i as int].1@));
            assert(all.skip(i as int).drop_first() =~= all.skip(i + 1));
        }
        let mark = cat3("{{", &fields[i].0, "}}");
        let text = value_string(&fields[i].1);
        s = replace_text(&s, &mark, &text);
        i = i + 1;
    }
    s
}

impl SWorld {
    pub open spec fn wanting(self, wanted: SWanted) -> SWorld {
        SWorld { wanted: Some(wanted), ..self }
    }
}

/// The text of a file as the answer gives it.
pub open spec fn answered(path: Seq<char>, answer: SFileAnswer) -> Result<Seq<char>, SError> {
    match answer {
        SFileAnswer::Text(t) => Ok(t),
        SFileAnswer::Failed(m) => eval_error("cannot read "@ + path + ": "@ + m),
        SFileAnswer::Outside => Err(escape_error(path)),
    }
}

fn take_answer(path: &str, answer: &FileAnswer) -> (r: Result<String, MagError>)
    ensures
        crate::resolver::text_result(r) == answered(path@, answer@),
{
    match answer {
        FileAnswer::Text(t) => Ok(t.clone()),
        FileAnswer::Failed(m) => Err(MagError::Eval(cat4("cannot read ", path, ": ", m))),
        FileAnswer::Outside => Err(MagError::Eval(cat2("path escapes workspace: ", path))),
    }
}

/// Reads a text and fills in what a record holds.
#[verifier::opaque]
pub open spec fn read_rule(files: SFiles, w: SWorld, args: Seq<SValue>) -> (
    SWorld,
    Result<SValue, SError>,
) {
    if args.len() == 0 || args.len() > 2 {
        (w, eval_error("read requires path and optional interpolation map"@))
    } else {
        match string_of(args[0]) {
            None => (w, eval_error("read path must be a string"@)),
            Some(path) => if escapes(path) {
                (w, Err(escape_error(path)))
            } else {
                match keyed(files.texts, path, 0) {
                    None => (
                        w.wanting(SWanted::Text(path)),
                        eval_error("file is not supplied: "@ + path),
                    ),
                    Some(answer) => match answered(path, answer) {
                        Err(e) => (w, Err(e)),
                        Ok(s) => (
                            w,
                            Ok(
                                SValue::Str(
                                    if args.len() == 2 {
                                        match args[1] {
                                            SValue::Record(fields) => filled_in(s, fields),
                                            _ => s,
                                        }
                                    } else {
                                        s
                                    },
                                ),
                            ),
                        ),
                    },
                }
            },
        }
    }
}

pub fn run_read(files: &Files, w: &mut World, args: &Vec<Value>) -> (r: Result<Value, MagError>)
    ensures
        (final(w)@, value_result(r)) == read_rule(files@, old(w)@, values_view(args@)),
{
    proof {
        reveal(read_rule);
    }
    let ghost all = values_view(args@);
    let ghost before = w@;
    assert(all.len() == args@.len());
    if args.len() == 0 || args.len() > 2 {
        return Err(MagError::Eval("read requires path and optional interpolation map".to_owned()));
    }
    assert(all[0] == args@[0]@);
    let path = match args[0].as_str() {
        None => {
            return Err(MagError::Eval("read path must be a string".to_owned()));
        },
        Some(p) => p,
    };
    if path_escapes(path) {
        return Err(MagError::Eval(cat2("path escapes workspace: ", path)));
    }
    match find_answer(&files.texts, path) {
        None => {
            w.wanted = Some(Wanted::Text(path.to_owned()));
            assert(w@ =~= before.wanting(SWanted::Text(path@)));
            Err(MagError::Eval(cat2("file is not supplied: ", path)))
        },
        Some(answer) => {
            let s = take_answer(path, answer)?;
            if args.len() == 2 {
                assert(all[1] == args@[1]@);
                match &args[1] {
                    Value::Record(fields) => {
                        return Ok(Value::Str(fill_in(s, fields)));
                    },
                    _ => {},
                }
            }
            Ok(Value::Str(s))
        },
    }
}

pub open spec fn answer_paths(items: Seq<(Seq<char>, SFileAnswer)>) -> Seq<Seq<char>> {
    Seq::new(items.len(), |i: int| items[i].0)
}

fn list_paths(items: &Vec<(String, FileAnswer)>) -> (r: Vec<String>)
    ensures
        strings(r@) == answer_paths(answers_view(items@)),
{
    let ghost all = answers_view(items@);
    let mut r: Vec<String> = Vec::new();
    let mut i: usize = 0;
    while i < items.len()
        invariant
            i <= items.len(),
            all == answers_view(items@),
            r.len() == i,
            forall|j: int| 0 <= j < i ==> (#[trigger] r@[j])@ == all[j].0,
        decreases items.len() - i,
    {
        r.push(items[i].0.clone());
        i = i + 1;
    }
    assert(strings(r@) =~= answer_paths(all));
    r
}

/// The value that data stands for.
pub open spec fn data_value(path: Seq<char>, found: Seq<(Seq<char>, SFileAnswer)>) -> Result<
    SValue,
    SError,
> {
    match data_path(path, answer_paths(found)) {
        Err(e) => Err(e),
        Ok(chosen) => match keyed(found, chosen, 0) {
            None => eval_error("file is not supplied: "@ + path),
            Some(answer) => match answered(path, answer) {
                Err(e) => Err(e),
                Ok(text) => match parsed_json(text) {
                    Err(m) => eval_error("cannot parse JSON "@ + path + ": "@ + m),
                    Ok(j) => Ok(plain_value(j)),
                },
            },
        },
    }
}

fn make_data_value(path: &str, found: &Vec<(String, FileAnswer)>) -> (r: Result<Value, MagError>)
    ensures
        value_result(r) == data_value(path@, answers_view(found@)),
{
    let paths = list_paths(found);
    let chosen = resolve_json(path, &paths)?;
    match find_answer(found, &chosen) {
        None => Err(MagError::Eval(cat2("file is not supplied: ", path))),
        Some(answer) => {
            let text = take_answer(path, answer)?;
            match parse_json(&text) {
                Err(m) => Err(MagError::Eval(cat4("cannot parse JSON ", path, ": ", &m))),
                Ok(j) => Ok(json_to_value(&j)),
            }
        },
    }
}

/// Reads data.
#[verifier::opaque]
pub open spec fn data_rule(files: SFiles, w: SWorld, args: Seq<SValue>) -> (
    SWorld,
    Result<SValue, SError>,
) {
    match counted(args, 1) {
        Err(e) => (w, Err(e)),
        Ok(_) => match string_of(args[0]) {
            None => (w, eval_error("read-json path must be a string"@)),
            Some(path) => if escapes(path) {
                (w, data_value(path, Seq::empty()))
            } else {
                match keyed(files.data, path, 0) {
                    None => (
                        w.wanting(SWanted::Data(path)),
                        eval_error("file is not supplied: "@ + path),
                    ),
                    Some(found) => (w, data_value(path, found)),
                }
            },
        },
    }
}

pub fn run_read_json(files: &Files, w: &mut World, args: &Vec<Value>) -> (r: Result<
    Value,
    MagError,
>)
    ensures
        (final(w)@, value_result(r)) == data_rule(files@, old(w)@, values_view(args@)),
{
    proof {
        reveal(data_rule);
    }
    let ghost before = w@;
    arity(args, 1)?;
    let path = match args[0].as_str() {
        None => {
            return Err(MagError::Eval("read-json path must be a string".to_owned()));
        },
        Some(p) => p,
    };
    if path_escapes(path) {
        let none: Vec<(String, FileAnswer)> = Vec::new();
        assert(answers_view(none@) =~= Seq::empty());
        return make_data_value(path, &none);
    }
    match find_data(&files.data, path) {
        None => {
            w.wanted = Some(Wanted::Data(path.to_owned()));
            assert(w@ =~= before.wanting(SWanted::Data(path@)));
            Err(MagError::Eval(cat2("file is not supplied: ", path)))
        },
        Some(found) => make_data_value(path, found),
    }
}

} // verus!
