//! Reading the brackets, strings and atoms of a source.

use vstd::prelude::*;

use crate::ast::{Float, SFloat};
use crate::error::{MagError, SError, SyntaxDiagnostic};
use crate::json::{Json, JsonNumber, SJson, SNumber};
use crate::surface::{pairs_view, surfaces_view, Expr, SSurface};
use crate::text::{cat2, chars_of, same, text_of};
use crate::wire::{parse_json, parsed_json};

verus! {

broadcast use vstd::seq_lib::group_seq_properties;

pub open spec fn lex_error<T>(message: Seq<char>) -> Result<T, SError> {
    Err(SError::Syntax("syntax_lex"@, "lex"@, message, None, None))
}

pub open spec fn parse_error<T>(message: Seq<char>) -> Result<T, SError> {
    Err(SError::Syntax("syntax_parse"@, "parse"@, message, None, None))
}

fn make_error(code: &str, stage: &str, message: String) -> (r: MagError)
    ensures
        r@ == SError::Syntax(code@, stage@, message@, None, None),
{
    MagError::Syntax(
        Box::new(
            SyntaxDiagnostic {
                code: code.to_owned(),
                stage: stage.to_owned(),
                message,
                path: None,
                syntax: None,
            },
        ),
    )
}

pub open spec fn blank(c: char) -> bool {
    c == ' ' || c == '\t' || c == '\n' || c == '\r'
}

pub open spec fn bracket(c: char) -> bool {
    c == '(' || c == ')' || c == '[' || c == ']' || c == '{' || c == '}'
}

/// Whether a character ends an atom.
pub open spec fn delimiter(c: char) -> bool {
    blank(c) || bracket(c) || c == '"' || c == ';'
}

/// Whether a character may stand in a symbol.
pub open spec fn symbol_char(c: char) -> bool {
    ('a' <= c && c <= 'z') || ('A' <= c && c <= 'Z') || ('0' <= c && c <= '9') || c == '_' || c
        == '-' || c == '+' || c == '*' || c == '/' || c == '=' || c == '<' || c == '>' || c == '!'
        || c == '?' || c == '.' || c == '|' || c == '&'
}

fn is_blank(c: char) -> (r: bool)
    ensures
        r == blank(c),
{
    c == ' ' || c == '\t' || c == '\n' || c == '\r'
}

fn is_delimiter(c: char) -> (r: bool)
    ensures
        r == delimiter(c),
{
    is_blank(c) || c == '(' || c == ')' || c == '[' || c == ']' || c == '{' || c == '}' || c == '"'
        || c == ';'
}

fn is_symbol_char(c: char) -> (r: bool)
    ensures
        r == symbol_char(c),
{
    ('a' <= c && c <= 'z') || ('A' <= c && c <= 'Z') || ('0' <= c && c <= '9') || c == '_' || c
        == '-' || c == '+' || c == '*' || c == '/' || c == '=' || c == '<' || c == '>' || c == '!'
        || c == '?' || c == '.' || c == '|' || c == '&'
}

/// Where something stands, from `i` on, that is neither blank nor in a comment; `comment` says
/// whether `i` stands in one. A comment starts with `;` and ends with its line.
pub open spec fn skipped(s: Seq<char>, i: nat, comment: bool) -> nat
    decreases s.len() - i,
{
    if i >= s.len() {
        i
    } else if comment {
        skipped(s, i + 1, s[i as int] != '\n')
    } else if blank(s[i as int]) {
        skipped(s, i + 1, false)
    } else if s[i as int] == ';' {
        skipped(s, i + 1, true)
    } else {
        i
    }
}

fn skip(s: &Vec<char>, start: usize) -> (r: usize)
    requires
        start <= s@.len(),
    ensures
        start <= r <= s@.len(),
        r == skipped(s@, start as nat, false),
{
    let mut comment = false;
    let mut i: usize = start;
    while i < s.len()
        invariant
            start <= i <= s@.len(),
            skipped(s@, start as nat, false) == skipped(s@, i as nat, comment),
        decreases s@.len() - i,
    {
        let c = s[i];
        if comment {
            comment = c != '\n';
        } else if is_blank(c) {
        } else if c == ';' {
            comment = true;
        } else {
            return i;
        }
        i = i + 1;
    }
    i
}

/// Where an atom ends that goes on at `i`.
pub open spec fn atom_end(s: Seq<char>, i: nat) -> nat
    decreases s.len() - i,
{
    if i >= s.len() || delimiter(s[i as int]) {
        i
    } else {
        atom_end(s, i + 1)
    }
}

fn find_atom_end(s: &Vec<char>, start: usize) -> (r: usize)
    requires
        start <= s@.len(),
    ensures
        start <= r <= s@.len(),
        r == atom_end(s@, start as nat),
        start < s@.len() && !delimiter(s@[start as int]) ==> start < r,
{
    let mut i: usize = start;
    while i < s.len() && !is_delimiter(s[i])
        invariant
            start <= i <= s@.len(),
            atom_end(s@, start as nat) == atom_end(s@, i as nat),
        decreases s@.len() - i,
    {
        i = i + 1;
    }
    i
}

/// What stands for a character behind a backslash.
pub open spec fn escaped(c: char) -> Option<char> {
    if c == 'n' {
        Some('\n')
    } else if c == 't' {
        Some('\t')
    } else if c == 'r' {
        Some('\r')
    } else if c == '"' {
        Some('"')
    } else if c == '\\' {
        Some('\\')
    } else {
        None
    }
}

fn unescape(c: char) -> (r: Option<char>)
    ensures
        r == escaped(c),
{
    if c == 'n' {
        Some('\n')
    } else if c == 't' {
        Some('\t')
    } else if c == 'r' {
        Some('\r')
    } else if c == '"' {
        Some('"')
    } else if c == '\\' {
        Some('\\')
    } else {
        None
    }
}

/// The rest of a string that goes on at `i`, and where it ends.
pub open spec fn string_rest(s: Seq<char>, i: nat, done: Seq<char>) -> Result<
    (Seq<char>, nat),
    SError,
>
    decreases s.len() - i,
{
    if i >= s.len() {
        lex_error("unterminated string"@)
    } else if s[i as int] == '"' {
        Ok((done, i + 1))
    } else if s[i as int] == '\\' {
        if i + 1 >= s.len() {
            lex_error("unterminated string"@)
        } else {
            match escaped(s[i as int + 1]) {
                Some(c) => string_rest(s, i + 2, done.push(c)),
                None => lex_error("unknown escape in string"@),
            }
        }
    } else {
        string_rest(s, i + 1, done.push(s[i as int]))
    }
}

fn read_string(s: &Vec<char>, start: usize) -> (r: Result<(String, usize), MagError>)
    requires
        start <= s@.len(),
    ensures
        match r {
            Ok((t, j)) => start < j <= s@.len() && string_rest(s@, start as nat, Seq::empty())
                == Ok::<(Seq<char>, nat), SError>((t@, j as nat)),
            Err(e) => string_rest(s@, start as nat, Seq::empty()) == Err::<
                (Seq<char>, nat),
                SError,
            >(e@),
        },
{
    let mut done = String::new();
    let mut i: usize = start;
    assert(done@ =~= Seq::empty());
    while i < s.len()
        invariant
            start <= i <= s@.len(),
            string_rest(s@, start as nat, Seq::empty()) == string_rest(s@, i as nat, done@),
        decreases s@.len() - i,
    {
        let c = s[i];
        if c == '"' {
            return Ok((done, i + 1));
        }
        if c == '\\' {
            if i + 1 >= s.len() {
                return Err(make_error("syntax_lex", "lex", "unterminated string".to_owned()));
            }
            match unescape(s[i + 1]) {
                Some(x) => {
                    done.push(x);
                },
                None => {
                    return Err(
                        make_error("syntax_lex", "lex", "unknown escape in string".to_owned()),
                    );
                },
            }
            i = i + 2;
        } else {
            done.push(c);
            i = i + 1;
        }
    }
    Err(make_error("syntax_lex", "lex", "unterminated string".to_owned()))
}

pub open spec fn digit_char(c: char) -> bool {
    '0' <= c && c <= '9'
}

/// Whether an atom is a number: a digit, or a minus sign and a digit, stands at its start.
pub open spec fn numeric(text: Seq<char>) -> bool {
    text.len() > 0 && (digit_char(text[0]) || (text.len() > 1 && text[0] == '-' && digit_char(
        text[1],
    )))
}

/// The number that a text is.
pub open spec fn number(text: Seq<char>) -> Result<SSurface, SError> {
    match parsed_json(text) {
        Ok(SJson::Number(SNumber::PosInt(n))) => if n <= i64::MAX {
            Ok(SSurface::Int(n as i64))
        } else {
            lex_error("integer is out of range: "@ + text)
        },
        Ok(SJson::Number(SNumber::NegInt(n))) => Ok(SSurface::Int(n)),
        Ok(SJson::Number(SNumber::Float(f))) => Ok(SSurface::Float(f)),
        _ => lex_error("invalid number: "@ + text),
    }
}

pub open spec fn symbol_text(text: Seq<char>) -> bool {
    forall|i: int| 0 <= i < text.len() ==> symbol_char(#[trigger] text[i])
}

/// What an atom is.
pub open spec fn atom(text: Seq<char>) -> Result<SSurface, SError> {
    if text == "true"@ {
        Ok(SSurface::Bool(true))
    } else if text == "false"@ {
        Ok(SSurface::Bool(false))
    } else if text == "nil"@ {
        Ok(SSurface::Nil)
    } else if numeric(text) {
        number(text)
    } else if text.len() > 1 && text[0] == ':' && symbol_text(text.skip(1)) {
        Ok(SSurface::Keyword(text.skip(1)))
    } else if symbol_text(text) {
        Ok(SSurface::Symbol(text))
    } else {
        lex_error("unexpected character in "@ + text)
    }
}

pub open spec fn expr_result(r: Result<Expr, MagError>) -> Result<SSurface, SError> {
    match r {
        Ok(e) => Ok(e@),
        Err(e) => Err(e@),
    }
}

fn is_symbol_from(s: &Vec<char>, from: usize, to: usize) -> (r: bool)
    requires
        from <= to <= s@.len(),
    ensures
        r == symbol_text(s@.subrange(from as int, to as int)),
{
    let ghost text = s@.subrange(from as int, to as int);
    let mut i: usize = from;
    while i < to
        invariant
            from <= i <= to <= s@.len(),
            text == s@.subrange(from as int, to as int),
            forall|j: int| 0 <= j < i - from ==> symbol_char(#[trigger] text[j]),
        decreases to - i,
    {
        assert(text[i - from] == s@[i as int]);
        if !is_symbol_char(s[i]) {
            return false;
        }
        i = i + 1;
    }
    true
}

fn read_atom(s: &Vec<char>, from: usize, to: usize) -> (r: Result<Expr, MagError>)
    requires
        from <= to <= s@.len(),
    ensures
        expr_result(r) == atom(s@.subrange(from as int, to as int)),
{
    let ghost shown = s@.subrange(from as int, to as int);
    let text = text_of(s, from, to);
    if same(&text, "true") {
        return Ok(Expr::Bool(true));
    }
    if same(&text, "false") {
        return Ok(Expr::Bool(false));
    }
    if same(&text, "nil") {
        return Ok(Expr::Nil);
    }
    let n: usize = to - from;
    let signed = n > 1 && s[from] == '-' && '0' <= s[from + 1] && s[from + 1] <= '9';
    let plain = n > 0 && '0' <= s[from] && s[from] <= '9';
    if signed || plain {
        return match parse_json(&text) {
            Ok(Json::Number(JsonNumber::PosInt(k))) => {
                if k <= 9223372036854775807 {
                    Ok(Expr::Int(k as i64))
                } else {
                    Err(
                        make_error(
                            "syntax_lex",
                            "lex",
                            cat2("integer is out of range: ", &text),
                        ),
                    )
                }
            },
            Ok(Json::Number(JsonNumber::NegInt(k))) => Ok(Expr::Int(k)),
            Ok(Json::Number(JsonNumber::Float(f))) => Ok(Expr::Float(f)),
            _ => Err(make_error("syntax_lex", "lex", cat2("invalid number: ", &text))),
        };
    }
    if n > 1 && s[from] == ':' {
        assert(s@.subrange(from + 1, to as int) =~= shown.skip(1));
        if is_symbol_from(s, from + 1, to) {
            return Ok(Expr::Keyword(text_of(s, from + 1, to)));
        }
    }
    if is_symbol_from(s, from, to) {
        return Ok(Expr::Symbol(text));
    }
    Err(make_error("syntax_lex", "lex", cat2("unexpected character in ", &text)))
}

/// Items two by two.
pub open spec fn paired(items: Seq<SSurface>) -> Seq<(SSurface, SSurface)> {
    Seq::new((items.len() / 2) as nat, |i: int| (items[2 * i], items[2 * i + 1]))
}

pub type SReadOne = Result<(SSurface, nat), SError>;

pub type SReadMany = Result<(Seq<SSurface>, nat), SError>;

/// The expression that starts at `i`, and where it ends.
pub open spec fn read_at(s: Seq<char>, i: nat) -> SReadOne
    decreases s.len() - i, 0nat,
{
    if i >= s.len() {
        parse_error("unexpected end of source"@)
    } else if s[i as int] == '(' {
        match read_until(s, i + 1, ')', Seq::empty()) {
            Ok((items, j)) => Ok((SSurface::List(items), j)),
            Err(e) => Err(e),
        }
    } else if s[i as int] == '[' {
        match read_until(s, i + 1, ']', Seq::empty()) {
            Ok((items, j)) => Ok((SSurface::Vector(items), j)),
            Err(e) => Err(e),
        }
    } else if s[i as int] == '{' {
        match read_until(s, i + 1, '}', Seq::empty()) {
            Ok((items, j)) => if items.len() % 2 == 0 {
                Ok((SSurface::Braces(paired(items)), j))
            } else {
                parse_error("a map needs a value for each key"@)
            },
            Err(e) => Err(e),
        }
    } else if bracket(s[i as int]) {
        parse_error("unexpected closing bracket"@)
    } else if s[i as int] == '"' {
        match string_rest(s, i + 1, Seq::empty()) {
            Ok((t, j)) => Ok((SSurface::Str(t), j)),
            Err(e) => Err(e),
        }
    } else {
        let end = atom_end(s, i);
        match atom(s.subrange(i as int, end as int)) {
            Ok(e) => Ok((e, end)),
            Err(e) => Err(e),
        }
    }
}

/// The expressions from `i` on up to a closing bracket, behind those that were read before.
pub open spec fn read_until(s: Seq<char>, i: nat, close: char, done: Seq<SSurface>) -> SReadMany
    decreases s.len() - i, 1nat,
{
    let k = skipped(s, i, false);
    if k >= s.len() {
        parse_error("unclosed bracket"@)
    } else if s[k as int] == close {
        Ok((done, k + 1))
    } else if k < i {
        arbitrary()
    } else {
        match read_at(s, k) {
            Err(e) => Err(e),
            Ok((e, j)) => if k < j && j <= s.len() {
                read_until(s, j, close, done.push(e))
            } else {
                arbitrary()
            },
        }
    }
}

/// The expressions of a source from `i` on, behind those that were read before.
pub open spec fn read_rest(s: Seq<char>, i: nat, done: Seq<SSurface>) -> Result<
    Seq<SSurface>,
    SError,
>
    decreases s.len() - i,
{
    let k = skipped(s, i, false);
    if k >= s.len() {
        Ok(done)
    } else if k < i {
        arbitrary()
    } else {
        match read_at(s, k) {
            Err(e) => Err(e),
            Ok((e, j)) => if k < j && j <= s.len() {
                read_rest(s, j, done.push(e))
            } else {
                arbitrary()
            },
        }
    }
}

/// The expressions of a source.
pub open spec fn read_source(s: Seq<char>) -> Result<Seq<SSurface>, SError> {
    read_rest(s, 0, Seq::empty())
}

fn read_expr(s: &Vec<char>, i: usize) -> (r: Result<(Expr, usize), MagError>)
    requires
        i < s@.len(),
        !blank(s@[i as int]),
        s@[i as int] != ';',
    ensures
        match r {
            Ok((e, j)) => i < j <= s@.len() && read_at(s@, i as nat) == Ok::<
                (SSurface, nat),
                SError,
            >((e@, j as nat)),
            Err(e) => read_at(s@, i as nat) == Err::<(SSurface, nat), SError>(e@),
        },
    decreases s@.len() - i, 0nat,
{
    let n: usize = s.len();
    assert(i < n);
    let c = s[i];
    if c == '(' {
        let (items, j) = read_items(s, i + 1, ')')?;
        let e = Expr::List(items);
        assert(e@ == SSurface::List(surfaces_view(items@)));
        return Ok((e, j));
    }
    if c == '[' {
        let (items, j) = read_items(s, i + 1, ']')?;
        let e = Expr::Vector(items);
        assert(e@ == SSurface::Vector(surfaces_view(items@)));
        return Ok((e, j));
    }
    if c == '{' {
        let (items, j) = read_items(s, i + 1, '}')?;
        assert(surfaces_view(items@).len() == items@.len());
        if items.len() % 2 != 0 {
            return Err(
                make_error(
                    "syntax_parse",
                    "parse",
                    "a map needs a value for each key".to_owned(),
                ),
            );
        }
        let pairs = pair_up(items);
        let e = Expr::Braces(pairs);
        assert(e@ == SSurface::Braces(pairs_view(pairs@)));
        return Ok((e, j));
    }
    if c == ')' || c == ']' || c == '}' {
        return Err(
            make_error("syntax_parse", "parse", "unexpected closing bracket".to_owned()),
        );
    }
    if c == '"' {
        let (text, j) = read_string(s, i + 1)?;
        return Ok((Expr::Str(text), j));
    }
    let end = find_atom_end(s, i);
    let e = read_atom(s, i, end)?;
    Ok((e, end))
}

/// Parts an even number of items two by two.
fn pair_up(given: Vec<Expr>) -> (r: Vec<(Expr, Expr)>)
    requires
        given@.len() % 2 == 0,
    ensures
        pairs_view(r@) == paired(surfaces_view(given@)),
{
    let ghost all = surfaces_view(given@);
    let ghost whole = given@;
    let mut rest = given;
    let mut back: Vec<(Expr, Expr)> = Vec::new();
    assert(all.len() == rest@.len());
    while rest.len() >= 2
        invariant
            all == surfaces_view(whole),
            all.len() == whole.len(),
            whole.len() % 2 == 0,
            rest@.len() % 2 == 0,
            rest@ == whole.take(rest@.len() as int),
            rest@.len() <= whole.len(),
            2 * back@.len() + rest@.len() == whole.len(),
            forall|j: int|
                0 <= j < back@.len() ==> (#[trigger] back@[j]) == (
                    whole[whole.len() - 2 * j - 2],
                    whole[whole.len() - 2 * j - 1],
                ),
        decreases rest.len(),
    {
        let ghost n = rest@.len();
        let ghost so_far = back@;
        let second = rest.pop();
        let first = rest.pop();
        match (first, second) {
            (Some(a), Some(b)) => {
                assert(b == whole[n - 1]);
                assert(a == whole[n - 2]);
                back.push((a, b));
                assert forall|j: int| 0 <= j < back@.len() implies (#[trigger] back@[j]) == (
                    whole[whole.len() - 2 * j - 2],
                    whole[whole.len() - 2 * j - 1],
                ) by {
                    if j < so_far.len() {
                        assert(back@[j] == so_far[j]);
                    }
                }
            },
            _ => {},
        }
        assert(rest@ =~= whole.take(n - 2));
    }
    let ghost half = back@;
    let mut r: Vec<(Expr, Expr)> = Vec::new();
    while back.len() > 0
        invariant
            all == surfaces_view(whole),
            all.len() == whole.len(),
            2 * half.len() == whole.len(),
            back@ == half.take(back@.len() as int),
            back@.len() + r@.len() == half.len(),
            forall|j: int|
                0 <= j < half.len() ==> (#[trigger] half[j]) == (
                    whole[whole.len() - 2 * j - 2],
                    whole[whole.len() - 2 * j - 1],
                ),
            forall|j: int|
                0 <= j < r@.len() ==> (#[trigger] r@[j]) == (whole[2 * j], whole[2 * j + 1]),
        decreases back.len(),
    {
        let ghost n = back@.len();
        let ghost so_far = r@;
        match back.pop() {
            Some(p) => {
                assert(p == half[n - 1]);
                r.push(p);
                assert forall|j: int| 0 <= j < r@.len() implies (#[trigger] r@[j]) == (
                    whole[2 * j],
                    whole[2 * j + 1],
                ) by {
                    if j < so_far.len() {
                        assert(r@[j] == so_far[j]);
                    } else {
                        assert(j == half.len() - n);
                    }
                }
            },
            None => {},
        }
        assert(back@ =~= half.take(n - 1));
    }
    assert(pairs_view(r@) =~= paired(all)) by {
        assert(pairs_view(r@).len() == r@.len());
        assert forall|j: int| 0 <= j < r@.len() implies pairs_view(r@)[j] == paired(all)[j] by {
            assert(r@[j] == (whole[2 * j], whole[2 * j + 1]));
            assert(all[2 * j] == whole[2 * j]@);
            assert(all[2 * j + 1] == whole[2 * j + 1]@);
        }
    }
    r
}

fn read_items(s: &Vec<char>, start: usize, close: char) -> (r: Result<
    (Vec<Expr>, usize),
    MagError,
>)
    requires
        start <= s@.len(),
    ensures
        match r {
            Ok((items, j)) => start < j <= s@.len() && read_until(
                s@,
                start as nat,
                close,
                Seq::empty(),
            ) == Ok::<(Seq<SSurface>, nat), SError>((surfaces_view(items@), j as nat)),
            Err(e) => read_until(s@, start as nat, close, Seq::empty()) == Err::<
                (Seq<SSurface>, nat),
                SError,
            >(e@),
        },
    decreases s@.len() - start, 1nat,
{
    let ghost whole = read_until(s@, start as nat, close, Seq::empty());
    let mut done: Vec<Expr> = Vec::new();
    let mut i: usize = start;
    assert(surfaces_view(done@) =~= Seq::empty());
    loop
        invariant
            start <= i <= s@.len(),
            whole == read_until(s@, start as nat, close, Seq::empty()),
            whole == read_until(s@, i as nat, close, surfaces_view(done@)),
        decreases s@.len() - i,
    {
        let ghost so_far = surfaces_view(done@);
        let k = skip(s, i);
        proof {
            skipped_stops(s@, i as nat, false);
        }
        if k >= s.len() {
            return Err(make_error("syntax_parse", "parse", "unclosed bracket".to_owned()));
        }
        if s[k] == close {
            return Ok((done, k + 1));
        }
        let (e, j) = read_expr(s, k)?;
        done.push(e);
        assert(surfaces_view(done@) =~= so_far.push(e@));
        i = j;
    }
}

proof fn skipped_stops(s: Seq<char>, i: nat, comment: bool)
    requires
        i <= s.len(),
    ensures
        i <= skipped(s, i, comment) <= s.len(),
        skipped(s, i, comment) < s.len() ==> !blank(s[skipped(s, i, comment) as int]) && s[skipped(
            s,
            i,
            comment,
        ) as int] != ';',
    decreases s.len() - i,
{
    if i < s.len() {
        if comment {
            skipped_stops(s, i + 1, s[i as int] != '\n');
        } else if blank(s[i as int]) {
            skipped_stops(s, i + 1, false);
        } else if s[i as int] == ';' {
            skipped_stops(s, i + 1, true);
        }
    }
}

/// Reads the expressions of a source.
pub fn parse(source: &str) -> (r: Result<Vec<Expr>, MagError>)
    ensures
        match r {
            Ok(items) => read_source(source@) == Ok::<Seq<SSurface>, SError>(
                surfaces_view(items@),
            ),
            Err(e) => read_source(source@) == Err::<Seq<SSurface>, SError>(e@),
        },
{
    let s = chars_of(source);
    let ghost whole = read_source(s@);
    let mut done: Vec<Expr> = Vec::new();
    let mut i: usize = 0;
    assert(surfaces_view(done@) =~= Seq::empty());
    loop
        invariant
            i <= s@.len(),
            s@ == source@,
            whole == read_source(s@),
            whole == read_rest(s@, i as nat, surfaces_view(done@)),
        decreases s@.len() - i,
    {
        let ghost so_far = surfaces_view(done@);
        let k = skip(&s, i);
        proof {
            skipped_stops(s@, i as nat, false);
        }
        if k >= s.len() {
            return Ok(done);
        }
        let (e, j) = read_expr(&s, k)?;
        done.push(e);
        assert(surfaces_view(done@) =~= so_far.push(e@));
        i = j;
    }
}

} // verus!
