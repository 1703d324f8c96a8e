//! What is written is what is read: every expression that can be shown in brackets, strings and names
//! is read back from how it is shown.

use vstd::prelude::*;

use crate::error::SError;
use crate::reader::{
    atom, atom_end, blank, delimiter, numeric, paired, read_at, read_rest, read_source, read_until,
    skipped, string_rest, symbol_char, symbol_text,
};
use crate::surface::SSurface;
use crate::wording::stands_at;

verus! {

broadcast use vstd::seq_lib::group_seq_properties;

/// Whether a text is that of a name: no number and none of the words that stand for values.
pub open spec fn plain_name(s: Seq<char>) -> bool {
    s.len() > 0 && symbol_text(s) && !numeric(s) && s != "true"@ && s != "false"@ && s != "nil"@
}

/// Whether an expression is made of names, keywords, strings, truth values, nothing and brackets.
pub open spec fn can_be_shown(e: SSurface) -> bool
    decreases e,
{
    match e {
        SSurface::Str(_) => true,
        SSurface::Bool(_) => true,
        SSurface::Nil => true,
        SSurface::Keyword(s) => s.len() > 0 && symbol_text(s),
        SSurface::Symbol(s) => plain_name(s),
        SSurface::Vector(items) => forall|i: int|
            0 <= i < items.len() ==> can_be_shown(#[trigger] items[i]),
        SSurface::List(items) => forall|i: int|
            0 <= i < items.len() ==> can_be_shown(#[trigger] items[i]),
        SSurface::Braces(pairs) => forall|i: int|
            0 <= i < pairs.len() ==> can_be_shown((#[trigger] pairs[i]).0) && can_be_shown(
                pairs[i].1,
            ),
        SSurface::Int(_) => false,
        SSurface::Float(_) => false,
    }
}

/// The inside of a string, with its quotes and backslashes marked.
pub open spec fn marked_text(s: Seq<char>) -> Seq<char>
    decreases s.len(),
{
    if s.len() == 0 {
        Seq::empty()
    } else if s[0] == '"' || s[0] == '\\' {
        seq!['\\', s[0]] + marked_text(s.drop_first())
    } else {
        seq![s[0]] + marked_text(s.drop_first())
    }
}

/// An expression as it is written.
pub open spec fn shown(e: SSurface) -> Seq<char>
    decreases e, 1nat,
{
    match e {
        SSurface::Str(s) => seq!['"'] + marked_text(s) + seq!['"'],
        SSurface::Bool(b) => if b {
            "true"@
        } else {
            "false"@
        },
        SSurface::Nil => "nil"@,
        SSurface::Keyword(s) => seq![':'] + s,
        SSurface::Symbol(s) => s,
        SSurface::Vector(items) => seq!['['] + shown_all(items) + seq![']'],
        SSurface::List(items) => seq!['('] + shown_all(items) + seq![')'],
        SSurface::Braces(pairs) => seq!['{'] + shown_pairs(pairs) + seq!['}'],
        SSurface::Int(_) => Seq::empty(),
        SSurface::Float(_) => Seq::empty(),
    }
}

/// Expressions one after the other, each with a space behind it.
pub open spec fn shown_all(items: Seq<SSurface>) -> Seq<char>
    decreases items, 0nat,
{
    if items.len() == 0 {
        Seq::empty()
    } else {
        shown(items[0]) + seq![' '] + shown_all(items.drop_first())
    }
}

pub open spec fn shown_pairs(pairs: Seq<(SSurface, SSurface)>) -> Seq<char>
    decreases pairs, 0nat,
{
    if pairs.len() == 0 {
        Seq::empty()
    } else {
        shown(pairs[0].0) + seq![' '] + (shown(pairs[0].1) + seq![' '] + shown_pairs(
            pairs.drop_first(),
        ))
    }
}

/// The keys and values of pairs one after the other.
pub open spec fn flat(pairs: Seq<(SSurface, SSurface)>) -> Seq<SSurface> {
    Seq::new(
        (2 * pairs.len()) as nat,
        |i: int|
            if i % 2 == 0 {
                pairs[i / 2].0
            } else {
                pairs[i / 2].1
            },
    )
}

/// Whether nothing, or something that ends a name, stands at a place.
pub open spec fn ended(s: Seq<char>, i: int) -> bool {
    i >= s.len() || delimiter(s[i])
}

proof fn parts_stand(s: Seq<char>, a: Seq<char>, b: Seq<char>, i: int)
    requires
        stands_at(s, a + b, i),
    ensures
        stands_at(s, a, i),
        stands_at(s, b, i + a.len()),
{
    let whole = s.subrange(i, i + (a + b).len());
    assert(s.subrange(i, i + a.len()) =~= whole.subrange(0, a.len() as int));
    assert(whole.subrange(0, a.len() as int) =~= a);
    assert(s.subrange(i + a.len(), i + a.len() + b.len()) =~= whole.subrange(
        a.len() as int,
        (a + b).len() as int,
    ));
    assert(whole.subrange(a.len() as int, (a + b).len() as int) =~= b);
}

proof fn a_char_stands(s: Seq<char>, p: Seq<char>, i: int, k: int)
    requires
        stands_at(s, p, i),
        0 <= k < p.len(),
    ensures
        s[i + k] == p[k],
{
    assert(s.subrange(i, i + p.len())[k] == p[k]);
}

proof fn strings_are_read_back(t: Seq<char>, s: Seq<char>, i: nat, done: Seq<char>)
    requires
        stands_at(s, marked_text(t) + seq!['"'], i as int),
    ensures
        string_rest(s, i, done) == Ok::<(Seq<char>, nat), SError>(
            (done + t, (i + marked_text(t).len() + 1) as nat),
        ),
    decreases t.len(),
{
    let p = marked_text(t) + seq!['"'];
    a_char_stands(s, p, i as int, 0);
    if t.len() == 0 {
        assert(done + t =~= done);
    } else {
        let rest = t.drop_first();
        if t[0] == '"' || t[0] == '\\' {
            a_char_stands(s, p, i as int, 1);
            assert(p =~= seq!['\\', t[0]] + (marked_text(rest) + seq!['"']));
            parts_stand(s, seq!['\\', t[0]], marked_text(rest) + seq!['"'], i as int);
            strings_are_read_back(rest, s, i + 2, done.push(t[0]));
        } else {
            assert(p =~= seq![t[0]] + (marked_text(rest) + seq!['"']));
            parts_stand(s, seq![t[0]], marked_text(rest) + seq!['"'], i as int);
            strings_are_read_back(rest, s, i + 1, done.push(t[0]));
        }
        assert(done.push(t[0]) + rest =~= done + t);
    }
}

proof fn names_end_where_they_end(p: Seq<char>, s: Seq<char>, i: nat, k: nat)
    requires
        stands_at(s, p, i as int),
        k <= p.len(),
        forall|m: int| 0 <= m < p.len() ==> !delimiter(#[trigger] p[m]),
        ended(s, (i + p.len()) as int),
    ensures
        atom_end(s, (i + k) as nat) == i + p.len(),
    decreases p.len() - k,
{
    if k < p.len() {
        a_char_stands(s, p, i as int, k as int);
        assert(!delimiter(p[k as int]));
        names_end_where_they_end(p, s, i, k + 1);
    }
}

proof fn symbols_hold_no_delimiter(p: Seq<char>)
    requires
        symbol_text(p),
    ensures
        forall|m: int| 0 <= m < p.len() ==> !delimiter(#[trigger] p[m]),
{
    assert forall|m: int| 0 <= m < p.len() implies !delimiter(#[trigger] p[m]) by {
        assert(symbol_char(p[m]));
    }
}

proof fn words_are_symbols()
    ensures
        symbol_text("true"@) && symbol_text("false"@) && symbol_text("nil"@),
        "true"@.len() == 4 && "false"@.len() == 5 && "nil"@.len() == 3,
        "true"@[0] == 't' && "false"@[0] == 'f' && "nil"@[0] == 'n',
{
    reveal_strlit("true");
    reveal_strlit("false");
    reveal_strlit("nil");
}

proof fn atoms_are_read_back(p: Seq<char>, e: SSurface, s: Seq<char>, i: nat)
    requires
        p.len() > 0,
        stands_at(s, p, i as int),
        forall|m: int| 0 <= m < p.len() ==> !delimiter(#[trigger] p[m]),
        ended(s, (i + p.len()) as int),
        atom(p) == Ok::<SSurface, SError>(e),
    ensures
        read_at(s, i) == Ok::<(SSurface, nat), SError>((e, (i + p.len()) as nat)),
{
    a_char_stands(s, p, i as int, 0);
    assert(!delimiter(p[0]));
    names_end_where_they_end(p, s, i, 0);
    assert(s.subrange(i as int, (i + p.len()) as int) == p);
}

proof fn shown_starts_plainly(e: SSurface)
    requires
        can_be_shown(e),
    ensures
        shown(e).len() > 0,
        !blank(shown(e)[0]) && shown(e)[0] != ';',
        shown(e)[0] != ')' && shown(e)[0] != ']' && shown(e)[0] != '}',
{
    words_are_symbols();
    match e {
        SSurface::Symbol(p) => {
            symbols_hold_no_delimiter(p);
            assert(!delimiter(p[0]));
        },
        _ => {},
    }
}

proof fn skipping_goes_on(s: Seq<char>, i: nat, comment: bool)
    ensures
        skipped(s, i, comment) >= i,
    decreases s.len() - i,
{
    if i < s.len() {
        if comment {
            skipping_goes_on(s, i + 1, s[i as int] != '\n');
        } else if blank(s[i as int]) {
            skipping_goes_on(s, i + 1, false);
        } else if s[i as int] == ';' {
            skipping_goes_on(s, i + 1, true);
        }
    }
}

proof fn a_space_is_skipped(s: Seq<char>, i: nat, close: char, done: Seq<SSurface>)
    requires
        i < s.len(),
        blank(s[i as int]),
    ensures
        read_until(s, i, close, done) == read_until(s, i + 1, close, done),
        read_rest(s, i, done) == read_rest(s, i + 1, done),
{
    skipping_goes_on(s, i + 1, false);
    reveal_with_fuel(skipped, 2);
    reveal_with_fuel(read_until, 2);
    reveal_with_fuel(read_rest, 2);
}

/// An expression is read back from how it is written, wherever it stands with something behind it
/// that ends a name.
pub proof fn what_is_shown_is_read(e: SSurface, s: Seq<char>, i: nat)
    requires
        can_be_shown(e),
        stands_at(s, shown(e), i as int),
        ended(s, (i + shown(e).len()) as int),
    ensures
        read_at(s, i) == Ok::<(SSurface, nat), SError>((e, (i + shown(e).len()) as nat)),
    decreases e, 1nat,
{
    let p = shown(e);
    shown_starts_plainly(e);
    a_char_stands(s, p, i as int, 0);
    reveal_with_fuel(read_at, 2);
    match e {
        SSurface::Str(t) => {
            let inner = marked_text(t) + seq!['"'];
            assert(p =~= seq!['"'] + inner);
            parts_stand(s, seq!['"'], inner, i as int);
            strings_are_read_back(t, s, i + 1, Seq::empty());
            assert(Seq::<char>::empty() + t =~= t);
        },
        SSurface::Keyword(k) => {
            symbols_hold_no_delimiter(k);
            words_are_symbols();
            assert forall|m: int| 0 <= m < p.len() implies !delimiter(#[trigger] p[m]) by {
                if m > 0 {
                    assert(p[m] == k[m - 1]);
                }
            }
            assert(p.skip(1) =~= k);
            assert(p[0] == ':');
            atoms_are_read_back(p, e, s, i);
        },
        SSurface::Symbol(t) => {
            symbols_hold_no_delimiter(t);
            assert(symbol_char(t[0]));
            atoms_are_read_back(p, e, s, i);
        },
        SSurface::Vector(items) => {
            assert(p =~= seq!['['] + (shown_all(items) + seq![']']));
            parts_stand(s, seq!['['], shown_all(items) + seq![']'], i as int);
            all_that_is_shown_is_read(items, s, i + 1, ']', Seq::empty());
            assert(Seq::<SSurface>::empty() + items =~= items);
        },
        SSurface::List(items) => {
            assert(p =~= seq!['('] + (shown_all(items) + seq![')']));
            parts_stand(s, seq!['('], shown_all(items) + seq![')'], i as int);
            all_that_is_shown_is_read(items, s, i + 1, ')', Seq::empty());
            assert(Seq::<SSurface>::empty() + items =~= items);
        },
        SSurface::Braces(pairs) => {
            assert(p =~= seq!['{'] + (shown_pairs(pairs) + seq!['}']));
            parts_stand(s, seq!['{'], shown_pairs(pairs) + seq!['}'], i as int);
            pairs_that_are_shown_are_read(pairs, s, i + 1, Seq::empty());
            assert(Seq::<SSurface>::empty() + flat(pairs) =~= flat(pairs));
            assert(paired(flat(pairs)) =~= pairs);
        },
        _ => {
            words_are_symbols();
            symbols_hold_no_delimiter(p);
            atoms_are_read_back(p, e, s, i);
        },
    }
}

proof fn all_that_is_shown_is_read(
    items: Seq<SSurface>,
    s: Seq<char>,
    i: nat,
    close: char,
    done: Seq<SSurface>,
)
    requires
        forall|k: int| 0 <= k < items.len() ==> can_be_shown(#[trigger] items[k]),
        close == ')' || close == ']' || close == '}',
        stands_at(s, shown_all(items) + seq![close], i as int),
    ensures
        read_until(s, i, close, done) == Ok::<(Seq<SSurface>, nat), SError>(
            (done + items, (i + shown_all(items).len() + 1) as nat),
        ),
    decreases items, 0nat,
{
    let p = shown_all(items) + seq![close];
    a_char_stands(s, p, i as int, 0);
    if items.len() == 0 {
        assert(skipped(s, i, false) == i);
        assert(done + items =~= done);
    } else {
        let (e, rest) = (items[0], items.drop_first());
        let behind = shown_all(rest) + seq![close];
        shown_starts_plainly(e);
        assert(p =~= shown(e) + (seq![' '] + behind));
        parts_stand(s, shown(e), seq![' '] + behind, i as int);
        let j = (i + shown(e).len()) as nat;
        a_char_stands(s, seq![' '] + behind, j as int, 0);
        parts_stand(s, seq![' '], behind, j as int);
        what_is_shown_is_read(e, s, i);
        assert(skipped(s, i, false) == i);
        a_space_is_skipped(s, j, close, done.push(e));
        all_that_is_shown_is_read(rest, s, j + 1, close, done.push(e));
        assert(done.push(e) + rest =~= done + items);
    }
}

proof fn pairs_that_are_shown_are_read(
    pairs: Seq<(SSurface, SSurface)>,
    s: Seq<char>,
    i: nat,
    done: Seq<SSurface>,
)
    requires
        forall|k: int|
            0 <= k < pairs.len() ==> can_be_shown((#[trigger] pairs[k]).0) && can_be_shown(
                pairs[k].1,
            ),
        stands_at(s, shown_pairs(pairs) + seq!['}'], i as int),
    ensures
        read_until(s, i, '}', done) == Ok::<(Seq<SSurface>, nat), SError>(
            (done + flat(pairs), (i + shown_pairs(pairs).len() + 1) as nat),
        ),
    decreases pairs, 0nat,
{
    let p = shown_pairs(pairs) + seq!['}'];
    a_char_stands(s, p, i as int, 0);
    if pairs.len() == 0 {
        assert(skipped(s, i, false) == i);
        assert(done + flat(pairs) =~= done);
    } else {
        let (a, b) = pairs[0];
        assert(can_be_shown(pairs[0].0) && can_be_shown(pairs[0].1));
        let rest = pairs.drop_first();
        let behind = shown_pairs(rest) + seq!['}'];
        shown_starts_plainly(a);
        shown_starts_plainly(b);
        let middle = shown(b) + (seq![' '] + behind);
        assert(p =~= shown(a) + (seq![' '] + middle));
        parts_stand(s, shown(a), seq![' '] + middle, i as int);
        let j = (i + shown(a).len()) as nat;
        a_char_stands(s, seq![' '] + middle, j as int, 0);
        parts_stand(s, seq![' '], middle, j as int);
        what_is_shown_is_read(a, s, i);
        assert(skipped(s, i, false) == i);
        a_space_is_skipped(s, j, '}', done.push(a));
        a_char_stands(s, middle, (j + 1) as int, 0);
        assert(middle[0] == shown(b)[0]);
        assert(skipped(s, j + 1, false) == j + 1);
        parts_stand(s, shown(b), seq![' '] + behind, (j + 1) as int);
        let k = (j + 1 + shown(b).len()) as nat;
        a_char_stands(s, seq![' '] + behind, k as int, 0);
        parts_stand(s, seq![' '], behind, k as int);
        what_is_shown_is_read(b, s, j + 1);
        a_space_is_skipped(s, k, '}', done.push(a).push(b));
        pairs_that_are_shown_are_read(rest, s, k + 1, done.push(a).push(b));
        let all = flat(pairs);
        assert(done.push(a).push(b) + flat(rest) =~= done + all) by {
            assert forall|m: int| 0 <= m < flat(rest).len() implies flat(rest)[m] == all[m
                + 2] by {
                assert((m + 2) / 2 == m / 2 + 1);
                assert((m + 2) % 2 == m % 2);
                assert(rest[m / 2] == pairs[m / 2 + 1]);
            }
            assert(all[0] == a && all[1] == b);
        }
    }
}

/// A source that is written of expressions one after the other is read as those expressions.
pub proof fn sources_are_read_expression_by_expression(items: Seq<SSurface>)
    requires
        forall|k: int| 0 <= k < items.len() ==> can_be_shown(#[trigger] items[k]),
    ensures
        read_source(shown_all(items)) == Ok::<Seq<SSurface>, SError>(items),
{
    let s = shown_all(items);
    assert(s.subrange(0, s.len() as int) =~= s);
    rest_is_read(items, s, 0, Seq::empty());
    assert(Seq::<SSurface>::empty() + items =~= items);
}

proof fn rest_is_read(items: Seq<SSurface>, s: Seq<char>, i: nat, done: Seq<SSurface>)
    requires
        forall|k: int| 0 <= k < items.len() ==> can_be_shown(#[trigger] items[k]),
        stands_at(s, shown_all(items), i as int),
        i + shown_all(items).len() == s.len(),
    ensures
        read_rest(s, i, done) == Ok::<Seq<SSurface>, SError>(done + items),
    decreases items.len(),
{
    let p = shown_all(items);
    if items.len() == 0 {
        assert(skipped(s, i, false) == i);
        assert(done + items =~= done);
    } else {
        let (e, rest) = (items[0], items.drop_first());
        let behind = shown_all(rest);
        shown_starts_plainly(e);
        assert(p =~= shown(e) + (seq![' '] + behind));
        a_char_stands(s, p, i as int, 0);
        parts_stand(s, shown(e), seq![' '] + behind, i as int);
        let j = (i + shown(e).len()) as nat;
        a_char_stands(s, seq![' '] + behind, j as int, 0);
        parts_stand(s, seq![' '], behind, j as int);
        what_is_shown_is_read(e, s, i);
        assert(skipped(s, i, false) == i);
        a_space_is_skipped(s, j, ')', done.push(e));
        rest_is_read(rest, s, j + 1, done.push(e));
        assert(done.push(e) + rest =~= done + items);
    }
}

} // verus!
