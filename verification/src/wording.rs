//! What operations on texts, names and paths are for.

use vstd::prelude::*;

use crate::ast::{string_of, SValue};
use crate::env::SEnv;
use crate::frontend::SyntaxMode;
use crate::meaning::{names_of_operations, returned};
use crate::operations::{data_operation, op_replace, op_strip_margin, operation};
use crate::resolver::{
    files_by_path, module_file, module_name, name_char, parts_valid, placed_file, same_file, stem,
    unrepeated,
};
use crate::templates::{
    line_content, line_length, margin, replaced, starts, white, without_colons, without_margins,
};
use crate::text::{decimal, digit};

verus! {

broadcast use vstd::seq_lib::group_seq_properties;

/// Whether a text stands in another at a place.
pub open spec fn stands_at(s: Seq<char>, p: Seq<char>, i: int) -> bool {
    0 <= i && i + p.len() <= s.len() && s.subrange(i, i + p.len()) == p
}

proof fn starting_is_standing_first(s: Seq<char>, p: Seq<char>)
    ensures
        starts(s, p) <==> stands_at(s, p, 0),
{
    if s.len() >= p.len() {
        assert(s.take(p.len() as int) =~= s.subrange(0, p.len() as int));
    }
}

proof fn standing_later(s: Seq<char>, p: Seq<char>, i: int)
    requires
        s.len() > 0,
        0 <= i,
    ensures
        stands_at(s.drop_first(), p, i) <==> stands_at(s, p, i + 1),
{
    if i + 1 + p.len() <= s.len() {
        assert(s.drop_first().subrange(i, i + p.len()) =~= s.subrange(i + 1, i + 1 + p.len()));
    }
}

/// A text in which another does not stand is left alone by replacing that other.
pub proof fn replacing_what_is_not_there_changes_nothing(
    s: Seq<char>,
    from: Seq<char>,
    to: Seq<char>,
)
    requires
        from.len() > 0,
        forall|i: int| !#[trigger] stands_at(s, from, i),
    ensures
        replaced(s, from, to) == s,
    decreases s.len(),
{
    if s.len() > 0 {
        starting_is_standing_first(s, from);
        assert(!stands_at(s, from, 0));
        let rest = s.drop_first();
        assert forall|i: int| !#[trigger] stands_at(rest, from, i) by {
            if 0 <= i {
                standing_later(s, from, i);
                assert(!stands_at(s, from, i + 1));
            }
        }
        replacing_what_is_not_there_changes_nothing(rest, from, to);
        assert(seq![s[0]] + rest =~= s);
    }
}

/// The first place where a text stands gets the replacement; what is before stays, and what is
/// behind is replaced likewise.
pub proof fn replacing_goes_on_behind_the_first_place(
    front: Seq<char>,
    from: Seq<char>,
    back: Seq<char>,
    to: Seq<char>,
)
    requires
        from.len() > 0,
        forall|i: int| i < front.len() ==> !#[trigger] stands_at(front + from + back, from, i),
    ensures
        replaced(front + from + back, from, to) == front + to + replaced(back, from, to),
    decreases front.len(),
{
    let s = front + from + back;
    starting_is_standing_first(s, from);
    if front.len() == 0 {
        assert(s.subrange(0, from.len() as int) =~= from);
        assert(stands_at(s, from, 0));
        assert(s.skip(from.len() as int) =~= back);
        assert(to + replaced(back, from, to) =~= front + to + replaced(back, from, to));
    } else {
        assert(!stands_at(s, from, 0));
        let rest = front.drop_first();
        assert(s.drop_first() =~= rest + from + back);
        assert forall|i: int| i < rest.len() implies !#[trigger] stands_at(
            rest + from + back,
            from,
            i,
        ) by {
            if 0 <= i {
                standing_later(s, from, i);
                assert(!stands_at(s, from, i + 1));
            }
        }
        replacing_goes_on_behind_the_first_place(rest, from, back, to);
        assert(seq![s[0]] + (rest + to + replaced(back, from, to)) =~= front + to + replaced(
            back,
            from,
            to,
        ));
    }
}

/// Replacing one character by another puts the other at each of its places and leaves the rest.
pub proof fn replacing_a_character_is_place_by_place(s: Seq<char>, a: char, b: char)
    ensures
        replaced(s, seq![a], seq![b]).len() == s.len(),
        forall|i: int|
            0 <= i < s.len() ==> #[trigger] replaced(s, seq![a], seq![b])[i] == if s[i] == a {
                b
            } else {
                s[i]
            },
    decreases s.len(),
{
    if s.len() > 0 {
        let rest = s.drop_first();
        replacing_a_character_is_place_by_place(rest, a, b);
        assert(s.take(1) =~= seq![s[0]]);
        assert(starts(s, seq![a]) <==> s[0] == a) by {
            if s[0] == a {
                assert(s.take(1) =~= seq![a]);
            } else {
                assert(s.take(1)[0] != seq![a][0]);
            }
        }
        assert(s.skip(1) =~= rest);
        let out = replaced(s, seq![a], seq![b]);
        let tail = replaced(rest, seq![a], seq![b]);
        assert(out == seq![if s[0] == a {
            b
        } else {
            s[0]
        }] + tail);
        assert forall|i: int| 0 <= i < s.len() implies #[trigger] out[i] == if s[i] == a {
            b
        } else {
            s[i]
        } by {
            if i > 0 {
                assert(out[i] == tail[i - 1]);
                assert(rest[i - 1] == s[i]);
            }
        }
    }
}

/// `replace` works on texts alone, and replaces in the first what the second is by the third.
pub proof fn replace_replaces_texts(env: SEnv, a: SValue, b: SValue, c: SValue)
    ensures
        returned(env, "replace"@, seq![a, b, c]) is Ok <==> string_of(a) is Some && string_of(b)
            is Some && string_of(c) is Some,
        returned(env, "replace"@, seq![a, b, c]) matches Ok(v) ==> v == SValue::Str(
            replaced(string_of(a)->Some_0, string_of(b)->Some_0, string_of(c)->Some_0),
        ),
        returned(env, "strip-margin"@, seq![a]) is Ok <==> string_of(a) is Some,
        returned(env, "strip-margin"@, seq![a]) matches Ok(v) ==> v == SValue::Str(
            without_margins(string_of(a)->Some_0),
        ),
{
    names_of_operations();
    reveal(operation);
    reveal(data_operation);
    reveal(op_replace);
    reveal(op_strip_margin);
}

proof fn a_line_ends_at_its_end(line: Seq<char>, s: Seq<char>)
    requires
        !line.contains('\n'),
    ensures
        line_length(line + seq!['\n'] + s) == line.len() + 1,
    decreases line.len(),
{
    let whole = line + seq!['\n'] + s;
    if line.len() > 0 {
        let rest = line.drop_first();
        assert(!rest.contains('\n')) by {
            if rest.contains('\n') {
                let i = choose|i: int| 0 <= i < rest.len() && rest[i] == '\n';
                assert(line[i + 1] == '\n');
            }
        }
        assert(line[0] != '\n') by {
            assert(line.contains(line[0]));
        }
        a_line_ends_at_its_end(rest, s);
        assert(whole.drop_first() =~= rest + seq!['\n'] + s);
    }
}

/// Margins are taken off line by line.
pub proof fn margins_are_stripped_line_by_line(line: Seq<char>, s: Seq<char>)
    requires
        !line.contains('\n'),
    ensures
        without_margins(line + seq!['\n'] + s) == line_content(line + seq!['\n'])
            + without_margins(s),
{
    let whole = line + seq!['\n'] + s;
    a_line_ends_at_its_end(line, s);
    let n = (line.len() + 1) as int;
    assert(whole.take(n) =~= line + seq!['\n']);
    assert(whole.skip(n) =~= s);
}

proof fn margin_ends_behind_the_bar(space: Seq<char>, line: Seq<char>, i: nat)
    requires
        i <= space.len() < line.len(),
        line.take(space.len() as int) == space,
        forall|k: int| 0 <= k < space.len() ==> white(#[trigger] space[k]) && space[k] != '|',
    ensures
        line[space.len() as int] == '|' ==> margin(line, i) == Some((space.len() + 1) as nat),
        line[space.len() as int] != '|' && !white(line[space.len() as int]) ==> margin(line, i)
            is None,
    decreases space.len() - i,
{
    if i < space.len() {
        assert(line[i as int] == space[i as int]);
        margin_ends_behind_the_bar(space, line, i + 1);
    }
}

/// The margin of a line is the white space before a bar, and the bar; a line whose first character
/// that is not white is another has none and stays as it is.
pub proof fn margins_end_behind_the_first_bar(space: Seq<char>, c: char, rest: Seq<char>)
    requires
        forall|k: int| 0 <= k < space.len() ==> white(#[trigger] space[k]) && space[k] != '|',
    ensures
        line_content(space + seq!['|'] + rest) == rest,
        c != '|' && !white(c) ==> line_content(space + seq![c] + rest) == space + seq![c] + rest,
{
    let line = space + seq!['|'] + rest;
    assert(line.take(space.len() as int) =~= space);
    margin_ends_behind_the_bar(space, line, 0);
    assert(line.skip((space.len() + 1) as int) =~= rest);
    let other = space + seq![c] + rest;
    assert(other.take(space.len() as int) =~= space);
    margin_ends_behind_the_bar(space, other, 0);
}

/// The colons in front of a text are taken off, all of them and nothing else.
pub proof fn only_leading_colons_are_taken_off(s: Seq<char>) -> (n: nat)
    ensures
        n <= s.len(),
        forall|i: int| 0 <= i < n ==> #[trigger] s[i] == ':',
        n < s.len() ==> s[n as int] != ':',
        without_colons(s) == s.skip(n as int),
    decreases s.len(),
{
    if s.len() > 0 && s[0] == ':' {
        let rest = s.drop_first();
        let n = only_leading_colons_are_taken_off(rest);
        assert(s.skip((n + 1) as int) =~= rest.skip(n as int));
        assert forall|i: int| 0 <= i < n + 1 implies #[trigger] s[i] == ':' by {
            if i > 0 {
                assert(rest[i - 1] == s[i]);
            }
        }
        if n < rest.len() {
            assert(rest[n as int] == s[(n + 1) as int]);
        }
        n + 1
    } else {
        assert(s.skip(0) =~= s);
        0
    }
}

/// The number that digits stand for.
pub open spec fn number_of(digits: Seq<char>) -> nat
    decreases digits.len(),
{
    if digits.len() == 0 {
        0
    } else {
        number_of(digits.drop_last()) * 10 + (digits.last() as int - '0' as int) as nat
    }
}

proof fn one_digit(n: nat)
    requires
        n < 10,
    ensures
        digit(n).len() == 1,
        digit(n)[0] as int == '0' as int + n,
{
    reveal_strlit("0");
    reveal_strlit("1");
    reveal_strlit("2");
    reveal_strlit("3");
    reveal_strlit("4");
    reveal_strlit("5");
    reveal_strlit("6");
    reveal_strlit("7");
    reveal_strlit("8");
    reveal_strlit("9");
}

/// A number is written in digits that stand for it, so different numbers are written differently.
pub proof fn decimals_stand_for_their_numbers(n: nat)
    ensures
        decimal(n).len() > 0,
        number_of(decimal(n)) == n,
        forall|i: int|
            0 <= i < decimal(n).len() ==> '0' as int <= #[trigger] decimal(n)[i] as int <= '9' as int,
    decreases n,
{
    if n < 10 {
        one_digit(n);
        let d = digit(n);
        assert(d.drop_last() =~= Seq::<char>::empty());
        assert(number_of(d.drop_last()) == 0);
        assert forall|i: int| 0 <= i < d.len() implies '0' as int <= #[trigger] d[i] as int
            <= '9' as int by {
            assert(i == 0);
        }
    } else {
        decimals_stand_for_their_numbers(n / 10);
        one_digit(n % 10);
        let front = decimal(n / 10);
        let last = digit(n % 10);
        assert((front + last).drop_last() =~= front);
        assert((front + last).last() == last[0]);
        assert forall|i: int| 0 <= i < decimal(n).len() implies '0' as int <= #[trigger] decimal(n)[i] as int
            <= '9' as int by {
            if i < front.len() {
                assert(decimal(n)[i] == front[i]);
            } else {
                assert(decimal(n)[i] == last[0]);
            }
        }
    }
}

proof fn valid_parts(name: Seq<char>, i: nat, open: bool)
    requires
        i <= name.len(),
    ensures
        parts_valid(name, i, open) <==> {
            &&& forall|k: int|
                i <= k < name.len() ==> name_char(#[trigger] name[k]) || name[k] == '.'
            &&& forall|k: int|
                #![trigger name[k]]
                i <= k < name.len() && name[k] == '.' ==> (k == i && open || k > i && name[k - 1]
                    != '.')
            &&& i < name.len() ==> name.last() != '.'
            &&& i == name.len() ==> open
        },
    decreases name.len() - i,
{
    if i < name.len() {
        let at = i as int;
        assert(name_char('.') == false);
        valid_parts(name, i + 1, name[at] != '.');
        if parts_valid(name, i, open) {
            assert forall|k: int|
                #![trigger name[k]]
                i <= k < name.len() && name[k] == '.' implies (k == i && open || k > i && name[k
                - 1] != '.') by {
                if k == i + 1 {
                    assert(name[at] != '.');
                }
            }
        }
    }
}

/// A module name is one or more parts between dots, each of letters, digits, underscores and hyphens
/// and none of them empty.
pub proof fn module_names_are_parts_between_dots(name: Seq<char>)
    ensures
        module_name(name) <==> {
            &&& name.len() > 0
            &&& name[0] != '.' && name.last() != '.'
            &&& forall|k: int|
                0 <= k < name.len() ==> name_char(#[trigger] name[k]) || name[k] == '.'
            &&& forall|k: int|
                #![trigger name[k]]
                0 < k < name.len() && name[k] == '.' ==> name[k - 1] != '.'
        },
{
    valid_parts(name, 0, false);
    if module_name(name) {
        assert(name[0] != '.');
    }
}

/// The path of a module has a slash for each dot of its name, and from it the name comes back.
pub proof fn module_paths_have_slashes_for_dots(name: Seq<char>)
    ensures
        stem(name) is Ok <==> module_name(name),
        stem(name) matches Ok(path) ==> path.len() == name.len() && (forall|i: int|
            0 <= i < name.len() ==> #[trigger] path[i] == if name[i] == '.' {
                '/'
            } else {
                name[i]
            }) && replaced(path, "/"@, "."@) == name,
{
    reveal_strlit(".");
    reveal_strlit("/");
    assert("."@ =~= seq!['.']);
    assert("/"@ =~= seq!['/']);
    replacing_a_character_is_place_by_place(name, '.', '/');
    if module_name(name) {
        let path = stem(name)->Ok_0;
        replacing_a_character_is_place_by_place(path, '/', '.');
        module_names_are_parts_between_dots(name);
        let back = replaced(path, "/"@, "."@);
        assert forall|i: int| 0 <= i < name.len() implies back[i] == name[i] by {
            assert(name_char(name[i]) || name[i] == '.');
            assert(path[i] == if name[i] == '.' {
                '/'
            } else {
                name[i]
            });
        }
        assert(back =~= name);
    }
}

proof fn placing_keeps_files(
    sorted: Seq<(Seq<char>, SyntaxMode)>,
    file: (Seq<char>, SyntaxMode),
)
    ensures
        placed_file(sorted, file).to_multiset() == sorted.to_multiset().insert(file),
    decreases sorted.len(),
{
    broadcast use vstd::seq_lib::group_to_multiset_ensures;

    if sorted.len() == 0 {
        assert(seq![file] =~= sorted.push(file));
    } else {
        let front = sorted.drop_last();
        assert(sorted =~= front.push(sorted.last()));
        placing_keeps_files(front, file);
        assert(placed_file(sorted, file).to_multiset() =~= sorted.to_multiset().insert(file));
    }
}

proof fn sorting_keeps_files(found: Seq<(Seq<char>, SyntaxMode)>)
    ensures
        files_by_path(found).to_multiset() == found.to_multiset(),
    decreases found.len(),
{
    broadcast use vstd::seq_lib::group_to_multiset_ensures;

    if found.len() > 0 {
        let front = found.drop_last();
        sorting_keeps_files(front);
        placing_keeps_files(files_by_path(front), found.last());
        assert(found =~= front.push(found.last()));
    } else {
        assert(files_by_path(found) =~= found);
    }
}

proof fn sorting_finds(found: Seq<(Seq<char>, SyntaxMode)>, f: (Seq<char>, SyntaxMode))
    ensures
        files_by_path(found).contains(f) <==> found.contains(f),
{
    broadcast use vstd::seq_lib::group_to_multiset_ensures;

    sorting_keeps_files(found);
    assert(files_by_path(found).to_multiset().count(f) == found.to_multiset().count(f));
}

proof fn one_file_is_left(found: Seq<(Seq<char>, SyntaxMode)>)
    ensures
        unrepeated(found).len() == 0 <==> found.len() == 0,
        forall|k: int|
            0 <= k < unrepeated(found).len() ==> found.contains(#[trigger] unrepeated(found)[k]),
        unrepeated(found).len() == 1 <==> found.len() > 0 && (forall|i: int|
            0 <= i < found.len() ==> same_file(found[0], #[trigger] found[i])),
        found.len() > 0 ==> unrepeated(found)[0] == found[0],
    decreases found.len(),
{
    if found.len() > 0 {
        let front = found.drop_last();
        one_file_is_left(front);
        let rest = unrepeated(front);
        assert forall|k: int| 0 <= k < unrepeated(found).len() implies found.contains(
            #[trigger] unrepeated(found)[k],
        ) by {
            if k < rest.len() {
                assert(front.contains(rest[k]));
                let m = choose|m: int| 0 <= m < front.len() && front[m] == rest[k];
                assert(found[m] == rest[k]);
            } else {
                assert(found[found.len() - 1] == found.last());
            }
        }
        if front.len() > 0 {
            assert(front[0] == found[0]);
            if unrepeated(found).len() == 1 {
                assert(rest.len() == 1);
                assert forall|i: int| 0 <= i < found.len() implies same_file(
                    found[0],
                    #[trigger] found[i],
                ) by {
                    if i < front.len() {
                        assert(front[i] == found[i]);
                    }
                }
            }
            if forall|i: int| 0 <= i < found.len() ==> same_file(found[0], #[trigger] found[i]) {
                assert forall|i: int| 0 <= i < front.len() implies same_file(
                    front[0],
                    #[trigger] front[i],
                ) by {
                    assert(front[i] == found[i]);
                }
                assert(same_file(found[0], found[found.len() - 1]));
            }
        }
    }
}

/// A module is found where its name is one, some file is found and all that are found are the same
/// file; it is then one of those.
pub proof fn modules_are_found_in_one_place(
    name: Seq<char>,
    found: Seq<(Seq<char>, SyntaxMode)>,
)
    ensures
        module_file(name, found) is Ok <==> module_name(name) && found.len() > 0 && (forall|
            i: int,
            k: int,
        |
            0 <= i < found.len() && 0 <= k < found.len() ==> same_file(
                #[trigger] found[i],
                #[trigger] found[k],
            )),
        module_file(name, found) matches Ok(f) ==> found.contains(f),
{
    reveal(module_file);
    let sorted = files_by_path(found);
    one_file_is_left(sorted);
    assert forall|f: (Seq<char>, SyntaxMode)| sorted.contains(f) <==> found.contains(f) by {
        sorting_finds(found, f);
    }
    if sorted.len() > 0 {
        assert(sorted.contains(sorted[0]));
        assert(found.contains(sorted[0]));
    }
    if found.len() > 0 {
        assert(found.contains(found[0]));
        assert(sorted.contains(found[0]));
    }
    if module_file(name, found) is Ok {
        assert forall|i: int, k: int|
            0 <= i < found.len() && 0 <= k < found.len() implies same_file(
            #[trigger] found[i],
            #[trigger] found[k],
        ) by {
            assert(found.contains(found[i]) && found.contains(found[k]));
            assert(sorted.contains(found[i]) && sorted.contains(found[k]));
            let a = choose|a: int| 0 <= a < sorted.len() && sorted[a] == found[i];
            let b = choose|b: int| 0 <= b < sorted.len() && sorted[b] == found[k];
            assert(same_file(sorted[0], sorted[a]) && same_file(sorted[0], sorted[b]));
        }
    }
    if found.len() > 0 && (forall|i: int, k: int|
        0 <= i < found.len() && 0 <= k < found.len() ==> same_file(
            #[trigger] found[i],
            #[trigger] found[k],
        )) {
        assert forall|i: int| 0 <= i < sorted.len() implies same_file(
            sorted[0],
            #[trigger] sorted[i],
        ) by {
            assert(sorted.contains(sorted[i]));
            assert(found.contains(sorted[i]) && found.contains(sorted[0]));
            let a = choose|a: int| 0 <= a < found.len() && found[a] == sorted[0];
            let b = choose|b: int| 0 <= b < found.len() && found[b] == sorted[i];
            assert(same_file(found[a], found[b]));
        }
    }
}

} // verus!
