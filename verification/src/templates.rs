//! Rules on text: margins, replacement and the marks of keywords.

use vstd::prelude::*;
use vstd::string::StrSliceExecFns;

verus! {

/// Whether a character has the Unicode property `White_Space`.
pub open spec fn white(c: char) -> bool {
    let n = c as int;
    ||| 0x9 <= n <= 0xd
    ||| n == 0x20
    ||| n == 0x85
    ||| n == 0xa0
    ||| n == 0x1680
    ||| 0x2000 <= n <= 0x200a
    ||| n == 0x2028
    ||| n == 0x2029
    ||| n == 0x202f
    ||| n == 0x205f
    ||| n == 0x3000
}

fn is_white(c: char) -> (r: bool)
    ensures
        r == white(c),
{
    let n: u32 = c as u32;
    (0x9 <= n && n <= 0xd) || n == 0x20 || n == 0x85 || n == 0xa0 || n == 0x1680 || (0x2000 <= n
        && n <= 0x200a) || n == 0x2028 || n == 0x2029 || n == 0x202f || n == 0x205f || n == 0x3000
}

/// Where a line's content starts: behind a `|` with nothing but white space before it.
pub open spec fn margin(line: Seq<char>, i: nat) -> Option<nat>
    decreases line.len() - i,
{
    if i >= line.len() {
        None
    } else if line[i as int] == '|' {
        Some(i + 1)
    } else if white(line[i as int]) {
        margin(line, i + 1)
    } else {
        None
    }
}

/// A line without its margin, or as it is where it has none.
pub open spec fn line_content(line: Seq<char>) -> Seq<char> {
    match margin(line, 0) {
        Some(i) => line.skip(i as int),
        None => line,
    }
}

/// How many characters the first line has, the line feed that ends it among them.
pub open spec fn line_length(s: Seq<char>) -> nat
    decreases s.len(),
{
    if s.len() == 0 {
        0
    } else if s[0] == '\n' {
        1
    } else {
        1 + line_length(s.drop_first())
    }
}

/// A text whose lines have lost their margins.
pub open spec fn without_margins(s: Seq<char>) -> Seq<char>
    decreases s.len(),
{
    if s.len() == 0 || line_length(s) == 0 || line_length(s) > s.len() {
        Seq::empty()
    } else {
        line_content(s.take(line_length(s) as int)) + without_margins(
            s.skip(line_length(s) as int),
        )
    }
}

proof fn line_length_in_range(s: Seq<char>)
    ensures
        line_length(s) <= s.len(),
        s.len() > 0 ==> line_length(s) > 0,
    decreases s.len(),
{
    if s.len() > 0 {
        line_length_in_range(s.drop_first());
    }
}

fn line_end(s: &str, n: usize, start: usize) -> (r: usize)
    requires
        n == s@.len(),
        start < n,
    ensures
        start < r <= n,
        r - start == line_length(s@.skip(start as int)),
{
    let mut i: usize = start;
    proof {
        line_length_in_range(s@.skip(start as int));
    }
    while i < n
        invariant
            start <= i <= n,
            start < n,
            n == s@.len(),
            line_length(s@.skip(start as int)) == (i - start) + line_length(s@.skip(i as int)),
        decreases n - i,
    {
        assert(s@.skip(i as int)[0] == s@[i as int]);
        assert(s@.skip(i as int).drop_first() =~= s@.skip(i + 1));
        if s.get_char(i) == '\n' {
            return i + 1;
        }
        i = i + 1;
    }
    i
}

fn content_start(line: &str) -> (r: usize)
    ensures
        r <= line@.len(),
        line_content(line@) == line@.skip(r as int),
{
    let n: usize = line.unicode_len();
    let mut i: usize = 0;
    assert(line@.skip(0) =~= line@);
    while i < n
        invariant
            i <= n,
            n == line@.len(),
            line@.skip(0) == line@,
            margin(line@, 0) == margin(line@, i as nat),
        decreases n - i,
    {
        let c = line.get_char(i);
        if c == '|' {
            return i + 1;
        }
        if !is_white(c) {
            return 0;
        }
        i = i + 1;
    }
    0
}

/// Drops the margins of a text.
pub fn strip_margin(s: &str) -> (r: String)
    ensures
        r@ == without_margins(s@),
{
    let n: usize = s.unicode_len();
    let ghost whole = without_margins(s@);
    let mut out = String::new();
    let mut i: usize = 0;
    proof {
        assert(s@.skip(0) =~= s@);
        assert(out@ + whole =~= whole);
    }
    while i < n
        invariant
            i <= n,
            n == s@.len(),
            whole == out@ + without_margins(s@.skip(i as int)),
        decreases n - i,
    {
        let end = line_end(s, n, i);
        let line = s.substring_char(i, end);
        let start = content_start(line);
        let m: usize = line.unicode_len();
        proof {
            let rest = s@.skip(i as int);
            line_length_in_range(rest);
            assert(rest.take(end - i) =~= line@);
            assert(rest.skip(end - i) =~= s@.skip(end as int));
            assert(line@.subrange(start as int, m as int) =~= line@.skip(start as int));
            assert(out@ + (line@.skip(start as int) + without_margins(s@.skip(end as int)))
                =~= out@ + line@.skip(start as int) + without_margins(s@.skip(end as int)));
        }
        let ghost before = out@;
        out.append(line.substring_char(start, m));
        assert(out@ =~= before + line@.skip(start as int));
        i = end;
    }
    assert(out@ + without_margins(s@.skip(n as int)) =~= out@);
    out
}

/// A text with something before and behind each character.
pub open spec fn interleaved(s: Seq<char>, to: Seq<char>) -> Seq<char>
    decreases s.len(),
{
    if s.len() == 0 {
        to
    } else {
        to + seq![s[0]] + interleaved(s.drop_first(), to)
    }
}

/// Whether a text has another at its start.
pub open spec fn starts(s: Seq<char>, p: Seq<char>) -> bool {
    s.len() >= p.len() && s.take(p.len() as int) == p
}

/// A text in which each occurrence of another, found from the left and without overlaps, is
/// replaced. The empty text occurs before and behind each character.
pub open spec fn replaced(s: Seq<char>, from: Seq<char>, to: Seq<char>) -> Seq<char>
    decreases s.len(),
{
    if from.len() == 0 {
        interleaved(s, to)
    } else if s.len() == 0 {
        Seq::empty()
    } else if starts(s, from) {
        to + replaced(s.skip(from.len() as int), from, to)
    } else {
        seq![s[0]] + replaced(s.drop_first(), from, to)
    }
}

fn starts_at(s: &str, n: usize, at: usize, p: &str, m: usize) -> (r: bool)
    requires
        n == s@.len(),
        m == p@.len(),
        at <= n,
    ensures
        r == starts(s@.skip(at as int), p@),
{
    if n - at < m {
        return false;
    }
    let mut k: usize = 0;
    while k < m
        invariant
            k <= m,
            n == s@.len(),
            m == p@.len(),
            at <= n,
            m <= n - at,
            forall|j: int| 0 <= j < k ==> s@[at + j] == p@[j],
        decreases m - k,
    {
        if s.get_char(at + k) != p.get_char(k) {
            assert(s@.skip(at as int).take(m as int)[k as int] == s@[at + k]);
            return false;
        }
        k = k + 1;
    }
    assert(s@.skip(at as int).take(m as int) =~= p@);
    true
}

fn interleave(s: &str, to: &str) -> (r: String)
    ensures
        r@ == interleaved(s@, to@),
{
    let n: usize = s.unicode_len();
    let ghost whole = interleaved(s@, to@);
    let mut out = String::new();
    let mut i: usize = 0;
    proof {
        assert(s@.skip(0) =~= s@);
        assert(out@ + whole =~= whole);
    }
    while i < n
        invariant
            i <= n,
            n == s@.len(),
            whole == out@ + interleaved(s@.skip(i as int), to@),
        decreases n - i,
    {
        let ghost before = out@;
        proof {
            let rest = s@.skip(i as int);
            assert(rest.drop_first() =~= s@.skip(i + 1));
            assert(s@.subrange(i as int, i + 1) =~= seq![rest[0]]);
            assert(before + (to@ + seq![rest[0]] + interleaved(rest.drop_first(), to@)) =~= before
                + to@ + seq![rest[0]] + interleaved(rest.drop_first(), to@));
        }
        out.append(to);
        out.append(s.substring_char(i, i + 1));
        i = i + 1;
    }
    out.append(to);
    out
}

/// Replaces each occurrence of a text.
pub fn replace_text(s: &str, from: &str, to: &str) -> (r: String)
    ensures
        r@ == replaced(s@, from@, to@),
{
    let n: usize = s.unicode_len();
    let m: usize = from.unicode_len();
    if m == 0 {
        return interleave(s, to);
    }
    let ghost whole = replaced(s@, from@, to@);
    let mut out = String::new();
    let mut start: usize = 0;
    let mut i: usize = 0;
    proof {
        assert(s@.skip(0) =~= s@);
        assert(out@ + s@.subrange(0, 0) + whole =~= whole);
    }
    while i < n
        invariant
            start <= i <= n,
            n == s@.len(),
            m == from@.len(),
            m > 0,
            whole == out@ + s@.subrange(start as int, i as int) + replaced(
                s@.skip(i as int),
                from@,
                to@,
            ),
        decreases n - i,
    {
        let ghost rest = s@.skip(i as int);
        let ghost run = s@.subrange(start as int, i as int);
        if starts_at(s, n, i, from, m) {
            let ghost before = out@;
            out.append(s.substring_char(start, i));
            out.append(to);
            proof {
                assert(rest.skip(m as int) =~= s@.skip(i + m));
                assert(before + run + (to@ + replaced(s@.skip(i + m), from@, to@)) =~= before + run
                    + to@ + s@.subrange(i + m, i + m) + replaced(s@.skip(i + m), from@, to@));
            }
            i = i + m;
            start = i;
        } else {
            proof {
                assert(rest.drop_first() =~= s@.skip(i + 1));
                assert(out@ + run + (seq![rest[0]] + replaced(s@.skip(i + 1), from@, to@)) =~= out@
                    + s@.subrange(start as int, i + 1) + replaced(s@.skip(i + 1), from@, to@));
            }
            i = i + 1;
        }
    }
    out.append(s.substring_char(start, n));
    assert(replaced(s@.skip(n as int), from@, to@) =~= Seq::empty());
    assert(out@ =~= whole);
    out
}

/// A text without the colons at its start.
pub open spec fn without_colons(s: Seq<char>) -> Seq<char>
    decreases s.len(),
{
    if s.len() > 0 && s[0] == ':' {
        without_colons(s.drop_first())
    } else {
        s
    }
}

pub fn trim_colons(s: &str) -> (r: String)
    ensures
        r@ == without_colons(s@),
{
    let n: usize = s.unicode_len();
    let mut i: usize = 0;
    assert(s@.skip(0) =~= s@);
    while i < n && s.get_char(i) == ':'
        invariant
            i <= n,
            n == s@.len(),
            without_colons(s@) == without_colons(s@.skip(i as int)),
        decreases n - i,
    {
        assert(s@.skip(i as int).drop_first() =~= s@.skip(i + 1));
        i = i + 1;
    }
    assert(s@.subrange(i as int, n as int) =~= s@.skip(i as int));
    s.substring_char(i, n).to_owned()
}

} // verus!
