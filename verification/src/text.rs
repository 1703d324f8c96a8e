//! Strings: equality, order, concatenation and decimal rendering, each stated over `Seq<char>`.

use vstd::prelude::*;

verus! {

/// `str`'s `==` of the standard library: two strings are equal exactly when they hold the same
/// characters.
#[verifier::external_body]
pub(crate) fn same(a: &str, b: &str) -> (r: bool)
    ensures
        r == (a@ == b@),
{
    a == b
}

/// The text that the `Debug` format of `str` writes: the string between quotes, with its special
/// characters escaped.
pub uninterp spec fn quoted_text(s: Seq<char>) -> Seq<char>;

/// The `Debug` format of `str` of the standard library, a function of the characters alone.
#[verifier::external_body]
pub(crate) fn quoted(s: &str) -> (r: String)
    ensures
        r@ == quoted_text(s@),
{
    format!("{:?}", s)
}

pub fn cat2(a: &str, b: &str) -> (r: String)
    ensures
        r@ == a@ + b@,
{
    let mut r = a.to_owned();
    r.append(b);
    r
}

pub fn cat3(a: &str, b: &str, c: &str) -> (r: String)
    ensures
        r@ == a@ + b@ + c@,
{
    let mut r = cat2(a, b);
    r.append(c);
    r
}

pub fn cat4(a: &str, b: &str, c: &str, d: &str) -> (r: String)
    ensures
        r@ == a@ + b@ + c@ + d@,
{
    let mut r = cat3(a, b, c);
    r.append(d);
    r
}

pub fn cat5(a: &str, b: &str, c: &str, d: &str, e: &str) -> (r: String)
    ensures
        r@ == a@ + b@ + c@ + d@ + e@,
{
    let mut r = cat4(a, b, c, d);
    r.append(e);
    r
}

pub fn cat6(a: &str, b: &str, c: &str, d: &str, e: &str, f: &str) -> (r: String)
    ensures
        r@ == a@ + b@ + c@ + d@ + e@ + f@,
{
    let mut r = cat5(a, b, c, d, e);
    r.append(f);
    r
}

/// `String::push` of the standard library appends the character to the end of the string.
pub assume_specification[ std::string::String::push ](s: &mut std::string::String, c: char)
    ensures
        final(s)@ == old(s)@.push(c),
;

/// The characters of a string.
pub fn chars_of(s: &str) -> (r: Vec<char>)
    ensures
        r@ == s@,
{
    broadcast use vstd::string::axiom_spec_iter;

    let mut r: Vec<char> = Vec::new();
    for c in it: s.chars()
        invariant
            it.seq() == s@,
            r@ == s@.take(it.index() as int),
    {
        r.push(c);
        assert(r@ =~= s@.take(it.index() + 1));
    }
    assert(s@.take(s@.len() as int) =~= s@);
    r
}

/// The string of some characters from one place up to another.
pub fn text_of(chars: &Vec<char>, from: usize, to: usize) -> (r: String)
    requires
        from <= to <= chars@.len(),
    ensures
        r@ == chars@.subrange(from as int, to as int),
{
    let mut r = String::new();
    let mut i: usize = from;
    assert(chars@.subrange(from as int, from as int) =~= Seq::empty());
    while i < to
        invariant
            from <= i <= to <= chars@.len(),
            r@ == chars@.subrange(from as int, i as int),
        decreases to - i,
    {
        r.push(chars[i]);
        i = i + 1;
        assert(r@ =~= chars@.subrange(from as int, i as int));
    }
    r
}

/// The decimal digit of a number below ten.
pub open spec fn digit(n: nat) -> Seq<char> {
    if n == 0 {
        "0"@
    } else if n == 1 {
        "1"@
    } else if n == 2 {
        "2"@
    } else if n == 3 {
        "3"@
    } else if n == 4 {
        "4"@
    } else if n == 5 {
        "5"@
    } else if n == 6 {
        "6"@
    } else if n == 7 {
        "7"@
    } else if n == 8 {
        "8"@
    } else {
        "9"@
    }
}

fn digit_text(n: u64) -> (r: &'static str)
    requires
        n < 10,
    ensures
        r@ == digit(n as nat),
{
    if n == 0 {
        "0"
    } else if n == 1 {
        "1"
    } else if n == 2 {
        "2"
    } else if n == 3 {
        "3"
    } else if n == 4 {
        "4"
    } else if n == 5 {
        "5"
    } else if n == 6 {
        "6"
    } else if n == 7 {
        "7"
    } else if n == 8 {
        "8"
    } else {
        "9"
    }
}

/// The decimal rendering of a natural number, without leading zeros.
pub open spec fn decimal(n: nat) -> Seq<char>
    decreases n,
{
    if n < 10 {
        digit(n)
    } else {
        decimal(n / 10) + digit(n % 10)
    }
}

/// The decimal rendering of an integer, with `-` before a negative one.
pub open spec fn decimal_int(n: int) -> Seq<char> {
    if n < 0 {
        "-"@ + decimal((-n) as nat)
    } else {
        decimal(n as nat)
    }
}

pub fn show_u64(n: u64) -> (r: String)
    ensures
        r@ == decimal(n as nat),
    decreases n,
{
    if n < 10 {
        digit_text(n).to_owned()
    } else {
        let head = show_u64(n / 10);
        cat2(&head, digit_text(n % 10))
    }
}

pub fn show_usize(n: usize) -> (r: String)
    ensures
        r@ == decimal(n as nat),
{
    show_u64(n as u64)
}

pub fn show_i64(n: i64) -> (r: String)
    ensures
        r@ == decimal_int(n as int),
{
    if n < 0 {
        let magnitude: u64 = if n == i64::MIN {
            9223372036854775808u64
        } else {
            (-n) as u64
        };
        cat2("-", &show_u64(magnitude))
    } else {
        show_u64(n as u64)
    }
}

/// The characters of a list of strings.
pub open spec fn strings(items: Seq<String>) -> Seq<Seq<char>> {
    Seq::new(items.len(), |i: int| items[i]@)
}

/// The items one after another, with `separator` between neighbours.
pub open spec fn joined(items: Seq<Seq<char>>, separator: Seq<char>) -> Seq<char>
    decreases items.len(),
{
    if items.len() == 0 {
        Seq::empty()
    } else if items.len() == 1 {
        items[0]
    } else {
        joined(items.drop_last(), separator) + separator + items.last()
    }
}

pub fn join(items: &Vec<String>, separator: &str) -> (r: String)
    ensures
        r@ == joined(strings(items@), separator@),
{
    let mut r = String::new();
    let mut i: usize = 0;
    let ghost all = strings(items@);
    while i < items.len()
        invariant
            i <= items.len(),
            all == strings(items@),
            r@ == joined(all.take(i as int), separator@),
        decreases items.len() - i,
    {
        if i > 0 {
            r.append(separator);
        }
        r.append(&items[i]);
        proof {
            let next = all.take(i + 1);
            assert(next.drop_last() =~= all.take(i as int));
            assert(next.last() == items@[i as int]@);
            if i == 0 {
                assert(all.take(0) =~= Seq::<Seq<char>>::empty());
                assert(r@ =~= items@[0]@);
            }
        }
        i = i + 1;
    }
    assert(all.take(items.len() as int) =~= all);
    r
}

/// Whether `name` is one of `items`.
pub open spec fn listed(items: Seq<String>, name: Seq<char>) -> bool {
    exists|i: int| 0 <= i < items.len() && (#[trigger] items[i])@ == name
}

pub fn contains_name(items: &Vec<String>, name: &str) -> (r: bool)
    ensures
        r == listed(items@, name@),
        r == strings(items@).contains(name@),
{
    let mut i: usize = 0;
    while i < items.len()
        invariant
            i <= items.len(),
            forall|j: int| 0 <= j < i ==> (#[trigger] items@[j])@ != name@,
        decreases items.len() - i,
    {
        if same(&items[i], name) {
            assert(strings(items@)[i as int] == name@);
            return true;
        }
        i = i + 1;
    }
    assert forall|j: int| 0 <= j < strings(items@).len() implies strings(items@)[j] != name@ by {
        assert(items@[j]@ != name@);
    }
    false
}

pub fn clone_names(items: &Vec<String>) -> (r: Vec<String>)
    ensures
        r@ == items@,
{
    let mut r: Vec<String> = Vec::new();
    let mut i: usize = 0;
    while i < items.len()
        invariant
            i <= items.len(),
            r@ == items@.take(i as int),
        decreases items.len() - i,
    {
        r.push(items[i].clone());
        i = i + 1;
        assert(items@.take(i as int) =~= items@.take(i - 1).push(items@[i - 1]));
    }
    assert(items@.take(items.len() as int) =~= items@);
    r
}

pub fn same_names(a: &Vec<String>, b: &Vec<String>) -> (r: bool)
    ensures
        r == (strings(a@) == strings(b@)),
{
    if a.len() != b.len() {
        assert(strings(a@).len() != strings(b@).len());
        return false;
    }
    let mut i: usize = 0;
    while i < a.len()
        invariant
            i <= a.len(),
            a.len() == b.len(),
            forall|j: int| 0 <= j < i ==> (#[trigger] a@[j])@ == b@[j]@,
        decreases a.len() - i,
    {
        if !same(&a[i], &b[i]) {
            assert(strings(a@)[i as int] != strings(b@)[i as int]);
            return false;
        }
        i = i + 1;
    }
    assert(strings(a@) =~= strings(b@));
    true
}

/// The lexicographic order of two strings by code point, from position `i` on.
pub open spec fn before_from(a: Seq<char>, b: Seq<char>, i: nat) -> bool
    decreases b.len() - i,
{
    if i >= b.len() {
        false
    } else if i >= a.len() {
        true
    } else if a[i as int] != b[i as int] {
        (a[i as int] as int) < (b[i as int] as int)
    } else {
        before_from(a, b, i + 1)
    }
}

/// Whether `a` stands strictly before `b` in the order of strings.
pub open spec fn before(a: Seq<char>, b: Seq<char>) -> bool {
    before_from(a, b, 0)
}

pub fn comes_before(a: &str, b: &str) -> (r: bool)
    ensures
        r == before(a@, b@),
{
    let n: usize = a.unicode_len();
    let m: usize = b.unicode_len();
    let mut i: usize = 0;
    while i < m
        invariant
            i <= m,
            n == a@.len(),
            m == b@.len(),
            before(a@, b@) == before_from(a@, b@, i as nat),
        decreases m - i,
    {
        if i >= n {
            return true;
        }
        let x = a.get_char(i);
        let y = b.get_char(i);
        if x != y {
            return (x as u32) < (y as u32);
        }
        i = i + 1;
    }
    false
}

/// A string never stands before itself, and of two strings that differ exactly one stands before
/// the other.
pub proof fn before_is_total(a: Seq<char>, b: Seq<char>)
    ensures
        !before(a, a),
        a != b ==> (before(a, b) != before(b, a)),
{
    before_from_irreflexive(a, 0);
    before_from_total(a, b, 0);
}

proof fn before_from_irreflexive(a: Seq<char>, i: nat)
    ensures
        !before_from(a, a, i),
    decreases a.len() - i,
{
    if i < a.len() {
        before_from_irreflexive(a, i + 1);
    }
}

proof fn before_from_total(a: Seq<char>, b: Seq<char>, i: nat)
    requires
        i <= a.len(),
        i <= b.len(),
        forall|j: int| 0 <= j < i ==> a[j] == b[j],
    ensures
        a != b ==> (before_from(a, b, i) != before_from(b, a, i)),
    decreases a.len() - i,
{
    if i < a.len() && i < b.len() && a[i as int] == b[i as int] {
        before_from_total(a, b, i + 1);
    } else if i == a.len() && i == b.len() {
        assert(a =~= b);
    } else if i < a.len() && i < b.len() {
        let x: char = a[i as int];
        let y: char = b[i as int];
        assert(x as int != y as int);
    }
}

/// The order of strings is transitive.
pub proof fn before_is_transitive(a: Seq<char>, b: Seq<char>, c: Seq<char>)
    requires
        before(a, b),
        before(b, c),
    ensures
        before(a, c),
{
    before_from_transitive(a, b, c, 0);
}

proof fn before_from_transitive(a: Seq<char>, b: Seq<char>, c: Seq<char>, i: nat)
    requires
        before_from(a, b, i),
        before_from(b, c, i),
    ensures
        before_from(a, c, i),
    decreases c.len() - i,
{
    if i < a.len() && i < b.len() && i < c.len() && a[i as int] == b[i as int] && b[i as int]
        == c[i as int] {
        before_from_transitive(a, b, c, i + 1);
    }
}

/// Whether each name stands before those behind it.
pub open spec fn strictly_sorted(names: Seq<Seq<char>>) -> bool {
    forall|i: int, j: int| 0 <= i < j < names.len() ==> before(names[i], names[j])
}

/// The names of a finite set in their order.
pub open spec fn ordered(names: Set<Seq<char>>) -> Seq<Seq<char>> {
    choose|q: Seq<Seq<char>>| strictly_sorted(q) && q.to_set() == names
}

/// Two strictly sorted sequences of the same names are the same.
pub proof fn sorted_names_agree(a: Seq<Seq<char>>, b: Seq<Seq<char>>)
    requires
        strictly_sorted(a),
        strictly_sorted(b),
        a.to_set() == b.to_set(),
    ensures
        a == b,
    decreases a.len(),
{
    if a.len() == 0 {
        if b.len() > 0 {
            assert(b.to_set().contains(b[0]));
            assert(a.to_set().contains(b[0]));
        }
        assert(a =~= b);
    } else {
        assert(a.to_set().contains(a[0]));
        assert(b.contains(a[0]));
        assert(b.len() > 0);
        assert(b.to_set().contains(b[0]));
        assert(a.contains(b[0]));
        let j = choose|j: int| 0 <= j < b.len() && b[j] == a[0];
        let k = choose|k: int| 0 <= k < a.len() && a[k] == b[0];
        if a[0] != b[0] {
            assert(before(b[0], b[j]));
            assert(before(a[0], a[k]));
            before_is_total(a[0], b[0]);
        }
        let x = a.drop_first();
        let y = b.drop_first();
        assert(strictly_sorted(x)) by {
            assert forall|i: int, j: int| 0 <= i < j < x.len() implies before(x[i], x[j]) by {
                assert(before(a[i + 1], a[j + 1]));
            }
        }
        assert(strictly_sorted(y)) by {
            assert forall|i: int, j: int| 0 <= i < j < y.len() implies before(y[i], y[j]) by {
                assert(before(b[i + 1], b[j + 1]));
            }
        }
        assert forall|n: Seq<char>| x.to_set().contains(n) <==> y.to_set().contains(n) by {
            if x.contains(n) {
                let i = choose|i: int| 0 <= i < x.len() && x[i] == n;
                assert(before(a[0], a[i + 1]));
                before_is_total(a[0], a[0]);
                assert(a.to_set().contains(a[i + 1]));
                assert(b.contains(n));
                let m = choose|m: int| 0 <= m < b.len() && b[m] == n;
                assert(m != 0);
                assert(y[m - 1] == n);
            }
            if y.contains(n) {
                let i = choose|i: int| 0 <= i < y.len() && y[i] == n;
                assert(before(b[0], b[i + 1]));
                before_is_total(b[0], b[0]);
                assert(b.to_set().contains(b[i + 1]));
                assert(a.contains(n));
                let m = choose|m: int| 0 <= m < a.len() && a[m] == n;
                assert(m != 0);
                assert(x[m - 1] == n);
            }
        }
        assert(x.to_set() =~= y.to_set());
        sorted_names_agree(x, y);
        assert(a =~= seq![a[0]] + x);
        assert(b =~= seq![b[0]] + y);
    }
}

/// The names with one more put in its place.
pub open spec fn with_name(names: Seq<Seq<char>>, name: Seq<char>) -> Seq<Seq<char>>
    decreases names.len(),
{
    if names.len() == 0 {
        seq![name]
    } else if before(name, names.last()) {
        with_name(names.drop_last(), name).push(names.last())
    } else {
        names.push(name)
    }
}

pub proof fn with_name_sorts(names: Seq<Seq<char>>, name: Seq<char>)
    requires
        strictly_sorted(names),
        !names.contains(name),
    ensures
        strictly_sorted(with_name(names, name)),
        forall|n: Seq<char>| #[trigger]
            with_name(names, name).contains(n) <==> (n == name || names.contains(n)),
    decreases names.len(),
{
    let r = with_name(names, name);
    if names.len() == 0 {
        assert(r[0] == name);
    } else if before(name, names.last()) {
        let rest = names.drop_last();
        let inner = with_name(rest, name);
        assert(!rest.contains(name)) by {
            if rest.contains(name) {
                let i = choose|i: int| 0 <= i < rest.len() && rest[i] == name;
                assert(names[i] == name);
            }
        }
        assert(strictly_sorted(rest));
        with_name_sorts(rest, name);
        assert forall|i: int, j: int| 0 <= i < j < r.len() implies before(r[i], r[j]) by {
            if j == r.len() - 1 {
                assert(inner.contains(inner[i]));
                if inner[i] != name {
                    assert(rest.contains(inner[i]));
                    let k = choose|k: int| 0 <= k < rest.len() && rest[k] == inner[i];
                    assert(before(names[k], names[names.len() - 1]));
                }
            } else {
                assert(before(inner[i], inner[j]));
            }
        }
        assert forall|n: Seq<char>| #[trigger] r.contains(n) <==> (n == name || names.contains(
            n,
        )) by {
            if r.contains(n) {
                let i = choose|i: int| 0 <= i < r.len() && r[i] == n;
                if i < inner.len() {
                    assert(inner.contains(n));
                    if n != name {
                        let k = choose|k: int| 0 <= k < rest.len() && rest[k] == n;
                        assert(names[k] == n);
                    }
                } else {
                    assert(names[names.len() - 1] == n);
                }
            }
            if n == name {
                assert(inner.contains(n));
                let i = choose|i: int| 0 <= i < inner.len() && inner[i] == n;
                assert(r[i] == n);
            }
            if names.contains(n) {
                let k = choose|k: int| 0 <= k < names.len() && names[k] == n;
                if k < rest.len() {
                    assert(rest[k] == n);
                    assert(inner.contains(n));
                    let i = choose|i: int| 0 <= i < inner.len() && inner[i] == n;
                    assert(r[i] == n);
                } else {
                    assert(r[r.len() - 1] == n);
                }
            }
        }
    } else {
        assert forall|i: int, j: int| 0 <= i < j < r.len() implies before(r[i], r[j]) by {
            if j == names.len() {
                before_is_total(names.last(), name);
                assert(names.last() != name) by {
                    assert(names.contains(names.last()));
                }
                assert(before(names.last(), name));
                if i < names.len() - 1 {
                    assert(before(names[i], names[names.len() - 1]));
                    before_is_transitive(names[i], names.last(), name);
                }
            } else {
                assert(before(names[i], names[j]));
            }
        }
        assert forall|n: Seq<char>| #[trigger] r.contains(n) <==> (n == name || names.contains(
            n,
        )) by {
            if n == name {
                assert(r[names.len() as int] == n);
            }
            if names.contains(n) {
                let k = choose|k: int| 0 <= k < names.len() && names[k] == n;
                assert(r[k] == n);
            }
            if r.contains(n) {
                let i = choose|i: int| 0 <= i < r.len() && r[i] == n;
                if i < names.len() {
                    assert(names[i] == n);
                }
            }
        }
    }
}

fn place_name(names: &mut Vec<String>, name: &str)
    ensures
        strings(final(names)@) == with_name(strings(old(names)@), name@),
    decreases old(names)@.len(),
{
    let ghost all = strings(names@);
    if names.len() == 0 {
        let owned = name.to_owned();
        names.push(owned);
        assert(strings(names@) =~= seq![name@]);
        return ;
    }
    let last: usize = names.len() - 1;
    assert(all.last() == names@[last as int]@);
    if comes_before(name, &names[last]) {
        let held = names.pop().unwrap();
        assert(strings(names@) =~= all.drop_last());
        place_name(names, name);
        let ghost so_far = strings(names@);
        names.push(held);
        assert(strings(names@) =~= so_far.push(held@));
    } else {
        let owned = name.to_owned();
        names.push(owned);
        assert(strings(names@) =~= all.push(name@));
    }
}

/// The different names of a list in their order.
pub fn order_names(names: &Vec<String>) -> (r: Vec<String>)
    ensures
        strictly_sorted(strings(r@)),
        strings(r@) == ordered(strings(names@).to_set()),
        strings(r@).to_set() == strings(names@).to_set(),
{
    let ghost all = strings(names@);
    let mut r: Vec<String> = Vec::new();
    let mut i: usize = 0;
    assert(strings(r@) =~= Seq::empty());
    while i < names.len()
        invariant
            i <= names.len(),
            all == strings(names@),
            strictly_sorted(strings(r@)),
            forall|n: Seq<char>| #[trigger]
                strings(r@).contains(n) ==> all.contains(n),
            forall|j: int| 0 <= j < i ==> strings(r@).contains(#[trigger] all[j]),
        decreases names.len() - i,
    {
        let ghost before = strings(r@);
        assert(all[i as int] == names@[i as int]@);
        if !contains_name(&r, &names[i]) {
            place_name(&mut r, &names[i]);
            proof {
                with_name_sorts(before, all[i as int]);
                assert forall|j: int| 0 <= j < i + 1 implies strings(r@).contains(
                    #[trigger] all[j],
                ) by {
                    if j < i {
                        assert(before.contains(all[j]));
                    }
                }
                assert forall|n: Seq<char>| #[trigger] strings(r@).contains(n) implies all.contains(
                    n,
                ) by {
                    if n != all[i as int] {
                        assert(before.contains(n));
                    }
                }
            }
        }
        i = i + 1;
    }
    proof {
        let q = strings(r@);
        assert forall|n: Seq<char>| q.to_set().contains(n) <==> all.to_set().contains(n) by {
            if all.contains(n) {
                let j = choose|j: int| 0 <= j < all.len() && all[j] == n;
                assert(q.contains(all[j]));
            }
        }
        assert(q.to_set() =~= all.to_set());
        let o = ordered(all.to_set());
        assert(strictly_sorted(q) && q.to_set() == all.to_set());
        assert(strictly_sorted(o) && o.to_set() == all.to_set());
        sorted_names_agree(q, o);
    }
    r
}

} // verus!
