//! JSON documents.

use vstd::prelude::*;

use crate::ast::{Float, SFloat};
use crate::text::{before, comes_before, same};
use crate::values::{equal_floats, float_equal, nan_bits};

verus! {

/// A JSON number: an integer that fits, or a binary64 number.
#[derive(Debug)]
pub enum JsonNumber {
    PosInt(u64),
    /// A negative integer.
    NegInt(i64),
    Float(Float),
}

/// A JSON document. The members of an object stand in the order in which they came.
#[derive(Debug)]
pub enum Json {
    Null,
    Bool(bool),
    Number(JsonNumber),
    Str(String),
    Array(Vec<Json>),
    Object(Vec<(String, Json)>),
}

/// The model of a [`JsonNumber`].
#[verifier::ext_equal]
pub enum SNumber {
    PosInt(u64),
    NegInt(i64),
    Float(SFloat),
}

/// The model of a [`Json`].
#[verifier::ext_equal]
pub enum SJson {
    Null,
    Bool(bool),
    Number(SNumber),
    Str(Seq<char>),
    Array(Seq<SJson>),
    Object(Seq<(Seq<char>, SJson)>),
}

impl View for JsonNumber {
    type V = SNumber;

    open spec fn view(&self) -> SNumber {
        match self {
            JsonNumber::PosInt(n) => SNumber::PosInt(*n),
            JsonNumber::NegInt(n) => SNumber::NegInt(*n),
            JsonNumber::Float(f) => SNumber::Float(f@),
        }
    }
}

impl Json {
    pub open spec fn model(self) -> SJson
        decreases self,
    {
        match self {
            Json::Null => SJson::Null,
            Json::Bool(b) => SJson::Bool(b),
            Json::Number(n) => SJson::Number(n@),
            Json::Str(s) => SJson::Str(s@),
            Json::Array(items) => SJson::Array(jsons_view(items@)),
            Json::Object(members) => SJson::Object(members_view(members@)),
        }
    }
}

pub open spec fn jsons_view(items: Seq<Json>) -> Seq<SJson>
    decreases items,
{
    Seq::new(
        items.len(),
        |i: int|
            if 0 <= i < items.len() {
                items[i].model()
            } else {
                arbitrary()
            },
    )
}

pub open spec fn members_view(items: Seq<(String, Json)>) -> Seq<(Seq<char>, SJson)>
    decreases items,
{
    Seq::new(
        items.len(),
        |i: int|
            if 0 <= i < items.len() {
                (items[i].0@, items[i].1.model())
            } else {
                arbitrary()
            },
    )
}

impl View for Json {
    type V = SJson;

    open spec fn view(&self) -> SJson {
        self.model()
    }
}

impl Clone for JsonNumber {
    fn clone(&self) -> (r: JsonNumber)
        ensures
            r@ == self@,
    {
        match self {
            JsonNumber::PosInt(n) => JsonNumber::PosInt(*n),
            JsonNumber::NegInt(n) => JsonNumber::NegInt(*n),
            JsonNumber::Float(f) => JsonNumber::Float(f.clone()),
        }
    }
}

impl Clone for Json {
    fn clone(&self) -> (r: Json)
        ensures
            r@ == self@,
        decreases self,
    {
        match self {
            Json::Null => Json::Null,
            Json::Bool(b) => Json::Bool(*b),
            Json::Number(n) => Json::Number(n.clone()),
            Json::Str(s) => Json::Str(s.clone()),
            Json::Array(items) => Json::Array(clone_jsons(items)),
            Json::Object(members) => Json::Object(clone_members(members)),
        }
    }
}

pub fn clone_jsons(items: &Vec<Json>) -> (r: Vec<Json>)
    ensures
        jsons_view(r@) == jsons_view(items@),
    decreases items,
{
    let mut r: Vec<Json> = Vec::new();
    let mut i: usize = 0;
    while i < items.len()
        invariant
            i <= items.len(),
            r.len() == i,
            forall|j: int| 0 <= j < i ==> (#[trigger] r@[j])@ == items@[j]@,
        decreases items.len() - i,
    {
        r.push(items[i].clone());
        i = i + 1;
    }
    assert(jsons_view(r@) =~= jsons_view(items@));
    r
}

pub fn clone_members(items: &Vec<(String, Json)>) -> (r: Vec<(String, Json)>)
    ensures
        members_view(r@) == members_view(items@),
    decreases items,
{
    let mut r: Vec<(String, Json)> = Vec::new();
    let mut i: usize = 0;
    while i < items.len()
        invariant
            i <= items.len(),
            r.len() == i,
            forall|j: int|
                0 <= j < i ==> (#[trigger] r@[j]).0@ == items@[j].0@ && r@[j].1@ == items@[j].1@,
        decreases items.len() - i,
    {
        r.push((items[i].0.clone(), items[i].1.clone()));
        i = i + 1;
    }
    assert(members_view(r@) =~= members_view(items@));
    r
}

/// The members with one more put in its place by the order of keys, in place of one of the same
/// key.
pub open spec fn with_member<V>(members: Seq<(Seq<char>, V)>, key: Seq<char>, v: V) -> Seq<
    (Seq<char>, V),
>
    decreases members.len(),
{
    if members.len() == 0 {
        seq![(key, v)]
    } else if members.last().0 == key {
        members.drop_last().push((key, v))
    } else if before(key, members.last().0) {
        with_member(members.drop_last(), key, v).push(members.last())
    } else {
        members.push((key, v))
    }
}

pub fn put_member(members: &mut Vec<(String, Json)>, key: String, value: Json)
    ensures
        members_view(final(members)@) == with_member(members_view(old(members)@), key@, value@),
    decreases old(members)@.len(),
{
    let ghost all = members_view(members@);
    assert(all.len() == members@.len());
    if members.len() == 0 {
        let ghost entry = (key@, value@);
        members.push((key, value));
        assert(members_view(members@) =~= seq![entry]);
        return;
    }
    let n = members.len();
    assert(all.last() == (members@[n - 1].0@, members@[n - 1].1@));
    if same(&members[n - 1].0, &key) {
        let ghost entry = (key@, value@);
        members.set(n - 1, (key, value));
        assert(members_view(members@) =~= all.drop_last().push(entry));
    } else if comes_before(&key, &members[n - 1].0) {
        match members.pop() {
            Some(last) => {
                assert(members_view(members@) =~= all.drop_last());
                put_member(members, key, value);
                let ghost put = members_view(members@);
                members.push(last);
                assert(members_view(members@) =~= put.push(all.last()));
            },
            None => {},
        }
    } else {
        let ghost entry = (key@, value@);
        members.push((key, value));
        assert(members_view(members@) =~= all.push(entry));
    }
}

/// A document with the members of its objects in the order of their keys, each key once.
pub open spec fn canonical(j: SJson) -> SJson
    decreases j, 1nat,
{
    match j {
        SJson::Array(items) => SJson::Array(canonical_all(items)),
        SJson::Object(members) => SJson::Object(canonical_members(members)),
        _ => j,
    }
}

pub open spec fn canonical_all(items: Seq<SJson>) -> Seq<SJson>
    decreases items, 0nat,
{
    if items.len() == 0 {
        Seq::empty()
    } else {
        canonical_all(items.drop_last()).push(canonical(items.last()))
    }
}

pub open spec fn canonical_members(members: Seq<(Seq<char>, SJson)>) -> Seq<(Seq<char>, SJson)>
    decreases members, 0nat,
{
    if members.len() == 0 {
        Seq::empty()
    } else {
        with_member(
            canonical_members(members.drop_last()),
            members.last().0,
            canonical(members.last().1),
        )
    }
}

pub fn canonicalize_json(j: &Json) -> (r: Json)
    ensures
        r@ == canonical(j@),
    decreases j, 1nat,
{
    match j {
        Json::Array(items) => {
            let made = canonicalize_all(items);
            let r = Json::Array(made);
            assert(r@ == SJson::Array(jsons_view(made@)));
            r
        },
        Json::Object(members) => {
            let made = canonicalize_members(members);
            let r = Json::Object(made);
            assert(r@ == SJson::Object(members_view(made@)));
            r
        },
        _ => j.clone(),
    }
}

fn canonicalize_all(items: &Vec<Json>) -> (r: Vec<Json>)
    ensures
        jsons_view(r@) == canonical_all(jsons_view(items@)),
    decreases items, 0nat,
{
    let ghost all = jsons_view(items@);
    let mut r: Vec<Json> = Vec::new();
    let mut i: usize = 0;
    proof {
        assert(all.len() == items@.len());
        assert(all.take(0) =~= Seq::empty());
        assert(jsons_view(r@) =~= Seq::empty());
    }
    while i < items.len()
        invariant
            i <= items.len(),
            all == jsons_view(items@),
            all.len() == items@.len(),
            jsons_view(r@) == canonical_all(all.take(i as int)),
        decreases items.len() - i,
    {
        let ghost so_far = jsons_view(r@);
        proof {
            assert(all.take(i + 1).drop_last() =~= all.take(i as int));
            assert(all.take(i + 1).last() == items@[i as int]@);
        }
        let made = canonicalize_json(&items[i]);
        r.push(made);
        assert(jsons_view(r@) =~= so_far.push(made@));
        i = i + 1;
    }
    assert(all.take(items.len() as int) =~= all);
    r
}

fn canonicalize_members(members: &Vec<(String, Json)>) -> (r: Vec<(String, Json)>)
    ensures
        members_view(r@) == canonical_members(members_view(members@)),
    decreases members, 0nat,
{
    let ghost all = members_view(members@);
    let mut r: Vec<(String, Json)> = Vec::new();
    let mut i: usize = 0;
    proof {
        assert(all.len() == members@.len());
        assert(all.take(0) =~= Seq::empty());
        assert(members_view(r@) =~= Seq::empty());
    }
    while i < members.len()
        invariant
            i <= members.len(),
            all == members_view(members@),
            all.len() == members@.len(),
            members_view(r@) == canonical_members(all.take(i as int)),
        decreases members.len() - i,
    {
        proof {
            assert(all.take(i + 1).drop_last() =~= all.take(i as int));
            assert(all.take(i + 1).last() == (members@[i as int].0@, members@[i as int].1@));
        }
        let made = canonicalize_json(&members[i].1);
        put_member(&mut r, members[i].0.clone(), made);
        i = i + 1;
    }
    assert(all.take(members.len() as int) =~= all);
    r
}

pub open spec fn number_equal(a: SNumber, b: SNumber) -> bool {
    match (a, b) {
        (SNumber::PosInt(x), SNumber::PosInt(y)) => x == y,
        (SNumber::NegInt(x), SNumber::NegInt(y)) => x == y,
        (SNumber::Float(x), SNumber::Float(y)) => float_equal(x, y),
        _ => false,
    }
}

/// Equality of documents whose members stand in the same order.
pub open spec fn same_shape(a: SJson, b: SJson) -> bool
    decreases a, 1nat,
{
    match (a, b) {
        (SJson::Null, SJson::Null) => true,
        (SJson::Bool(x), SJson::Bool(y)) => x == y,
        (SJson::Number(x), SJson::Number(y)) => number_equal(x, y),
        (SJson::Str(x), SJson::Str(y)) => x == y,
        (SJson::Array(x), SJson::Array(y)) => same_shapes(x, y),
        (SJson::Object(x), SJson::Object(y)) => same_members(x, y),
        _ => false,
    }
}

pub open spec fn same_shapes(xs: Seq<SJson>, ys: Seq<SJson>) -> bool
    decreases xs, 0nat,
{
    if xs.len() == 0 || ys.len() == 0 {
        xs.len() == ys.len()
    } else {
        same_shape(xs[0], ys[0]) && same_shapes(xs.drop_first(), ys.drop_first())
    }
}

pub open spec fn same_members(xs: Seq<(Seq<char>, SJson)>, ys: Seq<(Seq<char>, SJson)>) -> bool
    decreases xs, 0nat,
{
    if xs.len() == 0 || ys.len() == 0 {
        xs.len() == ys.len()
    } else {
        xs[0].0 == ys[0].0 && same_shape(xs[0].1, ys[0].1) && same_members(
            xs.drop_first(),
            ys.drop_first(),
        )
    }
}

/// Equality of documents, in whatever order the members of their objects stand.
#[verifier::opaque]
pub open spec fn json_equal(a: SJson, b: SJson) -> bool {
    same_shape(canonical(a), canonical(b))
}

fn equal_numbers(a: &JsonNumber, b: &JsonNumber) -> (r: bool)
    ensures
        r == number_equal(a@, b@),
{
    match (a, b) {
        (JsonNumber::PosInt(x), JsonNumber::PosInt(y)) => *x == *y,
        (JsonNumber::NegInt(x), JsonNumber::NegInt(y)) => *x == *y,
        (JsonNumber::Float(x), JsonNumber::Float(y)) => equal_floats(x, y),
        _ => false,
    }
}

fn equal_shapes(a: &Json, b: &Json) -> (r: bool)
    ensures
        r == same_shape(a@, b@),
    decreases a, 1nat,
{
    match (a, b) {
        (Json::Null, Json::Null) => true,
        (Json::Bool(x), Json::Bool(y)) => *x == *y,
        (Json::Number(x), Json::Number(y)) => equal_numbers(x, y),
        (Json::Str(x), Json::Str(y)) => same(x, y),
        (Json::Array(x), Json::Array(y)) => equal_items(x, y),
        (Json::Object(x), Json::Object(y)) => equal_members(x, y),
        _ => false,
    }
}

fn equal_items(xs: &Vec<Json>, ys: &Vec<Json>) -> (r: bool)
    ensures
        r == same_shapes(jsons_view(xs@), jsons_view(ys@)),
    decreases xs, 0nat,
{
    let ghost a = jsons_view(xs@);
    let ghost b = jsons_view(ys@);
    let mut i: usize = 0;
    proof {
        assert(a.skip(0) =~= a);
        assert(b.skip(0) =~= b);
        assert(a.len() == xs@.len() && b.len() == ys@.len());
    }
    while i < xs.len() && i < ys.len()
        invariant
            i <= xs.len(),
            i <= ys.len(),
            a == jsons_view(xs@),
            b == jsons_view(ys@),
            a.len() == xs@.len(),
            b.len() == ys@.len(),
            same_shapes(a, b) == same_shapes(a.skip(i as int), b.skip(i as int)),
        decreases xs.len() - i,
    {
        proof {
            assert(a.skip(i as int)[0] == xs@[i as int]@);
            assert(b.skip(i as int)[0] == ys@[i as int]@);
            assert(a.skip(i as int).drop_first() =~= a.skip(i + 1));
            assert(b.skip(i as int).drop_first() =~= b.skip(i + 1));
        }
        if !equal_shapes(&xs[i], &ys[i]) {
            return false;
        }
        i = i + 1;
    }
    xs.len() == ys.len()
}

fn equal_members(xs: &Vec<(String, Json)>, ys: &Vec<(String, Json)>) -> (r: bool)
    ensures
        r == same_members(members_view(xs@), members_view(ys@)),
    decreases xs, 0nat,
{
    let ghost a = members_view(xs@);
    let ghost b = members_view(ys@);
    let mut i: usize = 0;
    proof {
        assert(a.skip(0) =~= a);
        assert(b.skip(0) =~= b);
        assert(a.len() == xs@.len() && b.len() == ys@.len());
    }
    while i < xs.len() && i < ys.len()
        invariant
            i <= xs.len(),
            i <= ys.len(),
            a == members_view(xs@),
            b == members_view(ys@),
            a.len() == xs@.len(),
            b.len() == ys@.len(),
            same_members(a, b) == same_members(a.skip(i as int), b.skip(i as int)),
        decreases xs.len() - i,
    {
        proof {
            assert(a.skip(i as int)[0] == (xs@[i as int].0@, xs@[i as int].1@));
            assert(b.skip(i as int)[0] == (ys@[i as int].0@, ys@[i as int].1@));
            assert(a.skip(i as int).drop_first() =~= a.skip(i + 1));
            assert(b.skip(i as int).drop_first() =~= b.skip(i + 1));
        }
        if !same(&xs[i].0, &ys[i].0) || !equal_shapes(&xs[i].1, &ys[i].1) {
            return false;
        }
        i = i + 1;
    }
    xs.len() == ys.len()
}

pub fn equal_json(a: &Json, b: &Json) -> (r: bool)
    ensures
        r == json_equal(a@, b@),
{
    proof {
        reveal(json_equal);
    }
    equal_shapes(&canonicalize_json(a), &canonicalize_json(b))
}

/// Where a key stands among the members, from position `i` on; past the end where it does not.
pub open spec fn member_index(members: Seq<(Seq<char>, SJson)>, key: Seq<char>, i: nat) -> nat
    decreases members.len() - i,
{
    if i >= members.len() {
        members.len()
    } else if members[i as int].0 == key {
        i
    } else {
        member_index(members, key, i + 1)
    }
}

pub fn find_member(members: &Vec<(String, Json)>, key: &str) -> (r: usize)
    ensures
        r == member_index(members_view(members@), key@, 0),
        r <= members@.len(),
{
    let ghost all = members_view(members@);
    let mut i: usize = 0;
    assert(all.len() == members@.len());
    while i < members.len()
        invariant
            i <= members.len(),
            all == members_view(members@),
            all.len() == members@.len(),
            member_index(all, key@, 0) == member_index(all, key@, i as nat),
        decreases members.len() - i,
    {
        assert(all[i as int] == (members@[i as int].0@, members@[i as int].1@));
        if same(&members[i].0, key) {
            return i;
        }
        i = i + 1;
    }
    i
}

/// The members with one more: in place of the one that has its key, or at the end where none has it.
pub open spec fn placed_member(members: Seq<(Seq<char>, SJson)>, key: Seq<char>, v: SJson) -> Seq<
    (Seq<char>, SJson),
> {
    let i = member_index(members, key, 0);
    if i < members.len() {
        members.update(i as int, (key, v))
    } else {
        members.push((key, v))
    }
}

pub fn place_member(members: &mut Vec<(String, Json)>, key: String, value: Json)
    ensures
        members_view(final(members)@) == placed_member(members_view(old(members)@), key@, value@),
{
    let ghost all = members_view(members@);
    let ghost entry = (key@, value@);
    let i = find_member(members, &key);
    assert(all.len() == members@.len());
    if i < members.len() {
        members.set(i, (key, value));
        assert(members_view(members@) =~= all.update(i as int, entry));
    } else {
        members.push((key, value));
        assert(members_view(members@) =~= all.push(entry));
    }
}

/// Whether each floating-point number of a document is a number: none is the value that differs
/// from itself.
pub open spec fn numeric(j: SJson) -> bool
    decreases j, 1nat,
{
    match j {
        SJson::Number(SNumber::Float(f)) => !nan_bits(f.bits),
        SJson::Array(items) => all_numeric(items),
        SJson::Object(members) => members_numeric(members),
        _ => true,
    }
}

pub open spec fn all_numeric(items: Seq<SJson>) -> bool
    decreases items, 0nat,
{
    forall|i: int| 0 <= i < items.len() ==> numeric(#[trigger] items[i])
}

pub open spec fn members_numeric(items: Seq<(Seq<char>, SJson)>) -> bool
    decreases items, 0nat,
{
    forall|i: int| 0 <= i < items.len() ==> numeric((#[trigger] items[i]).1)
}

proof fn numeric_is_itself(j: SJson)
    requires
        numeric(j),
    ensures
        same_shape(j, j),
    decreases j, 1nat,
{
    match j {
        SJson::Array(items) => {
            all_are_themselves(items);
        },
        SJson::Object(members) => {
            members_are_themselves(members);
        },
        _ => {},
    }
}

proof fn all_are_themselves(items: Seq<SJson>)
    requires
        all_numeric(items),
    ensures
        same_shapes(items, items),
    decreases items, 0nat,
{
    if items.len() > 0 {
        numeric_is_itself(items[0]);
        assert forall|i: int| 0 <= i < items.drop_first().len() implies numeric(
            #[trigger] items.drop_first()[i],
        ) by {
            assert(items.drop_first()[i] == items[i + 1]);
        }
        all_are_themselves(items.drop_first());
    }
}

proof fn members_are_themselves(items: Seq<(Seq<char>, SJson)>)
    requires
        members_numeric(items),
    ensures
        same_members(items, items),
    decreases items, 0nat,
{
    if items.len() > 0 {
        assert(numeric(items[0].1));
        numeric_is_itself(items[0].1);
        assert forall|i: int| 0 <= i < items.drop_first().len() implies numeric(
            (#[trigger] items.drop_first()[i]).1,
        ) by {
            assert(items.drop_first()[i] == items[i + 1]);
        }
        members_are_themselves(items.drop_first());
    }
}

proof fn canonical_stays_numeric(j: SJson)
    requires
        numeric(j),
    ensures
        numeric(canonical(j)),
    decreases j, 1nat,
{
    match j {
        SJson::Array(items) => {
            canonical_all_stay_numeric(items);
        },
        SJson::Object(members) => {
            canonical_members_stay_numeric(members);
        },
        _ => {},
    }
}

proof fn canonical_all_stay_numeric(items: Seq<SJson>)
    requires
        all_numeric(items),
    ensures
        all_numeric(canonical_all(items)),
    decreases items, 0nat,
{
    if items.len() > 0 {
        let rest = items.drop_last();
        assert forall|i: int| 0 <= i < rest.len() implies numeric(#[trigger] rest[i]) by {
            assert(rest[i] == items[i]);
        }
        canonical_all_stay_numeric(rest);
        assert(numeric(items[items.len() - 1]));
        canonical_stays_numeric(items.last());
    }
}

proof fn canonical_members_stay_numeric(items: Seq<(Seq<char>, SJson)>)
    requires
        members_numeric(items),
    ensures
        members_numeric(canonical_members(items)),
    decreases items, 0nat,
{
    if items.len() > 0 {
        let rest = items.drop_last();
        assert forall|i: int| 0 <= i < rest.len() implies numeric((#[trigger] rest[i]).1) by {
            assert(rest[i] == items[i]);
        }
        canonical_members_stay_numeric(rest);
        assert(numeric(items[items.len() - 1].1));
        canonical_stays_numeric(items.last().1);
        member_stays_numeric(canonical_members(rest), items.last().0, canonical(items.last().1));
    }
}

proof fn member_stays_numeric(items: Seq<(Seq<char>, SJson)>, key: Seq<char>, v: SJson)
    requires
        members_numeric(items),
        numeric(v),
    ensures
        members_numeric(with_member(items, key, v)),
    decreases items.len(),
{
    if items.len() > 0 {
        let rest = items.drop_last();
        assert forall|i: int| 0 <= i < rest.len() implies numeric((#[trigger] rest[i]).1) by {
            assert(rest[i] == items[i]);
        }
        member_stays_numeric(rest, key, v);
        assert(numeric(items[items.len() - 1].1));
    }
}

/// An object keeps to numbers when a member that does is placed in it.
pub proof fn placed_stays_numeric(members: Seq<(Seq<char>, SJson)>, key: Seq<char>, v: SJson)
    requires
        members_numeric(members),
        numeric(v),
    ensures
        members_numeric(placed_member(members, key, v)),
{
}

/// A document in which each floating-point number is a number equals itself.
pub proof fn documents_equal_themselves(j: SJson)
    requires
        numeric(j),
    ensures
        json_equal(j, j),
{
    reveal(json_equal);
    canonical_stays_numeric(j);
    numeric_is_itself(canonical(j));
}

} // verus!
