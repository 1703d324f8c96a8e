//! JSON text. Documents are handed to and taken from the `serde_json` crate, which writes and reads
//! the text; the names below stand for what it gives.

use vstd::prelude::*;
use vstd::utf8::encode_utf8;

use crate::ast::{Float, SFloat};
use crate::json::{
    all_numeric, jsons_view, members_numeric, members_view, numeric, placed_member, Json,
    JsonNumber, SJson, SNumber,
};
use crate::values::finite_bits;

verus! {

broadcast use vstd::seq_lib::group_seq_properties;

/// A document as the crate holds it.
#[verifier::external_body]
pub struct Wire {
    inner: serde_json::Value,
}

#[verifier::external_type_specification]
#[verifier::external_body]
pub struct ExternalNumber(serde_json::Number);

/// The document that a value of the crate holds: numbers as the crate tells them apart, a
/// floating-point number by its bits and by the text that the standard library gives it.
pub uninterp spec fn serde_content(v: Wire) -> SJson;

/// The number that a number of the crate holds.
pub uninterp spec fn number_content(n: serde_json::Number) -> SNumber;

/// The finite floating-point number that a text reads as, if it reads as one.
pub uninterp spec fn wire_float(text: Seq<char>) -> Option<SFloat>;

/// The floating-point number nearest to an integer.
pub uninterp spec fn nearest_float(n: int) -> SFloat;

/// The compact text of a document.
pub uninterp spec fn json_text(j: SJson) -> Seq<char>;

/// The bytes of the compact text of a document.
pub uninterp spec fn json_bytes(j: SJson) -> Seq<u8>;

/// The document that a text holds, or why it holds none.
pub uninterp spec fn parsed_json(text: Seq<char>) -> Result<SJson, Seq<char>>;

pub open spec fn contents(items: Seq<Wire>) -> Seq<SJson> {
    Seq::new(items.len(), |i: int| serde_content(items[i]))
}

pub open spec fn member_contents(items: Seq<(String, Wire)>) -> Seq<
    (Seq<char>, SJson),
> {
    Seq::new(items.len(), |i: int| (items[i].0@, serde_content(items[i].1)))
}

/// Some members in the order in which their keys first come; of several with one key the last.
pub open spec fn collected_members(members: Seq<(Seq<char>, SJson)>) -> Seq<(Seq<char>, SJson)>
    decreases members.len(),
{
    if members.len() == 0 {
        Seq::empty()
    } else {
        placed_member(
            collected_members(members.drop_last()),
            members.last().0,
            members.last().1,
        )
    }
}

/// `serde_json::Value::Null` holds null.
#[verifier::external_body]
fn wire_null() -> (r: Wire)
    ensures
        serde_content(r) == SJson::Null,
{
    Wire { inner: serde_json::Value::Null }
}

/// `serde_json::Value::Bool` holds the boolean.
#[verifier::external_body]
fn wire_bool(b: bool) -> (r: Wire)
    ensures
        serde_content(r) == SJson::Bool(b),
{
    Wire { inner: serde_json::Value::Bool(b) }
}

/// `serde_json::Number::from::<u64>` holds the integer as one that is not negative.
#[verifier::external_body]
fn wire_natural(n: u64) -> (r: Wire)
    ensures
        serde_content(r) == SJson::Number(SNumber::PosInt(n)),
{
    Wire { inner: serde_json::Value::Number(serde_json::Number::from(n)) }
}

/// `serde_json::Number::from::<i64>` tells negative integers from the others.
#[verifier::external_body]
fn wire_integer(n: i64) -> (r: Wire)
    ensures
        serde_content(r) == SJson::Number(
            if n < 0 {
                SNumber::NegInt(n)
            } else {
                SNumber::PosInt(n as u64)
            },
        ),
{
    Wire { inner: serde_json::Value::Number(serde_json::Number::from(n)) }
}

/// `serde_json::Number::from_f64` on the number that `str::parse` reads from the text, where it is
/// finite. What stands between the two calls is a floating-point number, which nothing outside this
/// body can hold.
#[verifier::external_body]
fn wire_number(text: &str) -> (r: Option<Wire>)
    ensures
        match r {
            Some(v) => wire_float(text@) is Some && serde_content(v) == SJson::Number(
                SNumber::Float(wire_float(text@)->Some_0),
            ),
            None => wire_float(text@) is None,
        },
{
    let number = text.parse().ok().and_then(serde_json::Number::from_f64);
    number.map(|n| Wire { inner: serde_json::Value::Number(n) })
}

/// `serde_json::Value::String` holds the text.
#[verifier::external_body]
fn wire_string(s: &str) -> (r: Wire)
    ensures
        serde_content(r) == SJson::Str(s@),
{
    Wire { inner: serde_json::Value::String(s.to_owned()) }
}

/// `serde_json::Value::Array` holds the items in their order.
#[verifier::external_body]
fn wire_array(items: Vec<Wire>) -> (r: Wire)
    ensures
        serde_content(r) == SJson::Array(contents(items@)),
{
    Wire { inner: serde_json::Value::Array(items.into_iter().map(|w| w.inner).collect()) }
}

/// `serde_json::Map::from_iter`, with the crate's `preserve_order`, keeps the members in the order
/// in which their keys first come, and of several with one key the last value.
#[verifier::external_body]
fn wire_object(members: Vec<(String, Wire)>) -> (r: Wire)
    ensures
        serde_content(r) == SJson::Object(collected_members(member_contents(members@))),
{
    let members = members.into_iter().map(|(key, w)| (key, w.inner)).collect();
    Wire { inner: serde_json::Value::Object(members) }
}

/// `serde_json::Number::as_f64` gives the nearest floating-point number of an integer.
#[verifier::external_body]
fn wire_nearest(n: i128) -> (r: Float)
    requires
        i64::MIN <= n <= u64::MAX,
    ensures
        r@ == nearest_float(n as int),
{
    let x = serde_json::Number::from_i128(n).and_then(|n| n.as_f64()).unwrap_or_default();
    Float { bits: x.to_bits(), text: x.to_string() }
}

/// `serde_json::to_string` on a document gives its compact text, and does not fail.
#[verifier::external_body]
fn wire_text(v: &Wire) -> (r: String)
    ensures
        r@ == json_text(serde_content(*v)),
{
    serde_json::to_string(&v.inner).unwrap_or_default()
}

/// `serde_json::to_vec` on a document gives the bytes of its compact text, and does not fail. The
/// compact form has no line feed: between tokens it has nothing, and in strings control characters
/// are escaped. What the bytes encode is a text that `serde_json::from_str` accepts, and accepts
/// with a line feed behind it, which is white space.
#[verifier::external_body]
fn wire_bytes(v: &Wire) -> (r: Vec<u8>)
    ensures
        r@ == json_bytes(serde_content(*v)),
        forall|i: int| 0 <= i < r@.len() ==> #[trigger] r@[i] != 10,
        document_line(r@),
{
    serde_json::to_vec(&v.inner).unwrap_or_default()
}

/// `serde_json::from_str` gives the document that the text holds, or an error, of which the text is
/// kept.
#[verifier::external_body]
fn wire_parse(text: &str) -> (r: Result<Wire, String>)
    ensures
        match r {
            Ok(v) => parsed_json(text@) == Ok::<SJson, Seq<char>>(serde_content(v)),
            Err(m) => parsed_json(text@) == Err::<SJson, Seq<char>>(m@),
        },
{
    serde_json::from_str(text).map(|inner| Wire { inner }).map_err(|error| error.to_string())
}

/// Whether a text is a document, however deep.
pub uninterp spec fn json_syntax(text: Seq<char>) -> bool;

/// Whether bytes encode a text that is a document, with a line feed behind it or without.
pub open spec fn document_line(bytes: Seq<u8>) -> bool {
    exists|s: Seq<char>|
        encode_utf8(s) == bytes && #[trigger] json_syntax(s) && json_syntax(s.push('\n'))
}

/// `serde_json::from_str` into `serde::de::IgnoredAny`: whether the text is one document, of which
/// nothing is kept.
#[verifier::external_body]
pub(crate) fn is_json_text(text: &str) -> (r: bool)
    ensures
        r == json_syntax(text@),
{
    serde_json::from_str::<serde::de::IgnoredAny>(text).is_ok()
}

/// One level of a document of the crate.
pub enum Opened {
    Null,
    Bool(bool),
    Number(serde_json::Number),
    Str(String),
    Array(Vec<Wire>),
    Object(Vec<(String, Wire)>),
}

pub open spec fn opened_content(o: Opened) -> SJson {
    match o {
        Opened::Null => SJson::Null,
        Opened::Bool(b) => SJson::Bool(b),
        Opened::Number(n) => SJson::Number(number_content(n)),
        Opened::Str(s) => SJson::Str(s@),
        Opened::Array(items) => SJson::Array(contents(items@)),
        Opened::Object(members) => SJson::Object(member_contents(members@)),
    }
}

/// The variants of `serde_json::Value` hold what the document holds.
#[verifier::external_body]
fn open_value(v: Wire) -> (r: Opened)
    ensures
        opened_content(r) == serde_content(v),
{
    match v.inner {
        serde_json::Value::Null => Opened::Null,
        serde_json::Value::Bool(b) => Opened::Bool(b),
        serde_json::Value::Number(n) => Opened::Number(n),
        serde_json::Value::String(s) => Opened::Str(s),
        serde_json::Value::Array(items) => {
            Opened::Array(items.into_iter().map(|inner| Wire { inner }).collect())
        },
        serde_json::Value::Object(members) => {
            Opened::Object(members.into_iter().map(|(k, inner)| (k, Wire { inner })).collect())
        },
    }
}

/// `serde_json::Number::as_u64`, `as_i64` and `as_f64` tell the numbers apart. A floating-point
/// number of the crate is finite.
#[verifier::external_body]
fn open_number(n: &serde_json::Number) -> (r: JsonNumber)
    ensures
        r@ == number_content(*n),
        r@ matches SNumber::Float(f) ==> finite_bits(f.bits),
{
    match (n.as_u64(), n.as_i64()) {
        (Some(u), _) => JsonNumber::PosInt(u),
        (None, Some(i)) => JsonNumber::NegInt(i),
        (None, None) => {
            let x = n.as_f64().unwrap_or_default();
            JsonNumber::Float(Float { bits: x.to_bits(), text: x.to_string() })
        },
    }
}

/// What the crate holds of a document: each floating-point number is the one that its text reads
/// as, and null where it reads as none.
pub open spec fn wired(j: SJson) -> SJson
    decreases j, 1nat,
{
    match j {
        SJson::Number(n) => wired_number(n),
        SJson::Array(items) => SJson::Array(wired_all(items)),
        SJson::Object(members) => SJson::Object(collected_members(wired_members(members))),
        _ => j,
    }
}

pub open spec fn wired_number(n: SNumber) -> SJson {
    match n {
        SNumber::PosInt(_) => SJson::Number(n),
        SNumber::NegInt(i) => SJson::Number(
            if i < 0 {
                n
            } else {
                SNumber::PosInt(i as u64)
            },
        ),
        SNumber::Float(f) => match wire_float(f.text) {
            Some(x) => SJson::Number(SNumber::Float(x)),
            None => SJson::Null,
        },
    }
}

pub open spec fn wired_all(items: Seq<SJson>) -> Seq<SJson>
    decreases items, 0nat,
{
    Seq::new(
        items.len(),
        |i: int|
            if 0 <= i < items.len() {
                wired(items[i])
            } else {
                arbitrary()
            },
    )
}

pub open spec fn wired_members(members: Seq<(Seq<char>, SJson)>) -> Seq<(Seq<char>, SJson)>
    decreases members, 0nat,
{
    Seq::new(
        members.len(),
        |i: int|
            if 0 <= i < members.len() {
                (members[i].0, wired(members[i].1))
            } else {
                arbitrary()
            },
    )
}

fn to_wire(j: &Json) -> (r: Wire)
    ensures
        serde_content(r) == wired(j@),
    decreases j, 1nat,
{
    match j {
        Json::Null => wire_null(),
        Json::Bool(b) => wire_bool(*b),
        Json::Number(JsonNumber::PosInt(n)) => wire_natural(*n),
        Json::Number(JsonNumber::NegInt(n)) => wire_integer(*n),
        Json::Number(JsonNumber::Float(f)) => match wire_number(&f.text) {
            Some(v) => v,
            None => wire_null(),
        },
        Json::Str(s) => wire_string(s),
        Json::Array(items) => wire_array(to_wire_all(items)),
        Json::Object(members) => wire_object(to_wire_members(members)),
    }
}

fn to_wire_all(items: &Vec<Json>) -> (r: Vec<Wire>)
    ensures
        contents(r@) == wired_all(jsons_view(items@)),
    decreases items, 0nat,
{
    let ghost all = jsons_view(items@);
    let mut r: Vec<Wire> = Vec::new();
    let mut i: usize = 0;
    assert(all.len() == items@.len());
    while i < items.len()
        invariant
            i <= items.len(),
            r.len() == i,
            all == jsons_view(items@),
            all.len() == items@.len(),
            forall|j: int| 0 <= j < i ==> serde_content(#[trigger] r@[j]) == wired(all[j]),
        decreases items.len() - i,
    {
        assert(all[i as int] == items@[i as int]@);
        r.push(to_wire(&items[i]));
        i = i + 1;
    }
    assert(contents(r@) =~= wired_all(all));
    r
}

fn to_wire_members(members: &Vec<(String, Json)>) -> (r: Vec<(String, Wire)>)
    ensures
        member_contents(r@) == wired_members(members_view(members@)),
    decreases members, 0nat,
{
    let ghost all = members_view(members@);
    let mut r: Vec<(String, Wire)> = Vec::new();
    let mut i: usize = 0;
    assert(all.len() == members@.len());
    while i < members.len()
        invariant
            i <= members.len(),
            r.len() == i,
            all == members_view(members@),
            all.len() == members@.len(),
            forall|j: int|
                0 <= j < i ==> (#[trigger] r@[j]).0@ == all[j].0 && serde_content(r@[j].1)
                    == wired(all[j].1),
        decreases members.len() - i,
    {
        assert(all[i as int] == (members@[i as int].0@, members@[i as int].1@));
        r.push((members[i].0.clone(), to_wire(&members[i].1)));
        i = i + 1;
    }
    assert(member_contents(r@) =~= wired_members(all));
    r
}

fn from_wire(v: Wire) -> (r: Json)
    ensures
        r@ == serde_content(v),
        numeric(r@),
    decreases serde_content(v), 1nat,
{
    let ghost content = serde_content(v);
    match open_value(v) {
        Opened::Null => Json::Null,
        Opened::Bool(b) => Json::Bool(b),
        Opened::Number(n) => Json::Number(open_number(&n)),
        Opened::Str(s) => Json::Str(s),
        Opened::Array(items) => {
            assert(content == SJson::Array(contents(items@)));
            assert(decreases_to!(content => content->Array_0));
            let made = from_wire_all(items);
            let r = Json::Array(made);
            assert(r@ == SJson::Array(jsons_view(made@)));
            r
        },
        Opened::Object(members) => {
            assert(content == SJson::Object(member_contents(members@)));
            assert(decreases_to!(content => content->Object_0));
            let made = from_wire_members(members);
            let r = Json::Object(made);
            assert(r@ == SJson::Object(members_view(made@)));
            r
        },
    }
}

fn from_wire_all(given: Vec<Wire>) -> (r: Vec<Json>)
    ensures
        jsons_view(r@) == contents(given@),
        all_numeric(jsons_view(r@)),
    decreases contents(given@), 0nat,
{
    let ghost all = contents(given@);
    let mut items = given;
    let mut r: Vec<Json> = Vec::new();
    let ghost n = items@.len();
    proof {
        assert(jsons_view(r@) =~= Seq::empty());
        assert(all.skip(0) =~= all);
    }
    while items.len() > 0
        invariant
            r@.len() + items@.len() == n,
            all == contents(given@),
            all.len() == n,
            contents(items@) == all.skip(r@.len() as int),
            jsons_view(r@) == all.take(r@.len() as int),
            all_numeric(jsons_view(r@)),
        decreases items.len(),
    {
        let ghost so_far = jsons_view(r@);
        let ghost k = r@.len() as int;
        let ghost rest = items@;
        let v = items.remove(0);
        proof {
            assert(contents(rest)[0] == all[k]);
            assert(serde_content(v) == all[k]);
            assert(contents(items@) =~= all.skip(k + 1));
            assert(decreases_to!(all => all[k]));
        }
        let made = from_wire(v);
        r.push(made);
        proof {
            assert(jsons_view(r@) =~= so_far.push(made@));
            assert(all.take(k + 1) =~= all.take(k).push(all[k]));
        }
    }
    assert(all.take(n as int) =~= all);
    r
}

fn from_wire_members(given: Vec<(String, Wire)>) -> (r: Vec<(String, Json)>)
    ensures
        members_view(r@) == member_contents(given@),
        members_numeric(members_view(r@)),
    decreases member_contents(given@), 0nat,
{
    let ghost all = member_contents(given@);
    let mut members = given;
    let mut r: Vec<(String, Json)> = Vec::new();
    let ghost n = members@.len();
    proof {
        assert(members_view(r@) =~= Seq::empty());
        assert(all.skip(0) =~= all);
    }
    while members.len() > 0
        invariant
            r@.len() + members@.len() == n,
            all == member_contents(given@),
            all.len() == n,
            member_contents(members@) == all.skip(r@.len() as int),
            members_view(r@) == all.take(r@.len() as int),
            members_numeric(members_view(r@)),
        decreases members.len(),
    {
        let ghost so_far = members_view(r@);
        let ghost k = r@.len() as int;
        let ghost rest = members@;
        let (key, v) = members.remove(0);
        proof {
            assert(member_contents(rest)[0] == all[k]);
            assert(all[k] == (key@, serde_content(v)));
            assert(member_contents(members@) =~= all.skip(k + 1));
            assert(decreases_to!(all => all[k]));
            assert(decreases_to!(all[k] => all[k].1));
        }
        let made = from_wire(v);
        let ghost entry = (key@, made@);
        r.push((key, made));
        proof {
            assert(members_view(r@) =~= so_far.push(entry));
            assert(all.take(k + 1) =~= all.take(k).push(all[k]));
        }
    }
    assert(all.take(n as int) =~= all);
    r
}

/// The compact text of a document.
pub fn render(j: &Json) -> (r: String)
    ensures
        r@ == json_text(wired(j@)),
{
    wire_text(&to_wire(j))
}

/// The bytes of the compact text of a document.
pub fn render_bytes(j: &Json) -> (r: Vec<u8>)
    ensures
        r@ == json_bytes(wired(j@)),
        forall|i: int| 0 <= i < r@.len() ==> #[trigger] r@[i] != 10,
        document_line(r@),
{
    wire_bytes(&to_wire(j))
}

pub open spec fn parse_result(r: Result<Json, String>) -> Result<SJson, Seq<char>> {
    match r {
        Ok(j) => Ok(j@),
        Err(m) => Err(m@),
    }
}

/// Reads a document. Each floating-point number in it is a number.
pub fn parse_json(text: &str) -> (r: Result<Json, String>)
    ensures
        parse_result(r) == parsed_json(text@),
        r matches Ok(j) ==> numeric(j@),
{
    match wire_parse(text) {
        Ok(v) => Ok(from_wire(v)),
        Err(m) => Err(m),
    }
}

/// A number as a floating-point number.
pub open spec fn number_float(n: SNumber) -> SFloat {
    match n {
        SNumber::PosInt(i) => nearest_float(i as int),
        SNumber::NegInt(i) => nearest_float(i as int),
        SNumber::Float(f) => f,
    }
}

pub fn number_to_float(n: &JsonNumber) -> (r: Float)
    ensures
        r@ == number_float(n@),
{
    match n {
        JsonNumber::PosInt(i) => wire_nearest(*i as i128),
        JsonNumber::NegInt(i) => wire_nearest(*i as i128),
        JsonNumber::Float(f) => f.clone(),
    }
}

} // verus!
