//! What equality of values means: annotations do not count, scalars are equal where they are the
//! same, and compound values are equal where their parts are.

use vstd::prelude::*;

use crate::ast::{SFn, SValue};
use crate::env::keyed;
use crate::types::SType;
use crate::values::{
    all_equal, bare, bare_equal, entries_equal, entry_among, fields_equal, members_equal, nan_bits,
    value_among, values_equal,
};

verus! {

broadcast use vstd::seq_lib::group_seq_properties;

/// Annotations do not count for equality.
pub proof fn equality_ignores_annotations(a: SValue, t: SType, b: SValue)
    ensures
        values_equal(SValue::Typed(Box::new(a), t), b) == values_equal(a, b),
        values_equal(b, SValue::Typed(Box::new(a), t)) == values_equal(b, a),
    decreases b,
{
    match b {
        SValue::Typed(inner, _) => {
            equality_ignores_annotations(a, t, *inner);
            under_annotations(b, a);
        },
        _ => {},
    }
}

/// Two values are equal exactly where what is under their annotations is.
pub proof fn under_annotations(a: SValue, b: SValue)
    ensures
        values_equal(a, b) == values_equal(bare(a), bare(b)),
        values_equal(a, b) == bare_equal(bare(a), bare(b)),
        !(bare(a) is Typed),
    decreases a, b,
{
    match a {
        SValue::Typed(x, _) => {
            under_annotations(*x, b);
        },
        _ => match b {
            SValue::Typed(y, _) => {
                under_annotations(a, *y);
            },
            _ => {},
        },
    }
}

/// Whether a value has no parts that are values, and is told from others by what it holds.
pub open spec fn scalar(v: SValue) -> bool {
    match v {
        SValue::Unit => true,
        SValue::Str(_) => true,
        SValue::Int(_) => true,
        SValue::Bool(_) => true,
        SValue::Keyword(_) => true,
        SValue::Symbol(_) => true,
        SValue::BuiltinFn(_) => true,
        SValue::Type(_) => true,
        SValue::TypeTag(_) => true,
        SValue::TypeDecl(_) => true,
        SValue::TypeDescriptor(_) => true,
        SValue::SemanticTypeId(_) => true,
        _ => false,
    }
}

/// A scalar equals itself and nothing else.
pub proof fn scalars_equal_themselves_alone(a: SValue, b: SValue)
    requires
        scalar(a),
        !(b is Typed),
    ensures
        values_equal(a, b) <==> a == b,
        values_equal(b, a) <==> a == b,
{
    reveal_with_fuel(values_equal, 3);
    reveal_with_fuel(bare_equal, 3);
}

/// Functions are equal where they are the same function, and nothing else is equal to one.
pub proof fn functions_equal_by_identity(f: SFn, b: SValue)
    requires
        !(b is Typed),
    ensures
        values_equal(SValue::Fn(f), b) <==> (b matches SValue::Fn(g) && f.identity == g.identity),
{
    reveal_with_fuel(values_equal, 3);
    reveal_with_fuel(bare_equal, 3);
}

/// Floating-point numbers are equal where they have the same bits and are numbers, and the two zeros
/// are equal.
pub proof fn floats_are_equal_by_value(a: SValue, b: SValue)
    requires
        a is Float,
        !(b is Typed),
    ensures
        values_equal(a, b) ==> b is Float,
        b is Float && a->Float_0.bits == b->Float_0.bits ==> (values_equal(a, b)
            <==> !nan_bits(a->Float_0.bits)),
        b is Float && a->Float_0.bits != b->Float_0.bits ==> (values_equal(a, b) <==> (
        a->Float_0.bits == 0 && b->Float_0.bits == 0x8000_0000_0000_0000) || (a->Float_0.bits
            == 0x8000_0000_0000_0000 && b->Float_0.bits == 0)),
{
    reveal_with_fuel(values_equal, 3);
    reveal_with_fuel(bare_equal, 3);
    if b is Float {
        let x = a->Float_0.bits;
        let y = b->Float_0.bits;
        assert(x % 0x8000_0000_0000_0000 == 0 ==> x == 0 || x == 0x8000_0000_0000_0000);
        assert(y % 0x8000_0000_0000_0000 == 0 ==> y == 0 || y == 0x8000_0000_0000_0000);
        assert(!nan_bits(0));
        assert(!nan_bits(0x8000_0000_0000_0000));
    }
}

proof fn all_equal_is_pointwise(xs: Seq<SValue>, ys: Seq<SValue>)
    ensures
        all_equal(xs, ys) <==> xs.len() == ys.len() && forall|i: int|
            0 <= i < xs.len() ==> values_equal(#[trigger] xs[i], ys[i]),
    decreases xs.len(),
{
    if xs.len() > 0 && ys.len() > 0 {
        let (a, b) = (xs.drop_first(), ys.drop_first());
        all_equal_is_pointwise(a, b);
        if xs.len() == ys.len() {
            if all_equal(xs, ys) {
                assert forall|i: int| 0 <= i < xs.len() implies values_equal(
                    #[trigger] xs[i],
                    ys[i],
                ) by {
                    if i > 0 {
                        assert(xs[i] == a[i - 1] && ys[i] == b[i - 1]);
                    }
                }
            }
            if forall|i: int| 0 <= i < xs.len() ==> values_equal(#[trigger] xs[i], ys[i]) {
                assert(values_equal(xs[0], ys[0]));
                assert forall|i: int| 0 <= i < a.len() implies values_equal(
                    #[trigger] a[i],
                    b[i],
                ) by {
                    assert(a[i] == xs[i + 1] && b[i] == ys[i + 1]);
                }
            }
        }
    }
}

/// Lists are equal where they are as long and have equal items at each place, and so are products;
/// no list equals a product.
pub proof fn sequences_are_equal_item_by_item(xs: Seq<SValue>, ys: Seq<SValue>)
    ensures
        values_equal(SValue::List(xs), SValue::List(ys)) <==> xs.len() == ys.len() && forall|i: int|
            0 <= i < xs.len() ==> values_equal(#[trigger] xs[i], ys[i]),
        values_equal(SValue::Product(xs), SValue::Product(ys)) <==> xs.len() == ys.len()
            && forall|i: int| 0 <= i < xs.len() ==> values_equal(#[trigger] xs[i], ys[i]),
        !values_equal(SValue::List(xs), SValue::Product(ys)),
        !values_equal(SValue::Product(xs), SValue::List(ys)),
{
    reveal_with_fuel(values_equal, 3);
    reveal_with_fuel(bare_equal, 3);
    all_equal_is_pointwise(xs, ys);
}

/// Whether a record has a field of the same name with an equal value.
pub open spec fn field_matches(x: (Seq<char>, SValue), ys: Seq<(Seq<char>, SValue)>) -> bool {
    keyed(ys, x.0, 0) matches Some(y) && values_equal(x.1, y)
}

proof fn fields_equal_is_pointwise(xs: Seq<(Seq<char>, SValue)>, ys: Seq<(Seq<char>, SValue)>)
    ensures
        fields_equal(xs, ys) <==> forall|i: int|
            0 <= i < xs.len() ==> field_matches(#[trigger] xs[i], ys),
    decreases xs.len(),
{
    if xs.len() > 0 {
        let rest = xs.drop_first();
        fields_equal_is_pointwise(rest, ys);
        if fields_equal(xs, ys) {
            assert forall|i: int| 0 <= i < xs.len() implies field_matches(#[trigger] xs[i], ys) by {
                if i > 0 {
                    assert(xs[i] == rest[i - 1]);
                }
            }
        }
        if forall|i: int| 0 <= i < xs.len() ==> field_matches(#[trigger] xs[i], ys) {
            assert(field_matches(xs[0], ys));
            assert forall|i: int| 0 <= i < rest.len() implies field_matches(
                #[trigger] rest[i],
                ys,
            ) by {
                assert(rest[i] == xs[i + 1]);
            }
        }
    }
}

/// Records are equal where they have as many fields and each field of one has an equal value in the
/// other. In particular, two values under one name, of which neither equals the other, keep records
/// apart.
pub proof fn records_are_equal_field_by_field(
    xs: Seq<(Seq<char>, SValue)>,
    ys: Seq<(Seq<char>, SValue)>,
)
    ensures
        values_equal(SValue::Record(xs), SValue::Record(ys)) <==> xs.len() == ys.len()
            && forall|i: int| 0 <= i < xs.len() ==> field_matches(#[trigger] xs[i], ys),
        forall|name: Seq<char>|
            values_equal(SValue::Record(xs), SValue::Record(ys)) && (#[trigger] keyed(
                xs,
                name,
                0,
            )) is Some ==> keyed(ys, name, 0) is Some && values_equal(
                keyed(xs, name, 0)->Some_0,
                keyed(ys, name, 0)->Some_0,
            ),
{
    reveal_with_fuel(values_equal, 3);
    reveal_with_fuel(bare_equal, 3);
    fields_equal_is_pointwise(xs, ys);
    assert forall|name: Seq<char>|
        values_equal(SValue::Record(xs), SValue::Record(ys)) && (#[trigger] keyed(
            xs,
            name,
            0,
        )) is Some implies keyed(ys, name, 0) is Some && values_equal(
        keyed(xs, name, 0)->Some_0,
        keyed(ys, name, 0)->Some_0,
    ) by {
        let k = crate::holding::keyed_is_among(xs, name, 0);
        assert(field_matches(xs[k], ys));
    }
}

/// Whether a map has an entry with an equal key and an equal value.
pub open spec fn entry_matches(x: (SValue, SValue), ys: Seq<(SValue, SValue)>) -> bool {
    exists|j: int|
        0 <= j < ys.len() && values_equal(x.0, (#[trigger] ys[j]).0) && values_equal(x.1, ys[j].1)
}

proof fn entry_among_is_some(x: (SValue, SValue), ys: Seq<(SValue, SValue)>)
    ensures
        entry_among(x, ys) <==> entry_matches(x, ys),
    decreases ys.len(),
{
    if ys.len() > 0 {
        let rest = ys.drop_first();
        entry_among_is_some(x, rest);
        if entry_among(x, ys) {
            if entry_among(x, rest) {
                let j = choose|j: int|
                    0 <= j < rest.len() && values_equal(x.0, (#[trigger] rest[j]).0)
                        && values_equal(x.1, rest[j].1);
                assert(rest[j] == ys[j + 1]);
            } else {
                assert(values_equal(x.0, ys[0].0));
            }
        }
        if entry_matches(x, ys) {
            let j = choose|j: int|
                0 <= j < ys.len() && values_equal(x.0, (#[trigger] ys[j]).0) && values_equal(
                    x.1,
                    ys[j].1,
                );
            if j > 0 {
                assert(rest[j - 1] == ys[j]);
            }
        }
    }
}

proof fn entries_equal_is_pointwise(xs: Seq<(SValue, SValue)>, ys: Seq<(SValue, SValue)>)
    ensures
        entries_equal(xs, ys) <==> forall|i: int|
            0 <= i < xs.len() ==> entry_matches(#[trigger] xs[i], ys),
    decreases xs.len(),
{
    if xs.len() > 0 {
        let rest = xs.drop_first();
        entries_equal_is_pointwise(rest, ys);
        entry_among_is_some(xs[0], ys);
        if entries_equal(xs, ys) {
            assert forall|i: int| 0 <= i < xs.len() implies entry_matches(#[trigger] xs[i], ys) by {
                if i > 0 {
                    assert(xs[i] == rest[i - 1]);
                }
            }
        }
        if forall|i: int| 0 <= i < xs.len() ==> entry_matches(#[trigger] xs[i], ys) {
            assert(entry_matches(xs[0], ys));
            assert forall|i: int| 0 <= i < rest.len() implies entry_matches(
                #[trigger] rest[i],
                ys,
            ) by {
                assert(rest[i] == xs[i + 1]);
            }
        }
    }
}

/// Maps are equal where they have as many entries and each entry of one is equal, key and value, to
/// an entry of the other, whatever their order.
pub proof fn maps_are_equal_entry_by_entry(xs: Seq<(SValue, SValue)>, ys: Seq<(SValue, SValue)>)
    ensures
        values_equal(SValue::MapOf(xs), SValue::MapOf(ys)) <==> xs.len() == ys.len()
            && forall|i: int| 0 <= i < xs.len() ==> entry_matches(#[trigger] xs[i], ys),
{
    reveal_with_fuel(values_equal, 3);
    reveal_with_fuel(bare_equal, 3);
    entries_equal_is_pointwise(xs, ys);
}

/// Whether some value equals another.
pub open spec fn value_matches(x: SValue, ys: Seq<SValue>) -> bool {
    exists|j: int| 0 <= j < ys.len() && values_equal(x, #[trigger] ys[j])
}

/// A value is among others where it equals one of them.
pub proof fn membership_is_equality_with_some(x: SValue, ys: Seq<SValue>)
    ensures
        value_among(x, ys) <==> value_matches(x, ys),
    decreases ys.len(),
{
    if ys.len() > 0 {
        let rest = ys.drop_first();
        membership_is_equality_with_some(x, rest);
        if value_among(x, ys) {
            if value_among(x, rest) {
                let j = choose|j: int| 0 <= j < rest.len() && values_equal(x, #[trigger] rest[j]);
                assert(rest[j] == ys[j + 1]);
            } else {
                assert(values_equal(x, ys[0]));
            }
        }
        if value_matches(x, ys) {
            let j = choose|j: int| 0 <= j < ys.len() && values_equal(x, #[trigger] ys[j]);
            if j > 0 {
                assert(rest[j - 1] == ys[j]);
            }
        }
    }
}

proof fn members_equal_is_pointwise(xs: Seq<SValue>, ys: Seq<SValue>)
    ensures
        members_equal(xs, ys) <==> forall|i: int|
            0 <= i < xs.len() ==> value_matches(#[trigger] xs[i], ys),
    decreases xs.len(),
{
    if xs.len() > 0 {
        let rest = xs.drop_first();
        members_equal_is_pointwise(rest, ys);
        membership_is_equality_with_some(xs[0], ys);
        if members_equal(xs, ys) {
            assert forall|i: int| 0 <= i < xs.len() implies value_matches(#[trigger] xs[i], ys) by {
                if i > 0 {
                    assert(xs[i] == rest[i - 1]);
                }
            }
        }
        if forall|i: int| 0 <= i < xs.len() ==> value_matches(#[trigger] xs[i], ys) {
            assert(value_matches(xs[0], ys));
            assert forall|i: int| 0 <= i < rest.len() implies value_matches(
                #[trigger] rest[i],
                ys,
            ) by {
                assert(rest[i] == xs[i + 1]);
            }
        }
    }
}

/// Sets are equal where they have as many members and each member of one equals a member of the
/// other, whatever their order.
pub proof fn sets_are_equal_member_by_member(xs: Seq<SValue>, ys: Seq<SValue>)
    ensures
        values_equal(SValue::SetOf(xs), SValue::SetOf(ys)) <==> xs.len() == ys.len()
            && forall|i: int| 0 <= i < xs.len() ==> value_matches(#[trigger] xs[i], ys),
{
    reveal_with_fuel(values_equal, 3);
    reveal_with_fuel(bare_equal, 3);
    members_equal_is_pointwise(xs, ys);
}

/// Values of an algebraic type are equal where they have the same constructor and equal payloads;
/// packed values are equal where what is packed is.
pub proof fn wrapped_values_are_equal_inside(a: SValue, b: SValue)
    requires
        !(a is Typed),
        !(b is Typed),
    ensures
        a is Adt || b is Adt ==> (values_equal(a, b) <==> a is Adt && b is Adt && a->Adt_1
            == b->Adt_1 && values_equal(*a->Adt_2, *b->Adt_2)),
        a is PackedValue || b is PackedValue ==> (values_equal(a, b) <==> a is PackedValue
            && b is PackedValue && values_equal(*a->PackedValue_0, *b->PackedValue_0)),
{
    reveal_with_fuel(values_equal, 3);
    reveal_with_fuel(bare_equal, 3);
}

/// The kinds of values under annotations, of which no two have equal members.
pub open spec fn kind(v: SValue) -> int {
    match v {
        SValue::Unit => 0,
        SValue::Str(_) => 1,
        SValue::Int(_) => 2,
        SValue::Float(_) => 3,
        SValue::Bool(_) => 4,
        SValue::Keyword(_) => 5,
        SValue::Symbol(_) => 6,
        SValue::List(_) => 7,
        SValue::Product(_) => 8,
        SValue::Record(_) => 9,
        SValue::MapOf(_) => 10,
        SValue::SetOf(_) => 11,
        SValue::Fn(_) => 12,
        SValue::BuiltinFn(_) => 13,
        SValue::Type(_) => 14,
        SValue::TypeDecl(_) => 15,
        SValue::TypeTag(_) => 16,
        SValue::TypeDescriptor(_) => 17,
        SValue::TypeSchema(_) => 18,
        SValue::SemanticTypeId(_) => 19,
        SValue::PackedValue(_) => 20,
        SValue::JsonValue(_) => 21,
        SValue::HostInputs(_) => 22,
        SValue::Artifact(_) => 23,
        SValue::Adt(_, _, _) => 24,
        SValue::Typed(_, _) => 25,
    }
}

/// Values of different kinds are not equal.
pub proof fn values_of_different_kinds_differ(a: SValue, b: SValue)
    requires
        kind(bare(a)) != kind(bare(b)),
    ensures
        !values_equal(a, b),
{
    reveal_with_fuel(values_equal, 3);
    reveal_with_fuel(bare_equal, 3);
    under_annotations(a, b);
}

/// Whether a value holds nothing that differs from itself, and names the fields of its records
/// once.
pub open spec fn steady(v: SValue) -> bool
    decreases v,
{
    match v {
        SValue::Float(f) => !nan_bits(f.bits),
        SValue::List(items) => all_steady(items),
        SValue::Product(items) => all_steady(items),
        SValue::SetOf(items) => all_steady(items),
        SValue::Record(fields) => fields_steady(fields),
        SValue::MapOf(entries) => entries_steady(entries),
        SValue::PackedValue(inner) => steady(*inner),
        SValue::Adt(_, _, inner) => steady(*inner),
        SValue::Typed(inner, _) => steady(*inner),
        SValue::TypeSchema(j) => crate::json::numeric(j),
        SValue::JsonValue(j) => crate::json::numeric(j),
        SValue::HostInputs(j) => crate::json::numeric(j),
        SValue::Artifact(j) => crate::json::numeric(j),
        _ => true,
    }
}

pub open spec fn all_steady(items: Seq<SValue>) -> bool
    decreases items,
{
    forall|i: int| 0 <= i < items.len() ==> steady(#[trigger] items[i])
}

pub open spec fn fields_steady(items: Seq<(Seq<char>, SValue)>) -> bool
    decreases items,
{
    &&& forall|i: int| 0 <= i < items.len() ==> steady((#[trigger] items[i]).1)
    &&& forall|i: int, k: int|
        0 <= i < k < items.len() ==> (#[trigger] items[i]).0 != (#[trigger] items[k]).0
}

pub open spec fn entries_steady(items: Seq<(SValue, SValue)>) -> bool
    decreases items,
{
    forall|i: int|
        0 <= i < items.len() ==> steady((#[trigger] items[i]).0) && steady(items[i].1)
}

proof fn first_of_its_name(items: Seq<(Seq<char>, SValue)>, i: int, k: nat)
    requires
        0 <= k <= i < items.len(),
        forall|a: int, b: int|
            0 <= a < b < items.len() ==> (#[trigger] items[a]).0 != (#[trigger] items[b]).0,
    ensures
        keyed(items, items[i].0, k) == Some(items[i].1),
    decreases i - k,
{
    if k < i {
        assert(items[k as int].0 != items[i].0);
        first_of_its_name(items, i, k + 1);
    }
}

/// A value that holds nothing that differs from itself equals itself.
pub proof fn values_equal_themselves(v: SValue)
    requires
        steady(v),
    ensures
        values_equal(v, v),
    decreases v,
{
    reveal_with_fuel(values_equal, 3);
    reveal_with_fuel(bare_equal, 3);
    reveal_with_fuel(steady, 2);
    reveal_with_fuel(all_steady, 2);
    reveal_with_fuel(fields_steady, 2);
    reveal_with_fuel(entries_steady, 2);
    match v {
        SValue::List(items) => {
            assert forall|i: int| 0 <= i < items.len() implies values_equal(
                #[trigger] items[i],
                items[i],
            ) by {
                values_equal_themselves(items[i]);
            }
            sequences_are_equal_item_by_item(items, items);
        },
        SValue::Product(items) => {
            assert forall|i: int| 0 <= i < items.len() implies values_equal(
                #[trigger] items[i],
                items[i],
            ) by {
                values_equal_themselves(items[i]);
            }
            sequences_are_equal_item_by_item(items, items);
        },
        SValue::SetOf(items) => {
            assert forall|i: int| 0 <= i < items.len() implies value_matches(
                #[trigger] items[i],
                items,
            ) by {
                values_equal_themselves(items[i]);
            }
            sets_are_equal_member_by_member(items, items);
        },
        SValue::Record(fields) => {
            assert forall|i: int| 0 <= i < fields.len() implies field_matches(
                #[trigger] fields[i],
                fields,
            ) by {
                values_equal_themselves(fields[i].1);
                first_of_its_name(fields, i, 0);
            }
            records_are_equal_field_by_field(fields, fields);
        },
        SValue::MapOf(entries) => {
            assert forall|i: int| 0 <= i < entries.len() implies entry_matches(
                #[trigger] entries[i],
                entries,
            ) by {
                values_equal_themselves(entries[i].0);
                values_equal_themselves(entries[i].1);
            }
            maps_are_equal_entry_by_entry(entries, entries);
        },
        SValue::PackedValue(inner) => {
            values_equal_themselves(*inner);
        },
        SValue::Adt(_, _, inner) => {
            values_equal_themselves(*inner);
        },
        SValue::Typed(inner, t) => {
            values_equal_themselves(*inner);
            equality_ignores_annotations(*inner, t, *inner);
        },
        SValue::TypeSchema(j) => {
            crate::json::documents_equal_themselves(j);
        },
        SValue::JsonValue(j) => {
            crate::json::documents_equal_themselves(j);
        },
        SValue::HostInputs(j) => {
            crate::json::documents_equal_themselves(j);
        },
        SValue::Artifact(j) => {
            crate::json::documents_equal_themselves(j);
        },
        _ => {},
    }
}

} // verus!
