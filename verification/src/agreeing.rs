//! Equal values are written as one document.

use vstd::prelude::*;

use crate::ast::SValue;
use crate::codec::encoded;
use crate::documents::{
    ascending_members_agree, has_name, last_of_name, names_differ,
    records_are_serialized_field_by_field, sequences_are_serialized_item_by_item,
};
use crate::env::keyed;
use crate::equality::{
    equality_ignores_annotations, field_matches, kind, records_are_equal_field_by_field, scalar,
    scalars_equal_themselves_alone, sequences_are_equal_item_by_item,
    values_of_different_kinds_differ, wrapped_values_are_equal_inside,
};
use crate::error::SError;
use crate::holding::keyed_is_among;
use crate::json::SJson;
use crate::values::{bare, values_equal};

verus! {

broadcast use vstd::seq_lib::group_seq_properties;

/// Whether a value is made of scalars, lists, products, records that name each field once, values of
/// algebraic types and packed values.
pub open spec fn exactly_made(v: SValue) -> bool
    decreases v,
{
    match v {
        SValue::List(items) => forall|i: int|
            0 <= i < items.len() ==> exactly_made(#[trigger] items[i]),
        SValue::Product(items) => forall|i: int|
            0 <= i < items.len() ==> exactly_made(#[trigger] items[i]),
        SValue::Record(fields) => names_differ(fields) && forall|i: int|
            0 <= i < fields.len() ==> exactly_made((#[trigger] fields[i]).1),
        SValue::Adt(_, _, payload) => exactly_made(*payload),
        SValue::PackedValue(inner) => exactly_made(*inner),
        SValue::Typed(inner, _) => exactly_made(*inner),
        _ => scalar(v),
    }
}

/// Whether two values serialize to one document, or neither serializes.
pub open spec fn written_alike(a: SValue, h: Option<bool>, b: SValue, g: Option<bool>) -> bool {
    &&& encoded(a, h) is Ok <==> encoded(b, g) is Ok
    &&& encoded(a, h) is Ok ==> encoded(a, h) == encoded(b, g)
}

proof fn names_are_shared(xs: Seq<(Seq<char>, SValue)>, ys: Seq<(Seq<char>, SValue)>)
    requires
        names_differ(xs),
        names_differ(ys),
        xs.len() == ys.len(),
        forall|i: int| 0 <= i < xs.len() ==> has_name(ys, (#[trigger] xs[i]).0),
    ensures
        forall|i: int| 0 <= i < ys.len() ==> has_name(xs, (#[trigger] ys[i]).0),
{
    let m = xs.map_values(|x: (Seq<char>, SValue)| x.0);
    let n = ys.map_values(|y: (Seq<char>, SValue)| y.0);
    assert(m.no_duplicates()) by {
        assert forall|i: int, k: int| 0 <= i < m.len() && 0 <= k < m.len() && i != k implies m[i]
            != m[k] by {
            if i < k {
                assert(xs[i].0 != xs[k].0);
            } else {
                assert(xs[k].0 != xs[i].0);
            }
        }
    }
    assert(n.no_duplicates()) by {
        assert forall|i: int, k: int| 0 <= i < n.len() && 0 <= k < n.len() && i != k implies n[i]
            != n[k] by {
            if i < k {
                assert(ys[i].0 != ys[k].0);
            } else {
                assert(ys[k].0 != ys[i].0);
            }
        }
    }
    m.unique_seq_to_set();
    n.unique_seq_to_set();
    assert(m.to_set().subset_of(n.to_set())) by {
        assert forall|name: Seq<char>| m.to_set().contains(name) implies n.to_set().contains(
            name,
        ) by {
            let i = choose|i: int| 0 <= i < m.len() && m[i] == name;
            assert(has_name(ys, xs[i].0));
            let k = choose|k: int| 0 <= k < ys.len() && (#[trigger] ys[k]).0 == xs[i].0;
            assert(n[k] == name);
        }
    }
    vstd::set_lib::lemma_subset_equality(m.to_set(), n.to_set());
    assert forall|i: int| 0 <= i < ys.len() implies has_name(xs, (#[trigger] ys[i]).0) by {
        assert(n[i] == ys[i].0);
        assert(n.to_set().contains(n[i]));
        assert(m.to_set().contains(n[i]));
        let k = choose|k: int| 0 <= k < m.len() && m[k] == n[i];
        assert(xs[k].0 == ys[i].0);
    }
}

/// Records whose fields are written alike, name by name, are written alike.
proof fn records_with_like_fields_are_written_alike(
    xs: Seq<(Seq<char>, SValue)>,
    h: Option<bool>,
    ys: Seq<(Seq<char>, SValue)>,
    g: Option<bool>,
)
    requires
        names_differ(xs),
        names_differ(ys),
        xs.len() == ys.len(),
        forall|i: int, k: int|
            0 <= i < xs.len() && 0 <= k < ys.len() && (#[trigger] xs[i]).0 == (#[trigger] ys[k]).0
                ==> written_alike(xs[i].1, None, ys[k].1, None),
        forall|i: int| 0 <= i < xs.len() ==> has_name(ys, (#[trigger] xs[i]).0),
    ensures
        written_alike(SValue::Record(xs), h, SValue::Record(ys), g),
{
    names_are_shared(xs, ys);
    records_are_serialized_field_by_field(xs, h);
    records_are_serialized_field_by_field(ys, g);
    let a = SValue::Record(xs);
    let b = SValue::Record(ys);
    if encoded(a, h) is Ok {
        assert forall|k: int| 0 <= k < ys.len() implies encoded(
            (#[trigger] ys[k]).1,
            None,
        ) is Ok by {
            assert(has_name(xs, ys[k].0));
            let i = choose|i: int| 0 <= i < xs.len() && (#[trigger] xs[i]).0 == ys[k].0;
            assert(written_alike(xs[i].1, None, ys[k].1, None));
        }
    }
    if encoded(b, g) is Ok {
        assert forall|i: int| 0 <= i < xs.len() implies encoded(
            (#[trigger] xs[i]).1,
            None,
        ) is Ok by {
            assert(has_name(ys, xs[i].0));
            let k = choose|k: int| 0 <= k < ys.len() && (#[trigger] ys[k]).0 == xs[i].0;
            assert(written_alike(xs[i].1, None, ys[k].1, None));
        }
    }
    if encoded(a, h) is Ok {
        let o = encoded(a, h)->Ok_0->Object_0;
        let p = encoded(b, g)->Ok_0->Object_0;
        assert forall|name: Seq<char>| #[trigger] keyed(o, name, 0) == keyed(p, name, 0) by {
            if has_name(xs, name) {
                let i = choose|i: int| 0 <= i < xs.len() && (#[trigger] xs[i]).0 == name;
                assert(has_name(ys, xs[i].0));
                let k = choose|k: int| 0 <= k < ys.len() && (#[trigger] ys[k]).0 == xs[i].0;
                assert(written_alike(xs[i].1, None, ys[k].1, None));
                assert(last_of_name(xs, i));
                assert(last_of_name(ys, k));
                assert(keyed(o, xs[i].0, 0) is Some);
                assert(keyed(p, ys[k].0, 0) is Some);
            } else {
                assert(keyed(o, name, 0) is None);
                if keyed(p, name, 0) is Some {
                    assert(has_name(ys, name));
                    let k = choose|k: int| 0 <= k < ys.len() && (#[trigger] ys[k]).0 == name;
                    assert(has_name(xs, ys[k].0));
                }
            }
        }
        ascending_members_agree(o, p);
    }
}

/// Lists, and products, whose items are written alike are written alike.
proof fn sequences_with_like_items_are_written_alike(
    xs: Seq<SValue>,
    h: Option<bool>,
    ys: Seq<SValue>,
    g: Option<bool>,
)
    requires
        xs.len() == ys.len(),
        forall|i: int|
            0 <= i < xs.len() ==> written_alike(#[trigger] xs[i], None, ys[i], None),
    ensures
        written_alike(SValue::List(xs), h, SValue::List(ys), g),
        written_alike(SValue::Product(xs), h, SValue::Product(ys), g),
{
    sequences_are_serialized_item_by_item(xs, h);
    sequences_are_serialized_item_by_item(ys, g);
    let a = SValue::List(xs);
    let b = SValue::List(ys);
    if encoded(a, h) is Ok {
        assert forall|i: int| 0 <= i < ys.len() implies encoded(#[trigger] ys[i], None) is Ok by {
            assert(written_alike(xs[i], None, ys[i], None));
        }
    }
    if encoded(b, g) is Ok {
        assert forall|i: int| 0 <= i < xs.len() implies encoded(#[trigger] xs[i], None) is Ok by {
            assert(written_alike(xs[i], None, ys[i], None));
            assert(encoded(ys[i], None) is Ok);
        }
    }
    if encoded(a, h) is Ok {
        let p = encoded(a, h)->Ok_0->Array_0;
        let q = encoded(b, g)->Ok_0->Array_0;
        assert forall|i: int| 0 <= i < p.len() implies p[i] == q[i] by {
            assert(written_alike(xs[i], None, ys[i], None));
            assert(encoded(xs[i], None) == Ok::<SJson, SError>(p[i]));
            assert(encoded(ys[i], None) == Ok::<SJson, SError>(q[i]));
        }
        assert(p =~= q);
    }
}

/// Equal values serialize to one document, however they are annotated.
pub proof fn equal_values_are_written_alike(
    a: SValue,
    h: Option<bool>,
    b: SValue,
    g: Option<bool>,
)
    requires
        exactly_made(a),
        exactly_made(b),
        values_equal(a, b),
    ensures
        encoded(a, h) is Ok <==> encoded(b, g) is Ok,
        encoded(a, h) is Ok ==> encoded(a, h) == encoded(b, g),
    decreases a, b,
{
    match (a, b) {
        (SValue::Typed(x, t), _) => {
            equality_ignores_annotations(*x, t, b);
            equal_values_are_written_alike(*x, crate::codec::map_hint(h, t), b, g);
        },
        (_, SValue::Typed(y, t)) => {
            equality_ignores_annotations(*y, t, a);
            equal_values_are_written_alike(a, h, *y, crate::codec::map_hint(g, t));
        },
        (SValue::List(xs), SValue::List(ys)) => {
            sequences_are_equal_item_by_item(xs, ys);
            assert forall|i: int| 0 <= i < xs.len() implies written_alike(
                #[trigger] xs[i],
                None,
                ys[i],
                None,
            ) by {
                assert(exactly_made(ys[i]));
                equal_values_are_written_alike(xs[i], None, ys[i], None);
            }
            sequences_with_like_items_are_written_alike(xs, h, ys, g);
        },
        (SValue::Product(xs), SValue::Product(ys)) => {
            sequences_are_equal_item_by_item(xs, ys);
            assert forall|i: int| 0 <= i < xs.len() implies written_alike(
                #[trigger] xs[i],
                None,
                ys[i],
                None,
            ) by {
                assert(exactly_made(ys[i]));
                equal_values_are_written_alike(xs[i], None, ys[i], None);
            }
            sequences_with_like_items_are_written_alike(xs, h, ys, g);
        },
        (SValue::Record(xs), SValue::Record(ys)) => {
            records_are_equal_field_by_field(xs, ys);
            assert forall|i: int| 0 <= i < xs.len() implies has_name(
                ys,
                (#[trigger] xs[i]).0,
            ) by {
                assert(field_matches(xs[i], ys));
                let k = keyed_is_among(ys, xs[i].0, 0);
                assert(ys[k].0 == xs[i].0);
            }
            assert forall|i: int, k: int|
                0 <= i < xs.len() && 0 <= k < ys.len() && (#[trigger] xs[i]).0 == (
                #[trigger] ys[k]).0 implies written_alike(xs[i].1, None, ys[k].1, None) by {
                assert(field_matches(xs[i], ys));
                let j = keyed_is_among(ys, xs[i].0, 0);
                if j < k {
                    assert(ys[j].0 != ys[k].0);
                } else if k < j {
                    assert(ys[k].0 != ys[j].0);
                }
                assert(exactly_made(ys[k].1));
                equal_values_are_written_alike(xs[i].1, None, ys[k].1, None);
            }
            records_with_like_fields_are_written_alike(xs, h, ys, g);
        },
        (SValue::Adt(_, _, x), SValue::Adt(_, _, y)) => {
            wrapped_values_are_equal_inside(a, b);
            equal_values_are_written_alike(*x, None, *y, None);
        },
        (SValue::PackedValue(x), SValue::PackedValue(y)) => {
            wrapped_values_are_equal_inside(a, b);
            equal_values_are_written_alike(*x, None, *y, None);
        },
        _ => {
            if kind(a) != kind(b) {
                assert(bare(a) == a);
                assert(bare(b) == b);
                values_of_different_kinds_differ(a, b);
            } else {
                assert(scalar(a));
                scalars_equal_themselves_alone(a, b);
            }
        },
    }
}

} // verus!
