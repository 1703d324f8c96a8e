//! The builtin functions that call the functions they are given.

use vstd::prelude::*;

use crate::ast::{string_of, SValue};
use crate::error::SError;
use crate::operations::{counted, eval_error};
use crate::text::before;
use crate::types::SType;
use crate::values::{bare, is_true};
use crate::world::SWorld;

verus! {

/// What becomes of the world, and what comes out.
pub type SEval = (SWorld, Result<SValue, SError>);

pub type SEvals = (SWorld, Result<Seq<SValue>, SError>);

/// How a function is applied: in a world, to arguments, with the signature that its call was
/// resolved to, if it was.
pub type Applier = spec_fn(SWorld, SValue, Seq<SValue>, Option<SType>) -> SEval;

/// The items of a list.
pub open spec fn items_of(name: Seq<char>, v: SValue) -> Result<Seq<SValue>, SError> {
    match bare(v) {
        SValue::List(items) => Ok(items),
        _ => eval_error(name + " expects a collection"@),
    }
}

/// A function applied to each item.
pub open spec fn mapped(
    w: SWorld,
    f: SValue,
    items: Seq<SValue>,
    ap: Applier,
    done: Seq<SValue>,
) -> SEvals
    decreases items.len() - done.len(),
{
    if done.len() >= items.len() {
        (w, Ok(done))
    } else {
        let (w1, r) = ap(w, f, seq![items[done.len() as int]], None);
        match r {
            Err(e) => (w1, Err(e)),
            Ok(v) => mapped(w1, f, items, ap, done.push(v)),
        }
    }
}

/// A function applied to the number of each item and to the item.
pub open spec fn indexed(
    w: SWorld,
    f: SValue,
    items: Seq<SValue>,
    ap: Applier,
    done: Seq<SValue>,
) -> SEvals
    decreases items.len() - done.len(),
{
    if done.len() >= items.len() {
        (w, Ok(done))
    } else {
        let (w1, r) = ap(
            w,
            f,
            seq![SValue::Int(done.len() as i64), items[done.len() as int]],
            None,
        );
        match r {
            Err(e) => (w1, Err(e)),
            Ok(v) => indexed(w1, f, items, ap, done.push(v)),
        }
    }
}

/// The items from `i` on for which a function holds, behind those that were found before.
pub open spec fn filtered(
    w: SWorld,
    f: SValue,
    items: Seq<SValue>,
    ap: Applier,
    i: nat,
    done: Seq<SValue>,
) -> SEvals
    decreases items.len() - i,
{
    if i >= items.len() {
        (w, Ok(done))
    } else {
        let (w1, r) = ap(w, f, seq![items[i as int]], None);
        match r {
            Err(e) => (w1, Err(e)),
            Ok(v) => filtered(
                w1,
                f,
                items,
                ap,
                i + 1,
                if is_true(v) {
                    done.push(items[i as int])
                } else {
                    done
                },
            ),
        }
    }
}

/// The lists that a function makes of the items from `i` on, behind what was made before.
pub open spec fn flattened(
    w: SWorld,
    f: SValue,
    items: Seq<SValue>,
    ap: Applier,
    i: nat,
    done: Seq<SValue>,
) -> SEvals
    decreases items.len() - i,
{
    if i >= items.len() {
        (w, Ok(done))
    } else {
        let (w1, r) = ap(w, f, seq![items[i as int]], None);
        match r {
            Err(e) => (w1, Err(e)),
            Ok(v) => match items_of("flat-map"@, v) {
                Err(e) => (w1, Err(e)),
                Ok(more) => flattened(w1, f, items, ap, i + 1, done + more),
            },
        }
    }
}

/// What a function makes of a value and the items from `i` on, one after the other.
pub open spec fn folded(
    w: SWorld,
    f: SValue,
    acc: SValue,
    items: Seq<SValue>,
    ap: Applier,
    i: nat,
) -> SEval
    decreases items.len() - i,
{
    if i >= items.len() {
        (w, Ok(acc))
    } else {
        let (w1, r) = ap(w, f, seq![acc, items[i as int]], None);
        match r {
            Err(e) => (w1, Err(e)),
            Ok(v) => folded(w1, f, v, items, ap, i + 1),
        }
    }
}

/// An item behind all items whose keys do not stand after its own.
pub open spec fn with_keyed(sorted: Seq<(Seq<char>, SValue)>, key: Seq<char>, v: SValue) -> Seq<
    (Seq<char>, SValue),
>
    decreases sorted.len(),
{
    if sorted.len() > 0 && before(key, sorted.last().0) {
        with_keyed(sorted.drop_last(), key, v).push(sorted.last())
    } else {
        sorted.push((key, v))
    }
}

/// The items from `i` on, each under the string that a function makes of it, in the order of
/// those strings; items with one string stay in their order.
pub open spec fn sorted_by(
    w: SWorld,
    f: SValue,
    items: Seq<SValue>,
    ap: Applier,
    i: nat,
    done: Seq<(Seq<char>, SValue)>,
) -> (SWorld, Result<Seq<(Seq<char>, SValue)>, SError>)
    decreases items.len() - i,
{
    if i >= items.len() {
        (w, Ok(done))
    } else {
        let (w1, r) = ap(w, f, seq![items[i as int]], None);
        match r {
            Err(e) => (w1, Err(e)),
            Ok(v) => match string_of(v) {
                None => (w1, eval_error("sort-by callback must return String"@)),
                Some(key) => sorted_by(
                    w1,
                    f,
                    items,
                    ap,
                    i + 1,
                    with_keyed(done, key, items[i as int]),
                ),
            },
        }
    }
}

pub open spec fn second_parts(items: Seq<(Seq<char>, SValue)>) -> Seq<SValue> {
    Seq::new(items.len(), |i: int| items[i].1)
}

pub open spec fn listed_result(r: SEvals) -> SEval {
    (
        r.0,
        match r.1 {
            Ok(v) => Ok(SValue::List(v)),
            Err(e) => Err(e),
        },
    )
}

#[verifier::opaque]
pub open spec fn map_rule(w: SWorld, args: Seq<SValue>, ap: Applier) -> SEval {
    match counted(args, 2) {
        Err(e) => (w, Err(e)),
        Ok(_) => match items_of("map"@, args[1]) {
            Err(e) => (w, Err(e)),
            Ok(items) => listed_result(mapped(w, args[0], items, ap, Seq::empty())),
        },
    }
}

#[verifier::opaque]
pub open spec fn indexed_rule(w: SWorld, args: Seq<SValue>, ap: Applier) -> SEval {
    match counted(args, 2) {
        Err(e) => (w, Err(e)),
        Ok(_) => match items_of("indexed-map"@, args[1]) {
            Err(e) => (w, Err(e)),
            Ok(items) => listed_result(indexed(w, args[0], items, ap, Seq::empty())),
        },
    }
}

#[verifier::opaque]
pub open spec fn filter_rule(w: SWorld, args: Seq<SValue>, ap: Applier) -> SEval {
    match counted(args, 2) {
        Err(e) => (w, Err(e)),
        Ok(_) => match items_of("filter"@, args[1]) {
            Err(e) => (w, Err(e)),
            Ok(items) => listed_result(filtered(w, args[0], items, ap, 0, Seq::empty())),
        },
    }
}

#[verifier::opaque]
pub open spec fn flat_map_rule(w: SWorld, args: Seq<SValue>, ap: Applier) -> SEval {
    match counted(args, 2) {
        Err(e) => (w, Err(e)),
        Ok(_) => match items_of("flat-map"@, args[1]) {
            Err(e) => (w, Err(e)),
            Ok(items) => listed_result(flattened(w, args[0], items, ap, 0, Seq::empty())),
        },
    }
}

#[verifier::opaque]
pub open spec fn fold_rule(w: SWorld, args: Seq<SValue>, ap: Applier) -> SEval {
    match counted(args, 3) {
        Err(e) => (w, Err(e)),
        Ok(_) => match items_of("fold"@, args[2]) {
            Err(e) => (w, Err(e)),
            Ok(items) => folded(w, args[0], args[1], items, ap, 0),
        },
    }
}

#[verifier::opaque]
pub open spec fn sort_rule(w: SWorld, args: Seq<SValue>, ap: Applier) -> SEval {
    match counted(args, 2) {
        Err(e) => (w, Err(e)),
        Ok(_) => match items_of("sort-by"@, args[1]) {
            Err(e) => (w, Err(e)),
            Ok(items) => {
                let (w1, r) = sorted_by(w, args[0], items, ap, 0, Seq::empty());
                (
                    w1,
                    match r {
                        Ok(pairs) => Ok(SValue::List(second_parts(pairs))),
                        Err(e) => Err(e),
                    },
                )
            },
        },
    }
}

/// Whether keys stand in order.
pub open spec fn keys_ordered(items: Seq<(Seq<char>, SValue)>) -> bool {
    forall|i: int, j: int|
        0 <= i < j < items.len() ==> !before(#[trigger] items[j].0, #[trigger] items[i].0)
}

/// A key finds its place among keys in order, and the others stay in order.
pub proof fn placing_keeps_order(sorted: Seq<(Seq<char>, SValue)>, key: Seq<char>, v: SValue)
    requires
        keys_ordered(sorted),
    ensures
        keys_ordered(with_keyed(sorted, key, v)),
        with_keyed(sorted, key, v).to_multiset() == sorted.to_multiset().insert((key, v)),
        forall|i: int|
            0 <= i < with_keyed(sorted, key, v).len() ==> (#[trigger] with_keyed(
                sorted,
                key,
                v,
            )[i]) == (key, v) || sorted.contains(with_keyed(sorted, key, v)[i]),
    decreases sorted.len(),
{
    broadcast use vstd::seq_lib::group_to_multiset_ensures;

    let made = with_keyed(sorted, key, v);
    if sorted.len() > 0 && before(key, sorted.last().0) {
        let rest = sorted.drop_last();
        placing_keeps_order(rest, key, v);
        let inner = with_keyed(rest, key, v);
        assert(sorted =~= rest.push(sorted.last()));
        assert(made =~= inner.push(sorted.last()));
        assert(made.to_multiset() =~= sorted.to_multiset().insert((key, v)));
        assert forall|i: int, j: int| 0 <= i < j < made.len() implies !before(
            #[trigger] made[j].0,
            #[trigger] made[i].0,
        ) by {
            if j == inner.len() {
                if inner[i] == (key, v) {
                    crate::text::before_is_total(key, sorted.last().0);
                } else {
                    assert(rest.contains(inner[i]));
                    let k = choose|k: int| 0 <= k < rest.len() && rest[k] == inner[i];
                    assert(sorted[k] == inner[i]);
                    assert(!before(sorted[sorted.len() - 1].0, sorted[k].0));
                }
            }
        }
        assert forall|i: int| 0 <= i < made.len() implies (#[trigger] made[i]) == (key, v)
            || sorted.contains(made[i]) by {
            if i < inner.len() {
                assert(made[i] == inner[i]);
                if inner[i] != (key, v) {
                    let k = choose|k: int| 0 <= k < rest.len() && rest[k] == inner[i];
                    assert(sorted[k] == inner[i]);
                }
            } else {
                assert(sorted[sorted.len() - 1] == made[i]);
            }
        }
    } else {
        assert(made =~= sorted.push((key, v)));
        assert(made.to_multiset() =~= sorted.to_multiset().insert((key, v)));
        assert forall|i: int, j: int| 0 <= i < j < made.len() implies !before(
            #[trigger] made[j].0,
            #[trigger] made[i].0,
        ) by {
            if j == sorted.len() {
                if before(key, sorted[i].0) {
                    let last = sorted.last().0;
                    if i < sorted.len() - 1 {
                        assert(!before(sorted[sorted.len() - 1].0, sorted[i].0));
                        crate::text::before_is_total(last, sorted[i].0);
                        if before(sorted[i].0, last) {
                            crate::text::before_is_transitive(key, sorted[i].0, last);
                        }
                    }
                }
            }
        }
    }
}

/// What `sort-by` returns stands in the order of its keys.
pub proof fn sorting_orders(
    w: SWorld,
    f: SValue,
    items: Seq<SValue>,
    ap: Applier,
    i: nat,
    done: Seq<(Seq<char>, SValue)>,
)
    requires
        keys_ordered(done),
    ensures
        match sorted_by(w, f, items, ap, i, done).1 {
            Ok(pairs) => keys_ordered(pairs),
            Err(_) => true,
        },
    decreases items.len() - i,
{
    if i < items.len() {
        let (w1, r) = ap(w, f, seq![items[i as int]], None);
        match r {
            Err(_) => {},
            Ok(v) => match string_of(v) {
                None => {},
                Some(key) => {
                    placing_keeps_order(done, key, items[i as int]);
                    sorting_orders(
                        w1,
                        f,
                        items,
                        ap,
                        i + 1,
                        with_keyed(done, key, items[i as int]),
                    );
                },
            },
        }
    }
}

} // verus!
