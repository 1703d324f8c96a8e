//! What builtin functions are for: how what they return relates to what they are given.

use vstd::prelude::*;

use crate::ast::{string_of, SValue};
use crate::callbacks::{
    filter_rule, filtered, flat_map_rule, flattened, fold_rule, folded, indexed, indexed_rule,
    keys_ordered, map_rule, mapped, placing_keeps_order, sort_rule, sorted_by, with_keyed, Applier,
};
use crate::codec::encoded;
use crate::documents::{ascends, putting_a_member_binds_its_name};
use crate::env::{keyed, SEnv};
use crate::error::SError;
use crate::eval::builtin_rule;
use crate::files::SFiles;
use crate::json::{canonical, with_member, SJson};
use crate::operations::{
    data_operation, op_artifact, op_assoc, op_canonical, op_concat, op_count, op_equal, op_fail,
    op_first, op_get, op_keys, op_not, op_or, op_remove_at, operation,
};
use crate::templates::without_colons;
use crate::values::{bare, is_true, value_text, values_equal};
use crate::wire::{json_text, wired};
use crate::world::SWorld;

verus! {

broadcast use vstd::seq_lib::group_seq_properties;

/// The names of builtin functions differ.
pub proof fn names_of_operations()
    ensures
        "artifact"@ != "str"@,
        "artifact"@ != "strip-margin"@,
        "artifact"@ != "replace"@,
        "artifact"@ != "canonical"@,
        "artifact"@ != "function-name"@,
        "artifact"@ != "count"@,
        "artifact"@ != "remove-at"@,
        "artifact"@ != "get"@,
        "artifact"@ != "assoc"@,
        "artifact"@ != "keys"@,
        "artifact"@ != "first"@,
        "artifact"@ != "concat"@,
        "artifact"@ != "="@,
        "artifact"@ != "fail"@,
        "artifact"@ != "not"@,
        "artifact"@ != "or"@,
        "str"@ != "strip-margin"@,
        "str"@ != "replace"@,
        "str"@ != "canonical"@,
        "str"@ != "function-name"@,
        "str"@ != "count"@,
        "str"@ != "remove-at"@,
        "str"@ != "get"@,
        "str"@ != "assoc"@,
        "str"@ != "keys"@,
        "str"@ != "first"@,
        "str"@ != "concat"@,
        "str"@ != "="@,
        "str"@ != "fail"@,
        "str"@ != "not"@,
        "str"@ != "or"@,
        "strip-margin"@ != "replace"@,
        "strip-margin"@ != "canonical"@,
        "strip-margin"@ != "function-name"@,
        "strip-margin"@ != "count"@,
        "strip-margin"@ != "remove-at"@,
        "strip-margin"@ != "get"@,
        "strip-margin"@ != "assoc"@,
        "strip-margin"@ != "keys"@,
        "strip-margin"@ != "first"@,
        "strip-margin"@ != "concat"@,
        "strip-margin"@ != "="@,
        "strip-margin"@ != "fail"@,
        "strip-margin"@ != "not"@,
        "strip-margin"@ != "or"@,
        "replace"@ != "canonical"@,
        "replace"@ != "function-name"@,
        "replace"@ != "count"@,
        "replace"@ != "remove-at"@,
        "replace"@ != "get"@,
        "replace"@ != "assoc"@,
        "replace"@ != "keys"@,
        "replace"@ != "first"@,
        "replace"@ != "concat"@,
        "replace"@ != "="@,
        "replace"@ != "fail"@,
        "replace"@ != "not"@,
        "replace"@ != "or"@,
        "canonical"@ != "function-name"@,
        "canonical"@ != "count"@,
        "canonical"@ != "remove-at"@,
        "canonical"@ != "get"@,
        "canonical"@ != "assoc"@,
        "canonical"@ != "keys"@,
        "canonical"@ != "first"@,
        "canonical"@ != "concat"@,
        "canonical"@ != "="@,
        "canonical"@ != "fail"@,
        "canonical"@ != "not"@,
        "canonical"@ != "or"@,
        "function-name"@ != "count"@,
        "function-name"@ != "remove-at"@,
        "function-name"@ != "get"@,
        "function-name"@ != "assoc"@,
        "function-name"@ != "keys"@,
        "function-name"@ != "first"@,
        "function-name"@ != "concat"@,
        "function-name"@ != "="@,
        "function-name"@ != "fail"@,
        "function-name"@ != "not"@,
        "function-name"@ != "or"@,
        "count"@ != "remove-at"@,
        "count"@ != "get"@,
        "count"@ != "assoc"@,
        "count"@ != "keys"@,
        "count"@ != "first"@,
        "count"@ != "concat"@,
        "count"@ != "="@,
        "count"@ != "fail"@,
        "count"@ != "not"@,
        "count"@ != "or"@,
        "remove-at"@ != "get"@,
        "remove-at"@ != "assoc"@,
        "remove-at"@ != "keys"@,
        "remove-at"@ != "first"@,
        "remove-at"@ != "concat"@,
        "remove-at"@ != "="@,
        "remove-at"@ != "fail"@,
        "remove-at"@ != "not"@,
        "remove-at"@ != "or"@,
        "get"@ != "assoc"@,
        "get"@ != "keys"@,
        "get"@ != "first"@,
        "get"@ != "concat"@,
        "get"@ != "="@,
        "get"@ != "fail"@,
        "get"@ != "not"@,
        "get"@ != "or"@,
        "assoc"@ != "keys"@,
        "assoc"@ != "first"@,
        "assoc"@ != "concat"@,
        "assoc"@ != "="@,
        "assoc"@ != "fail"@,
        "assoc"@ != "not"@,
        "assoc"@ != "or"@,
        "keys"@ != "first"@,
        "keys"@ != "concat"@,
        "keys"@ != "="@,
        "keys"@ != "fail"@,
        "keys"@ != "not"@,
        "keys"@ != "or"@,
        "first"@ != "concat"@,
        "first"@ != "="@,
        "first"@ != "fail"@,
        "first"@ != "not"@,
        "first"@ != "or"@,
        "concat"@ != "="@,
        "concat"@ != "fail"@,
        "concat"@ != "not"@,
        "concat"@ != "or"@,
        "="@ != "fail"@,
        "="@ != "not"@,
        "="@ != "or"@,
        "fail"@ != "not"@,
        "fail"@ != "or"@,
        "not"@ != "or"@,
        "map"@ != "indexed-map"@,
        "map"@ != "filter"@,
        "map"@ != "flat-map"@,
        "map"@ != "fold"@,
        "map"@ != "sort-by"@,
        "map"@ != "read"@,
        "map"@ != "read-json"@,
        "indexed-map"@ != "filter"@,
        "indexed-map"@ != "flat-map"@,
        "indexed-map"@ != "fold"@,
        "indexed-map"@ != "sort-by"@,
        "indexed-map"@ != "read"@,
        "indexed-map"@ != "read-json"@,
        "filter"@ != "flat-map"@,
        "filter"@ != "fold"@,
        "filter"@ != "sort-by"@,
        "filter"@ != "read"@,
        "filter"@ != "read-json"@,
        "flat-map"@ != "fold"@,
        "flat-map"@ != "sort-by"@,
        "flat-map"@ != "read"@,
        "flat-map"@ != "read-json"@,
        "fold"@ != "sort-by"@,
        "fold"@ != "read"@,
        "fold"@ != "read-json"@,
        "sort-by"@ != "read"@,
        "sort-by"@ != "read-json"@,
        "read"@ != "read-json"@,
        "map"@ != "artifact"@,
        "map"@ != "str"@,
        "map"@ != "strip-margin"@,
        "map"@ != "replace"@,
        "map"@ != "canonical"@,
        "map"@ != "function-name"@,
        "map"@ != "count"@,
        "map"@ != "remove-at"@,
        "map"@ != "get"@,
        "map"@ != "assoc"@,
        "map"@ != "keys"@,
        "map"@ != "first"@,
        "map"@ != "concat"@,
        "map"@ != "="@,
        "map"@ != "fail"@,
        "map"@ != "not"@,
        "map"@ != "or"@,
        "indexed-map"@ != "artifact"@,
        "indexed-map"@ != "str"@,
        "indexed-map"@ != "strip-margin"@,
        "indexed-map"@ != "replace"@,
        "indexed-map"@ != "canonical"@,
        "indexed-map"@ != "function-name"@,
        "indexed-map"@ != "count"@,
        "indexed-map"@ != "remove-at"@,
        "indexed-map"@ != "get"@,
        "indexed-map"@ != "assoc"@,
        "indexed-map"@ != "keys"@,
        "indexed-map"@ != "first"@,
        "indexed-map"@ != "concat"@,
        "indexed-map"@ != "="@,
        "indexed-map"@ != "fail"@,
        "indexed-map"@ != "not"@,
        "indexed-map"@ != "or"@,
        "filter"@ != "artifact"@,
        "filter"@ != "str"@,
        "filter"@ != "strip-margin"@,
        "filter"@ != "replace"@,
        "filter"@ != "canonical"@,
        "filter"@ != "function-name"@,
        "filter"@ != "count"@,
        "filter"@ != "remove-at"@,
        "filter"@ != "get"@,
        "filter"@ != "assoc"@,
        "filter"@ != "keys"@,
        "filter"@ != "first"@,
        "filter"@ != "concat"@,
        "filter"@ != "="@,
        "filter"@ != "fail"@,
        "filter"@ != "not"@,
        "filter"@ != "or"@,
        "flat-map"@ != "artifact"@,
        "flat-map"@ != "str"@,
        "flat-map"@ != "strip-margin"@,
        "flat-map"@ != "replace"@,
        "flat-map"@ != "canonical"@,
        "flat-map"@ != "function-name"@,
        "flat-map"@ != "count"@,
        "flat-map"@ != "remove-at"@,
        "flat-map"@ != "get"@,
        "flat-map"@ != "assoc"@,
        "flat-map"@ != "keys"@,
        "flat-map"@ != "first"@,
        "flat-map"@ != "concat"@,
        "flat-map"@ != "="@,
        "flat-map"@ != "fail"@,
        "flat-map"@ != "not"@,
        "flat-map"@ != "or"@,
        "fold"@ != "artifact"@,
        "fold"@ != "str"@,
        "fold"@ != "strip-margin"@,
        "fold"@ != "replace"@,
        "fold"@ != "canonical"@,
        "fold"@ != "function-name"@,
        "fold"@ != "count"@,
        "fold"@ != "remove-at"@,
        "fold"@ != "get"@,
        "fold"@ != "assoc"@,
        "fold"@ != "keys"@,
        "fold"@ != "first"@,
        "fold"@ != "concat"@,
        "fold"@ != "="@,
        "fold"@ != "fail"@,
        "fold"@ != "not"@,
        "fold"@ != "or"@,
        "sort-by"@ != "artifact"@,
        "sort-by"@ != "str"@,
        "sort-by"@ != "strip-margin"@,
        "sort-by"@ != "replace"@,
        "sort-by"@ != "canonical"@,
        "sort-by"@ != "function-name"@,
        "sort-by"@ != "count"@,
        "sort-by"@ != "remove-at"@,
        "sort-by"@ != "get"@,
        "sort-by"@ != "assoc"@,
        "sort-by"@ != "keys"@,
        "sort-by"@ != "first"@,
        "sort-by"@ != "concat"@,
        "sort-by"@ != "="@,
        "sort-by"@ != "fail"@,
        "sort-by"@ != "not"@,
        "sort-by"@ != "or"@,
        "read"@ != "artifact"@,
        "read"@ != "str"@,
        "read"@ != "strip-margin"@,
        "read"@ != "replace"@,
        "read"@ != "canonical"@,
        "read"@ != "function-name"@,
        "read"@ != "count"@,
        "read"@ != "remove-at"@,
        "read"@ != "get"@,
        "read"@ != "assoc"@,
        "read"@ != "keys"@,
        "read"@ != "first"@,
        "read"@ != "concat"@,
        "read"@ != "="@,
        "read"@ != "fail"@,
        "read"@ != "not"@,
        "read"@ != "or"@,
        "read-json"@ != "artifact"@,
        "read-json"@ != "str"@,
        "read-json"@ != "strip-margin"@,
        "read-json"@ != "replace"@,
        "read-json"@ != "canonical"@,
        "read-json"@ != "function-name"@,
        "read-json"@ != "count"@,
        "read-json"@ != "remove-at"@,
        "read-json"@ != "get"@,
        "read-json"@ != "assoc"@,
        "read-json"@ != "keys"@,
        "read-json"@ != "first"@,
        "read-json"@ != "concat"@,
        "read-json"@ != "="@,
        "read-json"@ != "fail"@,
        "read-json"@ != "not"@,
        "read-json"@ != "or"@,
{
    reveal_strlit("artifact");
    reveal_strlit("str");
    reveal_strlit("strip-margin");
    reveal_strlit("replace");
    reveal_strlit("canonical");
    reveal_strlit("function-name");
    reveal_strlit("count");
    reveal_strlit("remove-at");
    reveal_strlit("get");
    reveal_strlit("assoc");
    reveal_strlit("keys");
    reveal_strlit("first");
    reveal_strlit("concat");
    reveal_strlit("=");
    reveal_strlit("fail");
    reveal_strlit("not");
    reveal_strlit("or");
    reveal_strlit("map");
    reveal_strlit("indexed-map");
    reveal_strlit("filter");
    reveal_strlit("flat-map");
    reveal_strlit("fold");
    reveal_strlit("sort-by");
    reveal_strlit("read");
    reveal_strlit("read-json");
    assert("artifact"@.len() == 8);
    assert("str"@.len() == 3);
    assert("strip-margin"@.len() == 12);
    assert("replace"@.len() == 7);
    assert("canonical"@.len() == 9);
    assert("function-name"@.len() == 13);
    assert("count"@.len() == 5);
    assert("remove-at"@.len() == 9);
    assert("get"@.len() == 3);
    assert("assoc"@.len() == 5);
    assert("keys"@.len() == 4);
    assert("first"@.len() == 5);
    assert("concat"@.len() == 6);
    assert("="@.len() == 1);
    assert("fail"@.len() == 4);
    assert("not"@.len() == 3);
    assert("or"@.len() == 2);
    assert("map"@.len() == 3);
    assert("indexed-map"@.len() == 11);
    assert("filter"@.len() == 6);
    assert("flat-map"@.len() == 8);
    assert("fold"@.len() == 4);
    assert("sort-by"@.len() == 7);
    assert("read"@.len() == 4);
    assert("read-json"@.len() == 9);
    assert("artifact"@[0] != "flat-map"@[0]);
    assert("str"@[0] != "get"@[0]);
    assert("str"@[0] != "not"@[0]);
    assert("str"@[0] != "map"@[0]);
    assert("get"@[0] != "not"@[0]);
    assert("get"@[0] != "map"@[0]);
    assert("not"@[0] != "map"@[0]);
    assert("replace"@[0] != "sort-by"@[0]);
    assert("canonical"@[0] != "remove-at"@[0]);
    assert("canonical"@[0] != "read-json"@[0]);
    assert("remove-at"@[2] != "read-json"@[2]);
    assert("count"@[0] != "assoc"@[0]);
    assert("count"@[0] != "first"@[0]);
    assert("assoc"@[0] != "first"@[0]);
    assert("keys"@[0] != "fail"@[0]);
    assert("keys"@[0] != "fold"@[0]);
    assert("keys"@[0] != "read"@[0]);
    assert("fail"@[1] != "fold"@[1]);
    assert("fail"@[0] != "read"@[0]);
    assert("fold"@[0] != "read"@[0]);
    assert("concat"@[0] != "filter"@[0]);
}

/// What a builtin function returns where it is given values.
pub open spec fn returned(env: SEnv, name: Seq<char>, args: Seq<SValue>) -> Result<SValue, SError> {
    operation(env, name, args)
}

/// `count` is the number of items of a list, of fields of a record, or of characters of a text.
pub proof fn count_is_the_size(env: SEnv, v: SValue)
    ensures
        bare(v) matches SValue::List(items) ==> returned(env, "count"@, seq![v]) == Ok::<
            SValue,
            SError,
        >(SValue::Int(items.len() as i64)),
        bare(v) matches SValue::Record(fields) ==> returned(env, "count"@, seq![v]) == Ok::<
            SValue,
            SError,
        >(SValue::Int(fields.len() as i64)),
        bare(v) matches SValue::Str(s) ==> returned(env, "count"@, seq![v]) == Ok::<SValue, SError>(
            SValue::Int(s.len() as i64),
        ),
        !(bare(v) is List || bare(v) is Record || bare(v) is Str) ==> returned(
            env,
            "count"@,
            seq![v],
        ) is Err,
{
    names_of_operations();
    reveal(operation);
    reveal(data_operation);
    reveal(op_count);
}

/// `concat` of two lists has the items of the first and then those of the second, and likewise with
/// the characters of two texts; nothing else can be concatenated.
pub proof fn concat_joins_in_order(env: SEnv, a: SValue, b: SValue)
    ensures
        returned(env, "concat"@, seq![a, b]) is Ok <==> (bare(a) is List && bare(b) is List) || (
        bare(a) is Str && bare(b) is Str),
        bare(a) is List && bare(b) is List ==> ({
            let r = returned(env, "concat"@, seq![a, b])->Ok_0;
            let (x, y) = (bare(a)->List_0, bare(b)->List_0);
            r is List && r->List_0.len() == x.len() + y.len() && (forall|i: int|
                0 <= i < x.len() ==> r->List_0[i] == #[trigger] x[i]) && (forall|i: int|
                0 <= i < y.len() ==> r->List_0[x.len() + i] == #[trigger] y[i])
        }),
        bare(a) is Str && bare(b) is Str ==> ({
            let r = returned(env, "concat"@, seq![a, b])->Ok_0;
            let (x, y) = (bare(a)->Str_0, bare(b)->Str_0);
            r is Str && r->Str_0.len() == x.len() + y.len() && (forall|i: int|
                0 <= i < x.len() ==> r->Str_0[i] == #[trigger] x[i]) && (forall|i: int|
                0 <= i < y.len() ==> r->Str_0[x.len() + i] == #[trigger] y[i])
        }),
{
    names_of_operations();
    reveal(operation);
    reveal(data_operation);
    reveal(op_concat);
}

/// `first` is the item at the head of a list, and a list without items has none.
pub proof fn first_is_the_head(env: SEnv, v: SValue)
    ensures
        returned(env, "first"@, seq![v]) is Ok <==> bare(v) is List && bare(v)->List_0.len() > 0,
        returned(env, "first"@, seq![v]) matches Ok(x) ==> x == bare(v)->List_0[0],
{
    names_of_operations();
    reveal(operation);
    reveal(data_operation);
    reveal(op_first);
}

/// `remove-at` gives a list without the item at a place, with the others in their order; a place
/// outside the list is refused.
pub proof fn remove_at_leaves_out_one_item(env: SEnv, v: SValue, at: SValue)
    ensures
        returned(env, "remove-at"@, seq![v, at]) is Ok <==> bare(v) is List && bare(at) is Int && 0
            <= bare(at)->Int_0 < bare(v)->List_0.len(),
        returned(env, "remove-at"@, seq![v, at]) matches Ok(r) ==> r is List && r->List_0.len() + 1
            == bare(v)->List_0.len() && (forall|i: int|
            0 <= i < r->List_0.len() ==> #[trigger] r->List_0[i] == bare(v)->List_0[if i
                < bare(at)->Int_0 {
                i
            } else {
                i + 1
            }]),
{
    names_of_operations();
    reveal(operation);
    reveal(data_operation);
    reveal(op_remove_at);
}

/// `not` turns a condition round; `or` is its first argument where that holds, and its second where
/// it does not.
pub proof fn not_and_or_follow_conditions(env: SEnv, a: SValue, b: SValue)
    ensures
        returned(env, "not"@, seq![a]) == Ok::<SValue, SError>(SValue::Bool(!is_true(a))),
        is_true(a) ==> returned(env, "or"@, seq![a, b]) == Ok::<SValue, SError>(a),
        !is_true(a) ==> returned(env, "or"@, seq![a, b]) == Ok::<SValue, SError>(b),
{
    names_of_operations();
    reveal(operation);
    reveal(data_operation);
    reveal(op_not);
    reveal(op_or);
}

/// Everything holds as a condition but unit and the boolean false.
pub proof fn only_unit_and_false_fail_conditions(v: SValue)
    ensures
        is_true(v) <==> !(bare(v) is Unit) && bare(v) != SValue::Bool(false),
{
}

/// `=` says whether two values are equal, and never fails on two values.
pub proof fn equals_says_whether_values_are_equal(env: SEnv, a: SValue, b: SValue)
    ensures
        returned(env, "="@, seq![a, b]) == Ok::<SValue, SError>(
            SValue::Bool(values_equal(a, b)),
        ),
{
    names_of_operations();
    reveal(operation);
    reveal(data_operation);
    reveal(op_equal);
}

/// The field that a value names as a key.
pub open spec fn key_of(v: SValue) -> Seq<char> {
    without_colons(value_text(v))
}

/// `get` gives what a record binds to a key, or unit where it binds nothing. What `assoc` puts under
/// a key is what `get` finds there, under every other key it finds what it found before, and the
/// fields stay in the order of their names.
pub proof fn get_finds_what_assoc_puts(
    env: SEnv,
    r: SValue,
    key: SValue,
    v: SValue,
    other: SValue,
)
    requires
        bare(r) is Record,
        ascends(bare(r)->Record_0),
    ensures
        returned(env, "get"@, seq![r, key]) == Ok::<SValue, SError>(
            match keyed(bare(r)->Record_0, key_of(key), 0) {
                Some(x) => x,
                None => SValue::Unit,
            },
        ),
        returned(env, "assoc"@, seq![r, key, v]) matches Ok(made) && made is Record && ascends(
            made->Record_0,
        ) && returned(env, "get"@, seq![made, key]) == Ok::<SValue, SError>(v) && (key_of(other)
            != key_of(key) ==> returned(env, "get"@, seq![made, other]) == returned(
            env,
            "get"@,
            seq![r, other],
        )),
{
    names_of_operations();
    reveal(operation);
    reveal(data_operation);
    reveal(op_get);
    reveal(op_assoc);
    let fields = bare(r)->Record_0;
    putting_a_member_binds_its_name(fields, key_of(key), v);
    let made = SValue::Record(with_member(fields, key_of(key), v));
    assert(bare(made) == made);
    assert(keyed(with_member(fields, key_of(key), v), key_of(key), 0) == Some(v));
    assert(key_of(other) != key_of(key) ==> keyed(
        with_member(fields, key_of(key), v),
        key_of(other),
        0,
    ) == keyed(fields, key_of(other), 0));
}

/// `keys` lists the names of a record's fields in their order.
pub proof fn keys_lists_the_names(env: SEnv, v: SValue)
    ensures
        returned(env, "keys"@, seq![v]) is Ok <==> bare(v) is Record,
        returned(env, "keys"@, seq![v]) matches Ok(r) ==> r is List && r->List_0.len() == bare(
            v,
        )->Record_0.len() && (forall|i: int|
            0 <= i < r->List_0.len() ==> #[trigger] r->List_0[i] == SValue::Str(
                bare(v)->Record_0[i].0,
            )),
{
    names_of_operations();
    reveal(operation);
    reveal(data_operation);
    reveal(op_keys);
}

/// `str` of some values and one more is the text of the former and then that of the latter; of
/// none it is empty, and a text stands for itself.
pub proof fn str_joins_texts(env: SEnv, args: Seq<SValue>, v: SValue)
    ensures
        returned(env, "str"@, Seq::empty()) == Ok::<SValue, SError>(SValue::Str(Seq::empty())),
        returned(env, "str"@, args) is Ok && returned(env, "str"@, args)->Ok_0 is Str,
        returned(env, "str"@, args.push(v)) == Ok::<SValue, SError>(
            SValue::Str(returned(env, "str"@, args)->Ok_0->Str_0 + value_text(v)),
        ),
        bare(v) matches SValue::Str(s) ==> value_text(v) == s,
        bare(v) matches SValue::Bool(b) ==> value_text(v) == (if b {
            "true"@
        } else {
            "false"@
        }),
        bare(v) matches SValue::Int(n) ==> value_text(v) == crate::text::decimal_int(n as int),
        bare(v) matches SValue::Float(f) ==> value_text(v) == f.text,
        bare(v) matches SValue::Keyword(s) ==> value_text(v) == ":"@ + s,
{
    names_of_operations();
    reveal(operation);
    reveal(data_operation);
    reveal(value_text);
    assert(args.push(v).drop_last() =~= args);
}

/// An artifact holds the document that a value is serialized to, `canonical` is the text of that
/// document in canonical form, and `fail` never succeeds.
pub proof fn artifacts_hold_serialized_values(env: SEnv, v: SValue)
    ensures
        returned(env, "artifact"@, seq![v]) is Ok <==> encoded(v, None) is Ok,
        returned(env, "artifact"@, seq![v]) matches Ok(a) ==> Ok::<SJson, SError>(a->Artifact_0)
            == encoded(v, None) && a is Artifact,
        returned(env, "canonical"@, seq![v]) is Ok <==> encoded(v, None) is Ok,
        returned(env, "canonical"@, seq![v]) matches Ok(t) ==> t == SValue::Str(
            json_text(wired(canonical(encoded(v, None)->Ok_0))),
        ),
        returned(env, "fail"@, seq![v]) is Err,
{
    names_of_operations();
    reveal(operation);
    reveal(data_operation);
    reveal(op_artifact);
    reveal(op_canonical);
    reveal(op_fail);
}

/// Whether a function was applied to arguments one after the other, each in the world that the one
/// before left, and returned results.
pub open spec fn applied_in_turn(
    ap: Applier,
    f: SValue,
    args: Seq<Seq<SValue>>,
    worlds: Seq<SWorld>,
    results: Seq<SValue>,
) -> bool {
    &&& worlds.len() == args.len() + 1
    &&& results.len() == args.len()
    &&& forall|i: int|
        0 <= i < args.len() ==> ap(#[trigger] worlds[i], f, args[i], None) == (
            worlds[i + 1],
            Ok::<SValue, SError>(results[i]),
        )
}

proof fn one_more_in_turn(
    ap: Applier,
    f: SValue,
    args: Seq<Seq<SValue>>,
    worlds: Seq<SWorld>,
    results: Seq<SValue>,
    w: SWorld,
    arg: Seq<SValue>,
    r: SValue,
)
    requires
        applied_in_turn(ap, f, args, worlds, results),
        ap(w, f, arg, None) == (worlds[0], Ok::<SValue, SError>(r)),
    ensures
        applied_in_turn(ap, f, seq![arg] + args, seq![w] + worlds, seq![r] + results),
{
    let (a, ws, rs) = (seq![arg] + args, seq![w] + worlds, seq![r] + results);
    assert forall|i: int| 0 <= i < a.len() implies ap(#[trigger] ws[i], f, a[i], None) == (
        ws[i + 1],
        Ok::<SValue, SError>(rs[i]),
    ) by {
        if i > 0 {
            assert(ws[i] == worlds[i - 1]);
            assert(ap(worlds[i - 1], f, args[i - 1], None) == (
                worlds[i],
                Ok::<SValue, SError>(results[i - 1]),
            ));
        }
    }
}

/// Each item alone as an argument.
pub open spec fn singly(items: Seq<SValue>) -> Seq<Seq<SValue>> {
    Seq::new(items.len(), |i: int| seq![items[i]])
}

/// Each item behind its place as arguments.
pub open spec fn numbered(items: Seq<SValue>, start: nat) -> Seq<Seq<SValue>> {
    Seq::new(items.len(), |i: int| seq![SValue::Int((start + i) as i64), items[i]])
}

proof fn mapping_in_turn(
    w: SWorld,
    f: SValue,
    items: Seq<SValue>,
    ap: Applier,
    done: Seq<SValue>,
) -> (worlds: Seq<SWorld>)
    requires
        done.len() <= items.len(),
        mapped(w, f, items, ap, done).1 is Ok,
    ensures
        worlds.len() > 0 && worlds[0] == w && worlds.last() == mapped(w, f, items, ap, done).0,
        mapped(w, f, items, ap, done).1->Ok_0.len() == items.len(),
        mapped(w, f, items, ap, done).1->Ok_0.take(done.len() as int) == done,
        applied_in_turn(
            ap,
            f,
            singly(items.skip(done.len() as int)),
            worlds,
            mapped(w, f, items, ap, done).1->Ok_0.skip(done.len() as int),
        ),
    decreases items.len() - done.len(),
{
    let n = done.len() as int;
    let out = mapped(w, f, items, ap, done).1->Ok_0;
    if done.len() >= items.len() {
        assert(done.take(n) =~= done);
        seq![w]
    } else {
        let (w1, r) = ap(w, f, seq![items[n]], None);
        let v = r->Ok_0;
        let worlds = mapping_in_turn(w1, f, items, ap, done.push(v));
        assert(out.take(n + 1).take(n) =~= out.take(n));
        assert(done.push(v).take(n) =~= done);
        assert(out[n] == out.take(n + 1)[n]);
        one_more_in_turn(
            ap,
            f,
            singly(items.skip(n + 1)),
            worlds,
            out.skip(n + 1),
            w,
            seq![items[n]],
            v,
        );
        assert(seq![seq![items[n]]] + singly(items.skip(n + 1)) =~= singly(items.skip(n)));
        assert(seq![v] + out.skip(n + 1) =~= out.skip(n));
        seq![w] + worlds
    }
}

/// `map` gives what its function returns for each item of a list, in the order of the items.
pub proof fn map_applies_to_each(
    files: SFiles,
    w: SWorld,
    f: SValue,
    items: Seq<SValue>,
    ap: Applier,
) -> (worlds: Seq<SWorld>)
    ensures
        builtin_rule(files, w, "map"@, seq![f, SValue::List(items)], ap).1 matches Ok(r)
            ==> r is List && worlds.len() > 0 && worlds[0] == w && applied_in_turn(
            ap,
            f,
            singly(items),
            worlds,
            r->List_0,
        ),
{
    names_of_operations();
    reveal(builtin_rule);
    reveal(map_rule);
    assert(bare(SValue::List(items)) == SValue::List(items));
    if mapped(w, f, items, ap, Seq::empty()).1 is Ok {
        let worlds = mapping_in_turn(w, f, items, ap, Seq::empty());
        let out = mapped(w, f, items, ap, Seq::empty()).1->Ok_0;
        assert(items.skip(0) =~= items);
        assert(out.skip(0) =~= out);
        worlds
    } else {
        Seq::empty()
    }
}

proof fn indexing_in_turn(
    w: SWorld,
    f: SValue,
    items: Seq<SValue>,
    ap: Applier,
    done: Seq<SValue>,
) -> (worlds: Seq<SWorld>)
    requires
        done.len() <= items.len(),
        indexed(w, f, items, ap, done).1 is Ok,
    ensures
        worlds.len() > 0 && worlds[0] == w,
        indexed(w, f, items, ap, done).1->Ok_0.len() == items.len(),
        indexed(w, f, items, ap, done).1->Ok_0.take(done.len() as int) == done,
        applied_in_turn(
            ap,
            f,
            numbered(items.skip(done.len() as int), done.len()),
            worlds,
            indexed(w, f, items, ap, done).1->Ok_0.skip(done.len() as int),
        ),
    decreases items.len() - done.len(),
{
    let n = done.len() as int;
    let out = indexed(w, f, items, ap, done).1->Ok_0;
    if done.len() >= items.len() {
        assert(done.take(n) =~= done);
        seq![w]
    } else {
        let arg = seq![SValue::Int(done.len() as i64), items[n]];
        let (w1, r) = ap(w, f, arg, None);
        let v = r->Ok_0;
        let worlds = indexing_in_turn(w1, f, items, ap, done.push(v));
        assert(out.take(n + 1).take(n) =~= out.take(n));
        assert(done.push(v).take(n) =~= done);
        assert(out[n] == out.take(n + 1)[n]);
        let rest = numbered(items.skip(n + 1), (n + 1) as nat);
        one_more_in_turn(ap, f, rest, worlds, out.skip(n + 1), w, arg, v);
        assert(seq![arg] + rest =~= numbered(items.skip(n), n as nat)) by {
            let whole = numbered(items.skip(n), n as nat);
            assert forall|i: int| 0 <= i < whole.len() implies whole[i] == (seq![arg] + rest)[i] by {
                if i > 0 {
                    assert(rest[i - 1] =~= whole[i]);
                } else {
                    assert(whole[0] =~= arg);
                }
            }
        }
        assert(seq![v] + out.skip(n + 1) =~= out.skip(n));
        seq![w] + worlds
    }
}

/// `indexed-map` gives what its function returns for the place and the value of each item, counted
/// from zero, in the order of the items.
pub proof fn indexed_map_applies_to_each_with_its_place(
    files: SFiles,
    w: SWorld,
    f: SValue,
    items: Seq<SValue>,
    ap: Applier,
) -> (worlds: Seq<SWorld>)
    ensures
        builtin_rule(files, w, "indexed-map"@, seq![f, SValue::List(items)], ap).1 matches Ok(r)
            ==> r is List && worlds.len() > 0 && worlds[0] == w && applied_in_turn(
            ap,
            f,
            numbered(items, 0),
            worlds,
            r->List_0,
        ),
{
    names_of_operations();
    reveal(builtin_rule);
    reveal(indexed_rule);
    assert(bare(SValue::List(items)) == SValue::List(items));
    if indexed(w, f, items, ap, Seq::empty()).1 is Ok {
        let worlds = indexing_in_turn(w, f, items, ap, Seq::empty());
        let out = indexed(w, f, items, ap, Seq::empty()).1->Ok_0;
        assert(items.skip(0) =~= items);
        assert(out.skip(0) =~= out);
        worlds
    } else {
        Seq::empty()
    }
}

/// The items at whose places a condition holds, in their order.
pub open spec fn chosen_items(items: Seq<SValue>, conditions: Seq<SValue>) -> Seq<SValue>
    decreases items.len(),
{
    if items.len() == 0 || conditions.len() == 0 {
        Seq::empty()
    } else if is_true(conditions[0]) {
        seq![items[0]] + chosen_items(items.drop_first(), conditions.drop_first())
    } else {
        chosen_items(items.drop_first(), conditions.drop_first())
    }
}

proof fn filtering_in_turn(
    w: SWorld,
    f: SValue,
    items: Seq<SValue>,
    ap: Applier,
    i: nat,
    done: Seq<SValue>,
) -> (r: (Seq<SWorld>, Seq<SValue>))
    requires
        i <= items.len(),
        filtered(w, f, items, ap, i, done).1 is Ok,
    ensures
        r.0.len() > 0 && r.0[0] == w,
        applied_in_turn(ap, f, singly(items.skip(i as int)), r.0, r.1),
        filtered(w, f, items, ap, i, done).1->Ok_0 == done + chosen_items(
            items.skip(i as int),
            r.1,
        ),
    decreases items.len() - i,
{
    let n = i as int;
    if i >= items.len() {
        assert(done + chosen_items(items.skip(n), Seq::empty()) =~= done);
        (seq![w], Seq::empty())
    } else {
        let (w1, r) = ap(w, f, seq![items[n]], None);
        let v = r->Ok_0;
        let next = if is_true(v) {
            done.push(items[n])
        } else {
            done
        };
        let (worlds, results) = filtering_in_turn(w1, f, items, ap, i + 1, next);
        let rest = items.skip(n + 1);
        one_more_in_turn(ap, f, singly(rest), worlds, results, w, seq![items[n]], v);
        assert(seq![seq![items[n]]] + singly(rest) =~= singly(items.skip(n)));
        let all = seq![v] + results;
        assert(items.skip(n).drop_first() =~= rest);
        assert(all.drop_first() =~= results);
        assert(next + chosen_items(rest, results) =~= done + chosen_items(items.skip(n), all));
        (seq![w] + worlds, all)
    }
}

/// `filter` gives the items for which its function returns what holds as a condition, in their
/// order, and no others.
pub proof fn filter_chooses_where_the_function_holds(
    files: SFiles,
    w: SWorld,
    f: SValue,
    items: Seq<SValue>,
    ap: Applier,
) -> (r: (Seq<SWorld>, Seq<SValue>))
    ensures
        builtin_rule(files, w, "filter"@, seq![f, SValue::List(items)], ap).1 matches Ok(v)
            ==> r.0.len() > 0 && r.0[0] == w && applied_in_turn(ap, f, singly(items), r.0, r.1) && v
            == SValue::List(chosen_items(items, r.1)),
{
    names_of_operations();
    reveal(builtin_rule);
    reveal(filter_rule);
    assert(bare(SValue::List(items)) == SValue::List(items));
    if filtered(w, f, items, ap, 0, Seq::empty()).1 is Ok {
        let r = filtering_in_turn(w, f, items, ap, 0, Seq::empty());
        assert(items.skip(0) =~= items);
        assert(Seq::<SValue>::empty() + chosen_items(items, r.1) =~= chosen_items(items, r.1));
        r
    } else {
        (Seq::empty(), Seq::empty())
    }
}

/// The items of lists one after the other.
pub open spec fn joined_items(lists: Seq<SValue>) -> Seq<SValue>
    decreases lists.len(),
{
    if lists.len() == 0 {
        Seq::empty()
    } else {
        bare(lists[0])->List_0 + joined_items(lists.drop_first())
    }
}

proof fn flattening_in_turn(
    w: SWorld,
    f: SValue,
    items: Seq<SValue>,
    ap: Applier,
    i: nat,
    done: Seq<SValue>,
) -> (r: (Seq<SWorld>, Seq<SValue>))
    requires
        i <= items.len(),
        flattened(w, f, items, ap, i, done).1 is Ok,
    ensures
        r.0.len() > 0 && r.0[0] == w,
        applied_in_turn(ap, f, singly(items.skip(i as int)), r.0, r.1),
        forall|k: int| 0 <= k < r.1.len() ==> bare(#[trigger] r.1[k]) is List,
        flattened(w, f, items, ap, i, done).1->Ok_0 == done + joined_items(r.1),
    decreases items.len() - i,
{
    let n = i as int;
    if i >= items.len() {
        assert(done + joined_items(Seq::empty()) =~= done);
        (seq![w], Seq::empty())
    } else {
        let (w1, r) = ap(w, f, seq![items[n]], None);
        let v = r->Ok_0;
        let more = bare(v)->List_0;
        let (worlds, results) = flattening_in_turn(w1, f, items, ap, i + 1, done + more);
        let rest = items.skip(n + 1);
        one_more_in_turn(ap, f, singly(rest), worlds, results, w, seq![items[n]], v);
        assert(seq![seq![items[n]]] + singly(rest) =~= singly(items.skip(n)));
        let all = seq![v] + results;
        assert(all.drop_first() =~= results);
        assert((done + more) + joined_items(results) =~= done + joined_items(all));
        assert forall|k: int| 0 <= k < all.len() implies bare(#[trigger] all[k]) is List by {
            if k > 0 {
                assert(all[k] == results[k - 1]);
            }
        }
        (seq![w] + worlds, all)
    }
}

/// `flat-map` gives the items of the lists that its function returns for each item, one list after
/// the other.
pub proof fn flat_map_joins_what_the_function_returns(
    files: SFiles,
    w: SWorld,
    f: SValue,
    items: Seq<SValue>,
    ap: Applier,
) -> (r: (Seq<SWorld>, Seq<SValue>))
    ensures
        builtin_rule(files, w, "flat-map"@, seq![f, SValue::List(items)], ap).1 matches Ok(v)
            ==> r.0.len() > 0 && r.0[0] == w && applied_in_turn(ap, f, singly(items), r.0, r.1) && v
            == SValue::List(joined_items(r.1)) && forall|k: int|
            0 <= k < r.1.len() ==> bare(#[trigger] r.1[k]) is List,
{
    names_of_operations();
    reveal(builtin_rule);
    reveal(flat_map_rule);
    assert(bare(SValue::List(items)) == SValue::List(items));
    if flattened(w, f, items, ap, 0, Seq::empty()).1 is Ok {
        let r = flattening_in_turn(w, f, items, ap, 0, Seq::empty());
        assert(items.skip(0) =~= items);
        assert(Seq::<SValue>::empty() + joined_items(r.1) =~= joined_items(r.1));
        r
    } else {
        (Seq::empty(), Seq::empty())
    }
}

proof fn folding_in_turn(
    w: SWorld,
    f: SValue,
    acc: SValue,
    items: Seq<SValue>,
    ap: Applier,
    i: nat,
) -> (r: (Seq<SWorld>, Seq<SValue>))
    requires
        i <= items.len(),
        folded(w, f, acc, items, ap, i).1 is Ok,
    ensures
        r.0.len() == items.len() - i + 1 && r.1.len() == items.len() - i + 1,
        r.0[0] == w && r.1[0] == acc,
        r.1.last() == folded(w, f, acc, items, ap, i).1->Ok_0,
        forall|k: int|
            0 <= k < items.len() - i ==> ap(
                #[trigger] r.0[k],
                f,
                seq![r.1[k], items[i + k]],
                None,
            ) == (r.0[k + 1], Ok::<SValue, SError>(r.1[k + 1])),
    decreases items.len() - i,
{
    if i >= items.len() {
        (seq![w], seq![acc])
    } else {
        let (w1, r) = ap(w, f, seq![acc, items[i as int]], None);
        let v = r->Ok_0;
        let (worlds, accs) = folding_in_turn(w1, f, v, items, ap, i + 1);
        let (ws, all) = (seq![w] + worlds, seq![acc] + accs);
        assert forall|k: int| 0 <= k < items.len() - i implies ap(
            #[trigger] ws[k],
            f,
            seq![all[k], items[i + k]],
            None,
        ) == (ws[k + 1], Ok::<SValue, SError>(all[k + 1])) by {
            if k > 0 {
                assert(ws[k] == worlds[k - 1]);
                assert(ap(worlds[k - 1], f, seq![accs[k - 1], items[i + 1 + (k - 1)]], None) == (
                    worlds[k],
                    Ok::<SValue, SError>(accs[k]),
                ));
            }
        }
        (ws, all)
    }
}

/// `fold` starts from a value and gives, for each item from the first to the last, what it has so
/// far and the item to its function; it returns what the function returned last.
pub proof fn fold_runs_from_the_first_to_the_last(
    files: SFiles,
    w: SWorld,
    f: SValue,
    start: SValue,
    items: Seq<SValue>,
    ap: Applier,
) -> (r: (Seq<SWorld>, Seq<SValue>))
    ensures
        builtin_rule(files, w, "fold"@, seq![f, start, SValue::List(items)], ap).1 matches Ok(v)
            ==> r.0.len() == items.len() + 1 && r.1.len() == items.len() + 1 && r.0[0] == w
            && r.1[0] == start && r.1.last() == v && forall|k: int|
            0 <= k < items.len() ==> ap(#[trigger] r.0[k], f, seq![r.1[k], items[k]], None) == (
                r.0[k + 1],
                Ok::<SValue, SError>(r.1[k + 1]),
            ),
{
    names_of_operations();
    reveal(builtin_rule);
    reveal(fold_rule);
    assert(bare(SValue::List(items)) == SValue::List(items));
    if folded(w, f, start, items, ap, 0).1 is Ok {
        folding_in_turn(w, f, start, items, ap, 0)
    } else {
        (Seq::empty(), Seq::empty())
    }
}

/// Items, each behind the text that a function returned for it.
pub open spec fn with_texts(results: Seq<SValue>, items: Seq<SValue>) -> Seq<(Seq<char>, SValue)> {
    Seq::new(items.len(), |i: int| (string_of(results[i])->Some_0, items[i]))
}

proof fn sorting_in_turn(
    w: SWorld,
    f: SValue,
    items: Seq<SValue>,
    ap: Applier,
    i: nat,
    done: Seq<(Seq<char>, SValue)>,
) -> (r: (Seq<SWorld>, Seq<SValue>))
    requires
        i <= items.len(),
        keys_ordered(done),
        sorted_by(w, f, items, ap, i, done).1 is Ok,
    ensures
        r.0.len() > 0 && r.0[0] == w,
        applied_in_turn(ap, f, singly(items.skip(i as int)), r.0, r.1),
        forall|k: int| 0 <= k < r.1.len() ==> string_of(#[trigger] r.1[k]) is Some,
        keys_ordered(sorted_by(w, f, items, ap, i, done).1->Ok_0),
        sorted_by(w, f, items, ap, i, done).1->Ok_0.to_multiset() == (done + with_texts(
            r.1,
            items.skip(i as int),
        )).to_multiset(),
    decreases items.len() - i,
{
    broadcast use vstd::seq_lib::group_to_multiset_ensures;

    let n = i as int;
    if i >= items.len() {
        assert(done + with_texts(Seq::empty(), items.skip(n)) =~= done);
        (seq![w], Seq::empty())
    } else {
        let (w1, r) = ap(w, f, seq![items[n]], None);
        let v = r->Ok_0;
        let key = string_of(v)->Some_0;
        placing_keeps_order(done, key, items[n]);
        let next = with_keyed(done, key, items[n]);
        let (worlds, results) = sorting_in_turn(w1, f, items, ap, i + 1, next);
        let rest = items.skip(n + 1);
        one_more_in_turn(ap, f, singly(rest), worlds, results, w, seq![items[n]], v);
        assert(seq![seq![items[n]]] + singly(rest) =~= singly(items.skip(n)));
        let all = seq![v] + results;
        let tail = with_texts(results, rest);
        let whole = with_texts(all, items.skip(n));
        assert(whole =~= seq![(key, items[n])] + tail);
        assert(done + whole =~= done.push((key, items[n])) + tail);
        vstd::seq_lib::lemma_multiset_commutative(done.push((key, items[n])), tail);
        vstd::seq_lib::lemma_multiset_commutative(next, tail);
        assert(done.push((key, items[n])).to_multiset() =~= done.to_multiset().insert(
            (key, items[n]),
        ));
        assert forall|k: int| 0 <= k < all.len() implies string_of(#[trigger] all[k]) is Some by {
            if k > 0 {
                assert(all[k] == results[k - 1]);
            }
        }
        (seq![w] + worlds, all)
    }
}

/// `sort-by` gives the items of a list, each as often as it was there, in the order of the texts
/// that its function returns for them.
pub proof fn sort_by_orders_the_items(
    files: SFiles,
    w: SWorld,
    f: SValue,
    items: Seq<SValue>,
    ap: Applier,
) -> (r: (Seq<SWorld>, Seq<SValue>, Seq<(Seq<char>, SValue)>))
    ensures
        builtin_rule(files, w, "sort-by"@, seq![f, SValue::List(items)], ap).1 matches Ok(v)
            ==> r.0.len() > 0 && r.0[0] == w && applied_in_turn(ap, f, singly(items), r.0, r.1)
            && keys_ordered(r.2) && r.2.to_multiset() == with_texts(r.1, items).to_multiset()
            && v is List && v->List_0.len() == r.2.len() && forall|k: int|
            0 <= k < r.2.len() ==> v->List_0[k] == (#[trigger] r.2[k]).1,
{
    names_of_operations();
    reveal(builtin_rule);
    reveal(sort_rule);
    assert(bare(SValue::List(items)) == SValue::List(items));
    if sorted_by(w, f, items, ap, 0, Seq::empty()).1 is Ok {
        let (worlds, results) = sorting_in_turn(w, f, items, ap, 0, Seq::empty());
        assert(items.skip(0) =~= items);
        let none: Seq<(Seq<char>, SValue)> = Seq::empty();
        assert(none + with_texts(results, items) =~= with_texts(results, items));
        (worlds, results, sorted_by(w, f, items, ap, 0, Seq::empty()).1->Ok_0)
    } else {
        (Seq::empty(), Seq::empty(), Seq::empty())
    }
}

} // verus!
