//! Results of calls that were already made.

use std::sync::Arc;
use vstd::prelude::*;

use crate::ast::{
    clone_values, share, value_entries_view, value_fields_view, values_view, FnValue, SFn, SValue,
    Value,
};
use crate::builtins::opt_ref;
use crate::text::same;
use crate::type_rules::opt_mag;
use crate::types::{MagType, SType};
use crate::values::same_decl;

verus! {

broadcast use vstd::seq_lib::group_seq_properties;

/// A call and what it returned.
pub struct MemoCall {
    pub function: Arc<FnValue>,
    pub signature: Option<MagType>,
    pub args: Vec<Value>,
    pub result: Value,
}

/// The model of a [`MemoCall`].
#[verifier::ext_equal]
pub struct SMemo {
    pub function: SFn,
    pub signature: Option<SType>,
    pub args: Seq<SValue>,
    pub result: SValue,
}

impl View for MemoCall {
    type V = SMemo;

    open spec fn view(&self) -> SMemo {
        SMemo {
            function: self.function@,
            signature: opt_mag(self.signature),
            args: values_view(self.args@),
            result: self.result@,
        }
    }
}

pub open spec fn memos_view(items: Seq<MemoCall>) -> Seq<SMemo> {
    Seq::new(items.len(), |i: int| items[i]@)
}

/// Whether calls are remembered by an argument: not by one that is opaque.
pub open spec fn rememberable(v: SValue) -> bool {
    match v {
        SValue::Artifact(_) => false,
        SValue::TypeDescriptor(_) => false,
        SValue::TypeSchema(_) => false,
        SValue::SemanticTypeId(_) => false,
        SValue::PackedValue(_) => false,
        SValue::JsonValue(_) => false,
        SValue::HostInputs(_) => false,
        _ => true,
    }
}

pub open spec fn all_rememberable(args: Seq<SValue>) -> bool {
    forall|i: int| 0 <= i < args.len() ==> rememberable(#[trigger] args[i])
}

/// Whether two arguments are the same: scalars by their value, functions by their identity,
/// floating-point numbers by their bits. Compound values are the same where they are one value in
/// memory, which is not to be seen of them; they are compared by their parts, and so are the same
/// at least wherever they are one.
pub open spec fn same_argument(a: SValue, b: SValue) -> bool
    decreases a,
{
    match (a, b) {
        (SValue::Unit, SValue::Unit) => true,
        (SValue::Str(x), SValue::Str(y)) => x == y,
        (SValue::Keyword(x), SValue::Keyword(y)) => x == y,
        (SValue::Symbol(x), SValue::Symbol(y)) => x == y,
        (SValue::BuiltinFn(x), SValue::BuiltinFn(y)) => x == y,
        (SValue::Int(x), SValue::Int(y)) => x == y,
        (SValue::Float(x), SValue::Float(y)) => x.bits == y.bits,
        (SValue::Bool(x), SValue::Bool(y)) => x == y,
        (SValue::List(x), SValue::List(y)) => same_arguments(x, y),
        (SValue::Product(x), SValue::Product(y)) => same_arguments(x, y),
        (SValue::SetOf(x), SValue::SetOf(y)) => same_arguments(x, y),
        (SValue::Record(x), SValue::Record(y)) => same_fields(x, y),
        (SValue::MapOf(x), SValue::MapOf(y)) => same_entries(x, y),
        (SValue::Fn(x), SValue::Fn(y)) => x.identity == y.identity,
        (SValue::Type(x), SValue::Type(y)) => x == y,
        (SValue::TypeTag(x), SValue::TypeTag(y)) => x == y,
        (SValue::TypeDecl(x), SValue::TypeDecl(y)) => x == y,
        (SValue::Typed(x, t), SValue::Typed(y, u)) => t == u && same_argument(*x, *y),
        (SValue::Adt(t, c, x), SValue::Adt(u, d, y)) => t == u && c == d && same_argument(*x, *y),
        _ => false,
    }
}

pub open spec fn same_arguments(xs: Seq<SValue>, ys: Seq<SValue>) -> bool
    decreases xs,
{
    xs.len() == ys.len() && (xs.len() == 0 || (same_argument(xs[0], ys[0]) && same_arguments(
        xs.drop_first(),
        ys.drop_first(),
    )))
}

pub open spec fn same_fields(xs: Seq<(Seq<char>, SValue)>, ys: Seq<(Seq<char>, SValue)>) -> bool
    decreases xs,
{
    xs.len() == ys.len() && (xs.len() == 0 || (xs[0].0 == ys[0].0 && same_argument(
        xs[0].1,
        ys[0].1,
    ) && same_fields(xs.drop_first(), ys.drop_first())))
}

pub open spec fn same_entries(xs: Seq<(SValue, SValue)>, ys: Seq<(SValue, SValue)>) -> bool
    decreases xs,
{
    xs.len() == ys.len() && (xs.len() == 0 || (same_argument(xs[0].0, ys[0].0) && same_argument(
        xs[0].1,
        ys[0].1,
    ) && same_entries(xs.drop_first(), ys.drop_first())))
}

/// Whether an argument is ever the same as another: sets, records and values of algebraic types,
/// without a type of their own, are not.
pub open spec fn comparable(v: SValue) -> bool {
    !(v is SetOf || v is Record || v is Adt)
}

pub open spec fn all_comparable(args: Seq<SValue>) -> bool {
    forall|i: int| 0 <= i < args.len() ==> comparable(#[trigger] args[i])
}

fn are_comparable(args: &Vec<Value>) -> (r: bool)
    ensures
        r == all_comparable(values_view(args@)),
{
    let ghost all = values_view(args@);
    let mut i: usize = 0;
    assert(all.len() == args@.len());
    while i < args.len()
        invariant
            i <= args.len(),
            all == values_view(args@),
            all.len() == args@.len(),
            forall|j: int| 0 <= j < i ==> comparable(#[trigger] all[j]),
        decreases args.len() - i,
    {
        assert(all[i as int] == args@[i as int]@);
        let never = matches!(args[i], Value::SetOf(_) | Value::Record(_) | Value::Adt { .. });
        assert(never == !comparable(all[i as int]));
        if never {
            return false;
        }
        i = i + 1;
    }
    true
}

fn is_rememberable(v: &Value) -> (r: bool)
    ensures
        r == rememberable(v@),
{
    match v {
        Value::Artifact(_) => false,
        Value::TypeDescriptor(_) => false,
        Value::TypeSchema(_) => false,
        Value::SemanticTypeId(_) => false,
        Value::PackedValue(_) => false,
        Value::JsonValue(_) => false,
        Value::HostInputs(_) => false,
        _ => true,
    }
}

fn are_rememberable(args: &Vec<Value>) -> (r: bool)
    ensures
        r == all_rememberable(values_view(args@)),
{
    let ghost all = values_view(args@);
    let mut i: usize = 0;
    assert(all.len() == args@.len());
    while i < args.len()
        invariant
            i <= args.len(),
            all == values_view(args@),
            all.len() == args@.len(),
            forall|j: int| 0 <= j < i ==> rememberable(#[trigger] all[j]),
        decreases args.len() - i,
    {
        assert(all[i as int] == args@[i as int]@);
        if !is_rememberable(&args[i]) {
            return false;
        }
        i = i + 1;
    }
    true
}

fn same_value(a: &Value, b: &Value) -> (r: bool)
    ensures
        r == same_argument(a@, b@),
    decreases a,
{
    match (a, b) {
        (Value::Unit, Value::Unit) => true,
        (Value::Str(x), Value::Str(y)) => same(x, y),
        (Value::Keyword(x), Value::Keyword(y)) => same(x, y),
        (Value::Symbol(x), Value::Symbol(y)) => same(x, y),
        (Value::BuiltinFn(x), Value::BuiltinFn(y)) => same(x, y),
        (Value::Int(x), Value::Int(y)) => *x == *y,
        (Value::Float(x), Value::Float(y)) => x.bits == y.bits,
        (Value::Bool(x), Value::Bool(y)) => *x == *y,
        (Value::List(x), Value::List(y)) => same_values(x, y),
        (Value::Product(x), Value::Product(y)) => same_values(x, y),
        (Value::SetOf(x), Value::SetOf(y)) => same_values(x, y),
        (Value::Record(x), Value::Record(y)) => same_value_fields(x, y),
        (Value::MapOf(x), Value::MapOf(y)) => same_value_entries(x, y),
        (Value::Fn(x), Value::Fn(y)) => x.identity == y.identity,
        (Value::Type(x), Value::Type(y)) => x.equals(y),
        (Value::TypeTag(x), Value::TypeTag(y)) => x.equals(y),
        (Value::TypeDecl(x), Value::TypeDecl(y)) => same_decl(x, y),
        (Value::Typed(x, t), Value::Typed(y, u)) => t.equals(u) && same_value(x, y),
        (
            Value::Adt { owner: t, constructor: c, payload: x },
            Value::Adt { owner: u, constructor: d, payload: y },
        ) => t.equals(u) && c.equals(d) && same_value(x, y),
        _ => false,
    }
}

fn same_values(xs: &Vec<Value>, ys: &Vec<Value>) -> (r: bool)
    ensures
        r == same_arguments(values_view(xs@), values_view(ys@)),
    decreases xs,
{
    let ghost a = values_view(xs@);
    let ghost b = values_view(ys@);
    proof {
        assert(a.len() == xs@.len());
        assert(b.len() == ys@.len());
        assert(a.skip(0) =~= a);
        assert(b.skip(0) =~= b);
    }
    if xs.len() != ys.len() {
        return false;
    }
    let mut i: usize = 0;
    while i < xs.len()
        invariant
            i <= xs.len(),
            xs@.len() == ys@.len(),
            a == values_view(xs@),
            b == values_view(ys@),
            a.len() == xs@.len(),
            b.len() == ys@.len(),
            same_arguments(a, b) == same_arguments(a.skip(i as int), b.skip(i as int)),
        decreases xs.len() - i,
    {
        proof {
            assert(a.skip(i as int)[0] == xs@[i as int]@);
            assert(b.skip(i as int)[0] == ys@[i as int]@);
            assert(a.skip(i as int).drop_first() =~= a.skip(i + 1));
            assert(b.skip(i as int).drop_first() =~= b.skip(i + 1));
        }
        if !same_value(&xs[i], &ys[i]) {
            return false;
        }
        i = i + 1;
    }
    true
}

fn same_value_fields(xs: &Vec<(String, Value)>, ys: &Vec<(String, Value)>) -> (r: bool)
    ensures
        r == same_fields(value_fields_view(xs@), value_fields_view(ys@)),
    decreases xs,
{
    let ghost a = value_fields_view(xs@);
    let ghost b = value_fields_view(ys@);
    proof {
        assert(a.len() == xs@.len());
        assert(b.len() == ys@.len());
        assert(a.skip(0) =~= a);
        assert(b.skip(0) =~= b);
    }
    if xs.len() != ys.len() {
        return false;
    }
    let mut i: usize = 0;
    while i < xs.len()
        invariant
            i <= xs.len(),
            xs@.len() == ys@.len(),
            a == value_fields_view(xs@),
            b == value_fields_view(ys@),
            a.len() == xs@.len(),
            b.len() == ys@.len(),
            same_fields(a, b) == same_fields(a.skip(i as int), b.skip(i as int)),
        decreases xs.len() - i,
    {
        proof {
            assert(a.skip(i as int)[0] == (xs@[i as int].0@, xs@[i as int].1@));
            assert(b.skip(i as int)[0] == (ys@[i as int].0@, ys@[i as int].1@));
            assert(a.skip(i as int).drop_first() =~= a.skip(i + 1));
            assert(b.skip(i as int).drop_first() =~= b.skip(i + 1));
        }
        if !same(&xs[i].0, &ys[i].0) || !same_value(&xs[i].1, &ys[i].1) {
            return false;
        }
        i = i + 1;
    }
    true
}

fn same_value_entries(xs: &Vec<(Value, Value)>, ys: &Vec<(Value, Value)>) -> (r: bool)
    ensures
        r == same_entries(value_entries_view(xs@), value_entries_view(ys@)),
    decreases xs,
{
    let ghost a = value_entries_view(xs@);
    let ghost b = value_entries_view(ys@);
    proof {
        assert(a.len() == xs@.len());
        assert(b.len() == ys@.len());
        assert(a.skip(0) =~= a);
        assert(b.skip(0) =~= b);
    }
    if xs.len() != ys.len() {
        return false;
    }
    let mut i: usize = 0;
    while i < xs.len()
        invariant
            i <= xs.len(),
            xs@.len() == ys@.len(),
            a == value_entries_view(xs@),
            b == value_entries_view(ys@),
            a.len() == xs@.len(),
            b.len() == ys@.len(),
            same_entries(a, b) == same_entries(a.skip(i as int), b.skip(i as int)),
        decreases xs.len() - i,
    {
        proof {
            assert(a.skip(i as int)[0] == (xs@[i as int].0@, xs@[i as int].1@));
            assert(b.skip(i as int)[0] == (ys@[i as int].0@, ys@[i as int].1@));
            assert(a.skip(i as int).drop_first() =~= a.skip(i + 1));
            assert(b.skip(i as int).drop_first() =~= b.skip(i + 1));
        }
        if !same_value(&xs[i].0, &ys[i].0) || !same_value(&xs[i].1, &ys[i].1) {
            return false;
        }
        i = i + 1;
    }
    true
}

pub open spec fn same_call(
    memo: SMemo,
    function: SFn,
    signature: Option<SType>,
    args: Seq<SValue>,
) -> bool {
    memo.function.identity == function.identity && memo.signature == signature
        && all_comparable(args) && same_arguments(memo.args, args)
}

/// The place of a call among those that are remembered, from `i` on.
pub open spec fn memo_at(
    memos: Seq<SMemo>,
    function: SFn,
    signature: Option<SType>,
    args: Seq<SValue>,
    i: nat,
) -> Option<nat>
    decreases memos.len() - i,
{
    if i >= memos.len() {
        None
    } else if same_call(memos[i as int], function, signature, args) {
        Some(i)
    } else {
        memo_at(memos, function, signature, args, i + 1)
    }
}

/// What a call is remembered to have returned.
#[verifier::opaque]
pub open spec fn recalled(
    memos: Seq<SMemo>,
    function: SFn,
    signature: Option<SType>,
    args: Seq<SValue>,
) -> Option<SValue> {
    if !all_rememberable(args) {
        None
    } else {
        match memo_at(memos, function, signature, args, 0) {
            Some(i) => Some(memos[i as int].result),
            None => None,
        }
    }
}

/// What is remembered once a call has returned. Everything is forgotten first where as much is
/// remembered as the limit allows.
#[verifier::opaque]
pub open spec fn remembered(
    memos: Seq<SMemo>,
    limit: nat,
    function: SFn,
    signature: Option<SType>,
    args: Seq<SValue>,
    result: SValue,
) -> Seq<SMemo> {
    if !all_rememberable(args) || limit == 0 {
        memos
    } else {
        let kept = if memos.len() >= limit {
            Seq::empty()
        } else {
            memos
        };
        match memo_at(kept, function, signature, args, 0) {
            Some(i) => kept.update(i as int, SMemo { result, ..kept[i as int] }),
            None => kept.push(SMemo { function, signature, args, result }),
        }
    }
}

/// Whether a call that could be remembered finds no room beside those that are: they are forgotten
/// for it, or it is not remembered itself.
pub open spec fn forgets(memos: Seq<SMemo>, limit: nat, args: Seq<SValue>) -> bool {
    all_rememberable(args) && memos.len() >= limit
}

pub fn is_forgetting(memos: &Vec<MemoCall>, limit: usize, args: &Vec<Value>) -> (r: bool)
    ensures
        r == forgets(memos_view(memos@), limit as nat, values_view(args@)),
{
    memos.len() >= limit && are_rememberable(args)
}

fn same_signature(a: &Option<MagType>, b: Option<&MagType>) -> (r: bool)
    ensures
        r == (opt_mag(*a) == opt_ref(b)),
{
    match (a, b) {
        (Some(x), Some(y)) => x.equals(y),
        (None, None) => true,
        _ => false,
    }
}

fn find_memo(
    memos: &Vec<MemoCall>,
    function: &FnValue,
    signature: Option<&MagType>,
    args: &Vec<Value>,
) -> (r: Option<usize>)
    ensures
        match r {
            Some(i) => i < memos@.len() && memo_at(
                memos_view(memos@),
                function@,
                opt_ref(signature),
                values_view(args@),
                0,
            ) == Some(i as nat),
            None => memo_at(
                memos_view(memos@),
                function@,
                opt_ref(signature),
                values_view(args@),
                0,
            ) is None,
        },
{
    let ghost all = memos_view(memos@);
    let ghost wanted = values_view(args@);
    let ghost sig = opt_ref(signature);
    let mut i: usize = 0;
    while i < memos.len()
        invariant
            i <= memos.len(),
            all == memos_view(memos@),
            wanted == values_view(args@),
            sig == opt_ref(signature),
            memo_at(all, function@, sig, wanted, 0) == memo_at(
                all,
                function@,
                sig,
                wanted,
                i as nat,
            ),
        decreases memos.len() - i,
    {
        assert(all[i as int] == memos@[i as int]@);
        if memos[i].function.identity == function.identity && same_signature(
            &memos[i].signature,
            signature,
        ) && are_comparable(args) && same_values(&memos[i].args, args) {
            return Some(i);
        }
        i = i + 1;
    }
    None
}

pub fn memoized_call(
    memos: &Vec<MemoCall>,
    function: &FnValue,
    signature: Option<&MagType>,
    args: &Vec<Value>,
) -> (r: Option<Value>)
    ensures
        match r {
            Some(v) => recalled(
                memos_view(memos@),
                function@,
                opt_ref(signature),
                values_view(args@),
            ) == Some(v@),
            None => recalled(
                memos_view(memos@),
                function@,
                opt_ref(signature),
                values_view(args@),
            ) is None,
        },
{
    proof {
        reveal(recalled);
    }
    if !are_rememberable(args) {
        return None;
    }
    match find_memo(memos, function, signature, args) {
        Some(i) => Some(memos[i].result.clone()),
        None => None,
    }
}

pub fn memoize_call(
    memos: &mut Vec<MemoCall>,
    limit: usize,
    function: &Arc<FnValue>,
    signature: Option<&MagType>,
    args: &Vec<Value>,
    result: &Value,
)
    ensures
        memos_view(final(memos)@) == remembered(
            memos_view(old(memos)@),
            limit as nat,
            function@,
            opt_ref(signature),
            values_view(args@),
            result@,
        ),
{
    proof {
        reveal(remembered);
    }
    if limit == 0 || !are_rememberable(args) {
        return;
    }
    if memos.len() >= limit {
        memos.clear();
        assert(memos_view(memos@) =~= Seq::empty());
    }
    let ghost kept = memos_view(memos@);
    match find_memo(memos, function, signature, args) {
        Some(i) => {
            let value = result.clone();
            memos[i].result = value;
            assert(memos_view(memos@) =~= kept.update(
                i as int,
                SMemo { result: value@, ..kept[i as int] },
            ));
        },
        None => {
            let signature = match signature {
                Some(t) => Some(t.clone()),
                None => None,
            };
            let entry = MemoCall {
                function: share(function),
                signature,
                args: clone_values(args),
                result: result.clone(),
            };
            memos.push(entry);
            assert(memos_view(memos@) =~= kept.push(entry@));
        },
    }
}

/// Where no calls may be remembered, none are.
pub proof fn without_room_nothing_is_remembered(
    memos: Seq<SMemo>,
    function: SFn,
    signature: Option<SType>,
    args: Seq<SValue>,
    result: SValue,
)
    ensures
        remembered(memos, 0, function, signature, args, result) == memos,
{
    reveal(remembered);
}

/// What a call returned is what it is remembered to have returned.
pub proof fn remembered_call_is_recalled(
    memos: Seq<SMemo>,
    limit: nat,
    function: SFn,
    signature: Option<SType>,
    args: Seq<SValue>,
    result: SValue,
)
    requires
        all_rememberable(args),
        limit > 0,
        all_comparable(args),
        same_arguments(args, args),
    ensures
        recalled(
            remembered(memos, limit, function, signature, args, result),
            function,
            signature,
            args,
        ) == Some(result),
{
    reveal(recalled);
    reveal(remembered);
    let kept = if memos.len() >= limit {
        Seq::empty()
    } else {
        memos
    };
    let after = remembered(memos, limit, function, signature, args, result);
    match memo_at(kept, function, signature, args, 0) {
        Some(i) => {
            memo_in_range(kept, function, signature, args, 0);
            memo_of_changed(kept, after, function, signature, args, i, 0);
        },
        None => {
            memo_of_pushed(
                kept,
                SMemo { function, signature, args, result },
                function,
                signature,
                args,
                0,
            );
        },
    }
}

proof fn memo_in_range(
    memos: Seq<SMemo>,
    function: SFn,
    signature: Option<SType>,
    args: Seq<SValue>,
    i: nat,
)
    ensures
        match memo_at(memos, function, signature, args, i) {
            Some(k) => i <= k < memos.len() && same_call(memos[k as int], function, signature, args)
                && forall|j: int|
                i <= j < k ==> !same_call(#[trigger] memos[j], function, signature, args),
            None => true,
        },
    decreases memos.len() - i,
{
    if i < memos.len() {
        memo_in_range(memos, function, signature, args, i + 1);
    }
}

proof fn memo_of_changed(
    memos: Seq<SMemo>,
    changed: Seq<SMemo>,
    function: SFn,
    signature: Option<SType>,
    args: Seq<SValue>,
    k: nat,
    i: nat,
)
    requires
        i <= k < memos.len(),
        changed.len() == memos.len(),
        forall|j: int|
            0 <= j < memos.len() ==> same_call(#[trigger] changed[j], function, signature, args)
                == same_call(memos[j], function, signature, args),
        same_call(memos[k as int], function, signature, args),
        forall|j: int| i <= j < k ==> !same_call(#[trigger] memos[j], function, signature, args),
    ensures
        memo_at(changed, function, signature, args, i) == Some(k),
    decreases k - i,
{
    assert(same_call(changed[i as int], function, signature, args) == same_call(
        memos[i as int],
        function,
        signature,
        args,
    ));
    if i < k {
        memo_of_changed(memos, changed, function, signature, args, k, i + 1);
    }
}

proof fn memo_of_pushed(
    memos: Seq<SMemo>,
    entry: SMemo,
    function: SFn,
    signature: Option<SType>,
    args: Seq<SValue>,
    i: nat,
)
    requires
        i <= memos.len(),
        memo_at(memos, function, signature, args, i) is None,
        same_call(entry, function, signature, args),
    ensures
        memo_at(memos.push(entry), function, signature, args, i) == Some(memos.len()),
    decreases memos.len() - i,
{
    if i < memos.len() {
        memo_of_pushed(memos, entry, function, signature, args, i + 1);
    }
}

} // verus!
