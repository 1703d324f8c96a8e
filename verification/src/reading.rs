//! What the forms that are read stand for, and which calls their types admit.

use vstd::prelude::*;

use crate::ast::{SChecked, SConstructor, SConstructorId, SFn, SValue};
use crate::authored::{
    SAuthoredType, SDeclarationBody, SExposure, SExpr, SForm, SItem, STypeDeclaration,
};
use crate::bindings::SBindings;
use crate::calls::{argument_value_types, called, called_at};
use crate::candidates::{as_vars, instance_requirements, instance_vars, SCandidate};
use crate::compatible::{fit_any, SSubst};
use crate::compile::{constrained_by, constrained_call};
use crate::env::SEnv;
use crate::error::SError;
use crate::infer::fit_params;
use crate::lisp::{
    all_symbols, arm_problem, arms_problem, constructor_problem, constructors_problem, field_key,
    function_problem, keys_valid, parameter_problem, parameters_problem, symbols, written,
    written_all, written_arms, written_body, written_constructors, written_fields, written_form,
    written_function, written_item, written_items, written_list, written_module, written_pairs,
    written_type, written_types,
};
use crate::program::{constructors_denoted, declared_value};
use crate::resolve::closed_type;
use crate::substitution::{apply, occurs, other_variables_stay};
use crate::suitability::{
    closed_types_fit_where_they_are_the_same, types_with_variables_have_no_closed_form,
};
use crate::surface::{symbol, SSurface};
use crate::type_rules::{denoted, required_all, required_equality};
use crate::types::SType;
use crate::typing::{holds_function, types_with_functions_are_not_compared};
use crate::value_types::type_of;

verus! {

broadcast use vstd::seq_lib::group_seq_properties;

/// The words that begin forms differ.
proof fn words_of_forms()
    ensures
        "let"@ != "if"@,
        "let"@ != "match"@,
        "let"@ != "construct"@,
        "let"@ != "as"@,
        "let"@ != "type-tag"@,
        "let"@ != "fn"@,
        "let"@ != "require"@,
        "let"@ != "type"@,
        "let"@ != "adt"@,
        "let"@ != "|"@,
        "let"@ != "+"@,
        "let"@ != "TypeTag"@,
        "let"@ != "Fn"@,
        "if"@ != "match"@,
        "if"@ != "construct"@,
        "if"@ != "as"@,
        "if"@ != "type-tag"@,
        "if"@ != "fn"@,
        "if"@ != "require"@,
        "if"@ != "type"@,
        "if"@ != "adt"@,
        "if"@ != "|"@,
        "if"@ != "+"@,
        "if"@ != "TypeTag"@,
        "if"@ != "Fn"@,
        "match"@ != "construct"@,
        "match"@ != "as"@,
        "match"@ != "type-tag"@,
        "match"@ != "fn"@,
        "match"@ != "require"@,
        "match"@ != "type"@,
        "match"@ != "adt"@,
        "match"@ != "|"@,
        "match"@ != "+"@,
        "match"@ != "TypeTag"@,
        "match"@ != "Fn"@,
        "construct"@ != "as"@,
        "construct"@ != "type-tag"@,
        "construct"@ != "fn"@,
        "construct"@ != "require"@,
        "construct"@ != "type"@,
        "construct"@ != "adt"@,
        "construct"@ != "|"@,
        "construct"@ != "+"@,
        "construct"@ != "TypeTag"@,
        "construct"@ != "Fn"@,
        "as"@ != "type-tag"@,
        "as"@ != "fn"@,
        "as"@ != "require"@,
        "as"@ != "type"@,
        "as"@ != "adt"@,
        "as"@ != "|"@,
        "as"@ != "+"@,
        "as"@ != "TypeTag"@,
        "as"@ != "Fn"@,
        "type-tag"@ != "fn"@,
        "type-tag"@ != "require"@,
        "type-tag"@ != "type"@,
        "type-tag"@ != "adt"@,
        "type-tag"@ != "|"@,
        "type-tag"@ != "+"@,
        "type-tag"@ != "TypeTag"@,
        "type-tag"@ != "Fn"@,
        "fn"@ != "require"@,
        "fn"@ != "type"@,
        "fn"@ != "adt"@,
        "fn"@ != "|"@,
        "fn"@ != "+"@,
        "fn"@ != "TypeTag"@,
        "fn"@ != "Fn"@,
        "require"@ != "type"@,
        "require"@ != "adt"@,
        "require"@ != "|"@,
        "require"@ != "+"@,
        "require"@ != "TypeTag"@,
        "require"@ != "Fn"@,
        "type"@ != "adt"@,
        "type"@ != "|"@,
        "type"@ != "+"@,
        "type"@ != "TypeTag"@,
        "type"@ != "Fn"@,
        "adt"@ != "|"@,
        "adt"@ != "+"@,
        "adt"@ != "TypeTag"@,
        "adt"@ != "Fn"@,
        "|"@ != "+"@,
        "|"@ != "TypeTag"@,
        "|"@ != "Fn"@,
        "+"@ != "TypeTag"@,
        "+"@ != "Fn"@,
        "TypeTag"@ != "Fn"@,
{
    reveal_strlit("let");
    reveal_strlit("if");
    reveal_strlit("match");
    reveal_strlit("construct");
    reveal_strlit("as");
    reveal_strlit("type-tag");
    reveal_strlit("fn");
    reveal_strlit("require");
    reveal_strlit("type");
    reveal_strlit("adt");
    reveal_strlit("|");
    reveal_strlit("+");
    reveal_strlit("TypeTag");
    reveal_strlit("Fn");
    assert("let"@.len() == 3);
    assert("if"@.len() == 2);
    assert("match"@.len() == 5);
    assert("construct"@.len() == 9);
    assert("as"@.len() == 2);
    assert("type-tag"@.len() == 8);
    assert("fn"@.len() == 2);
    assert("require"@.len() == 7);
    assert("type"@.len() == 4);
    assert("let"@[0] != "adt"@[0]);
    assert("|"@.len() == 1);
    assert("+"@.len() == 1);
    assert("TypeTag"@.len() == 7);
    assert("Fn"@.len() == 2);
    assert("if"@[0] != "as"@[0]);
    assert("if"@[0] != "fn"@[0]);
    assert("adt"@.len() == 3);
    assert("if"@[0] != "Fn"@[0]);
    assert("as"@[0] != "fn"@[0]);
    assert("as"@[0] != "Fn"@[0]);
    assert("fn"@[0] != "Fn"@[0]);
    assert("require"@[0] != "TypeTag"@[0]);
    assert("|"@[0] != "+"@[0]);
}

/// The symbol of a word.
pub open spec fn word(w: Seq<char>) -> SSurface {
    SSurface::Symbol(w)
}

/// A conditional is written as its condition and its branches in order, and without a second branch
/// that is nothing.
pub proof fn conditionals_are_written_in_order(c: SSurface, a: SSurface, b: SSurface)
    ensures
        written(SSurface::List(seq![word("if"@), c, a, b])) == SExpr::If(
            Box::new(written(c)),
            Box::new(written(a)),
            Box::new(written(b)),
        ),
        written(SSurface::List(seq![word("if"@), c, a])) == SExpr::If(
            Box::new(written(c)),
            Box::new(written(a)),
            Box::new(SExpr::Unit),
        ),
{
    words_of_forms();
    reveal_with_fuel(written, 2);
    reveal_with_fuel(written_list, 2);
}

/// Literals, names and vectors stand for themselves and for what is in them, in order.
pub proof fn expressions_are_written_part_by_part(
    s: Seq<char>,
    n: i64,
    b: bool,
    items: Seq<SSurface>,
    pairs: Seq<(SSurface, SSurface)>,
)
    ensures
        written(SSurface::Nil) == SExpr::Unit,
        written(SSurface::Str(s)) == SExpr::Str(s),
        written(SSurface::Int(n)) == SExpr::Int(n),
        written(SSurface::Bool(b)) == SExpr::Bool(b),
        written(SSurface::Keyword(s)) == SExpr::Keyword(s),
        written(SSurface::Symbol(s)) == SExpr::Name(s),
        written(SSurface::Vector(items)) is Vector && written(
            SSurface::Vector(items),
        )->Vector_0.len() == items.len() && forall|i: int|
            0 <= i < items.len() ==> written(SSurface::Vector(items))->Vector_0[i] == written(
                #[trigger] items[i],
            ),
        keys_valid(pairs) ==> written(SSurface::Braces(pairs)) is Fields && written(
            SSurface::Braces(pairs),
        )->Fields_0.len() == pairs.len() && forall|i: int|
            0 <= i < pairs.len() ==> Some(written(SSurface::Braces(pairs))->Fields_0[i].0)
                == field_key((#[trigger] pairs[i]).0) && written(
                SSurface::Braces(pairs),
            )->Fields_0[i].1 == written(pairs[i].1),
        !keys_valid(pairs) ==> written(SSurface::Braces(pairs)) is Invalid,
{
    reveal_with_fuel(written, 2);
    reveal_with_fuel(written_all, 2);
    reveal_with_fuel(written_pairs, 2);
}

/// A list that begins with none of the words of forms is a call of what it begins with on what
/// follows, in order.
pub proof fn other_lists_are_calls(items: Seq<SSurface>)
    requires
        items.len() > 0,
        symbol(items[0]) matches Some(w) ==> w != "let"@ && w != "if"@ && w != "match"@ && w != "construct"@ && w != "as"@ && w != "type-tag"@ && w != "fn"@,
    ensures
        written(SSurface::List(items)) is Call,
        *written(SSurface::List(items))->Call_0 == written(items[0]),
        written(SSurface::List(items))->Call_1.len() == items.len() - 1,
        forall|i: int|
            1 <= i < items.len() ==> written(SSurface::List(items))->Call_1[i - 1] == written(
                #[trigger] items[i],
            ),
{
    reveal_with_fuel(written, 2);
    reveal_with_fuel(written_list, 2);
    reveal_with_fuel(written_all, 2);
    let args = written_all(items, 1);
    assert forall|i: int| 1 <= i < items.len() implies args[i - 1] == written(
        #[trigger] items[i],
    ) by {
        assert((i - 1) + 1 == i);
    }
}

proof fn arms_without_problem(items: Seq<SSurface>, i: nat)
    ensures
        arms_problem(items, i) is None <==> forall|k: int|
            i <= k < items.len() ==> arm_problem(#[trigger] items[k]) is None,
    decreases items.len() - i,
{
    if i < items.len() {
        arms_without_problem(items, i + 1);
    }
}

/// A match is written as its value and its arms in order, each a constructor, a name and a body.
pub proof fn matches_are_written_arm_by_arm(items: Seq<SSurface>)
    requires
        items.len() >= 3,
        items[0] == word("match"@),
        forall|k: int| 2 <= k < items.len() ==> arm_problem(#[trigger] items[k]) is None,
    ensures
        written(SSurface::List(items)) is Match,
        *written(SSurface::List(items))->Match_0 == written(items[1]),
        written(SSurface::List(items))->Match_1.len() == items.len() - 2,
        forall|k: int|
            2 <= k < items.len() ==> ({
                let arm = written(SSurface::List(items))->Match_1[k - 2];
                let parts = (#[trigger] items[k])->Vector_0;
                symbol(parts[0]) == Some(arm.constructor) && symbol(parts[1]) == Some(arm.binding)
                    && *arm.body == written(parts[2])
            }),
{
    words_of_forms();
    reveal_with_fuel(written, 3);
    reveal_with_fuel(written_list, 2);
    reveal_with_fuel(written_arms, 2);
    arms_without_problem(items, 2);
    let arms = written_arms(items, 2);
    assert forall|k: int| 2 <= k < items.len() implies ({
        let arm = arms[k - 2];
        let parts = (#[trigger] items[k])->Vector_0;
        symbol(parts[0]) == Some(arm.constructor) && symbol(parts[1]) == Some(arm.binding)
            && *arm.body == written(parts[2])
    }) by {
        assert((k - 2) + 2 == k);
        assert(arm_problem(items[k]) is None);
    }
}

/// Constructions, ascriptions and tags are written with their types first.
pub proof fn typed_forms_are_written_with_their_types(
    t: SSurface,
    name: Seq<char>,
    value: SSurface,
)
    ensures
        written(SSurface::List(seq![word("construct"@), t, word(name), value]))
            == SExpr::Construct(written_type(t), name, Box::new(written(value))),
        written(SSurface::List(seq![word("as"@), t, value])) == SExpr::Ascribe(
            written_type(t),
            Box::new(written(value)),
        ),
        written(SSurface::List(seq![word("type-tag"@), t])) == SExpr::TypeTag(written_type(t)),
{
    words_of_forms();
    reveal_with_fuel(written, 2);
    reveal_with_fuel(written_list, 2);
}

/// A definition binds its name to its value, and a requirement names its module.
pub proof fn definitions_are_written_with_their_names(
    name: Seq<char>,
    value: SSurface,
    module: Seq<char>,
)
    ensures
        written_item(SSurface::List(seq![word("let"@), word(name), value])) == SItem::Let(
            name,
            written(value),
        ),
        written_form(SSurface::List(seq![word("let"@), word(name), value])) == SForm::Block(
            SItem::Let(name, written(value)),
        ),
        written_form(SSurface::List(seq![word("require"@), SSurface::Str(module)]))
            == SForm::Require(module, SExposure::Qualified),
        written(SSurface::List(seq![word("let"@), word(name), value])) is Invalid,
{
    words_of_forms();
    reveal_with_fuel(written, 2);
    reveal_with_fuel(written_list, 2);
    reveal_with_fuel(written_item, 2);
}

/// A function is written as its parameters, each a name and a type, its result and its body, in
/// order.
pub proof fn functions_are_written_part_by_part(
    params: Seq<SSurface>,
    result: SSurface,
    body: SSurface,
)
    requires
        function_problem(
            seq![word("fn"@), SSurface::Vector(params), word("->"@), result, body],
        ) is None,
    ensures
        ({
            let items = seq![word("fn"@), SSurface::Vector(params), word("->"@), result, body];
            let f = written(SSurface::List(items))->Function_0;
            &&& written(SSurface::List(items)) is Function
            &&& f.type_params.len() == 0 && f.result == written_type(result)
            &&& f.params.len() == params.len() && (forall|i: int|
                0 <= i < params.len() ==> symbol((#[trigger] params[i])->Vector_0[0]) == Some(
                    f.params[i].0,
                ) && f.params[i].1 == written_type(params[i]->Vector_0[1]))
            &&& f.body == seq![written_item(body)]
        }),
{
    words_of_forms();
    reveal_with_fuel(written, 2);
    reveal_with_fuel(written_list, 2);
    reveal_with_fuel(written_function, 2);
    reveal_with_fuel(written_items, 2);
    let items = seq![word("fn"@), SSurface::Vector(params), word("->"@), result, body];
    parameters_without_problem(params, 0);
    assert(written_items(items, 4) =~= seq![written_item(body)]);
}

proof fn parameters_without_problem(items: Seq<SSurface>, i: nat)
    ensures
        parameters_problem(items, i) is None <==> forall|k: int|
            i <= k < items.len() ==> parameter_problem(#[trigger] items[k]) is None,
    decreases items.len() - i,
{
    if i < items.len() {
        parameters_without_problem(items, i + 1);
    }
}

/// A type is written as its name, as fields, or as a word and the types it takes, in order.
pub proof fn types_are_written_part_by_part(
    name: Seq<char>,
    pairs: Seq<(SSurface, SSurface)>,
    a: SSurface,
    b: SSurface,
)
    ensures
        written_type(SSurface::Symbol(name)) == SAuthoredType::Name(name),
        keys_valid(pairs) ==> written_type(SSurface::Braces(pairs)) is Record && written_type(
            SSurface::Braces(pairs),
        )->Record_0.len() == pairs.len() && forall|i: int|
            0 <= i < pairs.len() ==> Some(written_type(SSurface::Braces(pairs))->Record_0[i].0)
                == field_key((#[trigger] pairs[i]).0) && written_type(
                SSurface::Braces(pairs),
            )->Record_0[i].1 == written_type(pairs[i].1),
        written_type(SSurface::List(seq![word("Fn"@), a, b])) == SAuthoredType::Function(
            seq![written_type(a)],
            Box::new(written_type(b)),
        ),
        written_type(SSurface::List(seq![word("+"@), a, b])) == SAuthoredType::Product(
            seq![written_type(a), written_type(b)],
        ),
        written_type(SSurface::List(seq![word("TypeTag"@), a])) == SAuthoredType::Tag(
            Box::new(written_type(a)),
        ),
        name != "|"@ && name != "+"@ && name != "TypeTag"@ && name != "Fn"@ ==> written_type(
            SSurface::List(seq![word(name), a, b]),
        ) == SAuthoredType::Apply(name, seq![written_type(a), written_type(b)]),
{
    words_of_forms();
    reveal_with_fuel(written_type, 3);
    reveal_with_fuel(written_types, 2);
    reveal_with_fuel(written_fields, 2);
    let f = seq![word("Fn"@), a, b];
    assert(written_types(f, 1, 2) =~= seq![written_type(a)]);
    let p = seq![word("+"@), a, b];
    assert(written_types(p, 1, 3) =~= seq![written_type(a), written_type(b)]);
    let q = seq![word(name), a, b];
    assert(written_types(q, 1, 3) =~= seq![written_type(a), written_type(b)]);
}

/// A module stands for its forms in order.
pub proof fn modules_are_written_form_by_form(items: Seq<SSurface>)
    ensures
        written_module(items).len() == items.len(),
        forall|i: int|
            0 <= i < items.len() ==> #[trigger] written_module(items)[i] == written_form(items[i]),
{
}

proof fn constructors_without_problem(items: Seq<SSurface>, i: nat)
    ensures
        constructors_problem(items, i) is None <==> forall|k: int|
            i <= k < items.len() ==> constructor_problem(#[trigger] items[k]) is None,
    decreases items.len() - i,
{
    if i < items.len() {
        constructors_without_problem(items, i + 1);
    }
}

/// A declaration of a type is written as its name, its parameters if any and its body: fields for a
/// record, another type, or constructors in order, each a name and a type.
pub proof fn declarations_are_written_with_their_bodies(
    name: Seq<char>,
    pairs: Seq<(SSurface, SSurface)>,
    params: Seq<SSurface>,
    items: Seq<SSurface>,
)
    ensures
        keys_valid(pairs) ==> written_form(
            SSurface::List(seq![word("type"@), word(name), SSurface::Braces(pairs)]),
        ) == SForm::Type(
            (STypeDeclaration {
                name,
                params: Seq::empty(),
                body: SDeclarationBody::Fields(written_fields(pairs)),
            }),
        ),
        all_symbols(params) && keys_valid(pairs) ==> written_form(
            SSurface::List(
                seq![
                    word("type"@),
                    word(name),
                    SSurface::Vector(params),
                    SSurface::Braces(pairs),
                ],
            ),
        ) == SForm::Type(
            (STypeDeclaration {
                name,
                params: symbols(params),
                body: SDeclarationBody::Fields(written_fields(pairs)),
            }),
        ),
        items.len() > 0 && items[0] == word("adt"@) && (forall|k: int|
            1 <= k < items.len() ==> constructor_problem(#[trigger] items[k]) is None)
            ==> written_body(SSurface::List(items)) is Adt && written_body(
            SSurface::List(items),
        )->Adt_0.len() == items.len() - 1 && (forall|k: int|
            1 <= k < items.len() ==> Some(written_body(SSurface::List(items))->Adt_0[k - 1].0)
                == symbol((#[trigger] items[k])->Vector_0[0]) && written_body(
                SSurface::List(items),
            )->Adt_0[k - 1].1 == written_type(items[k]->Vector_0[1])),
{
    words_of_forms();
    reveal_with_fuel(written_type, 2);
    constructors_without_problem(items, 1);
    if items.len() > 0 && items[0] == word("adt"@) && (forall|k: int|
        1 <= k < items.len() ==> constructor_problem(#[trigger] items[k]) is None) {
        let made = written_constructors(items);
        assert forall|k: int| 1 <= k < items.len() implies Some(made[k - 1].0) == symbol(
            (#[trigger] items[k])->Vector_0[0],
        ) && made[k - 1].1 == written_type(items[k]->Vector_0[1]) by {
            assert((k - 1) + 1 == k);
            assert(constructor_problem(items[k]) is None);
        }
    }
}

proof fn constructors_are_denoted(
    env: SEnv,
    owner: Seq<char>,
    items: Seq<(Seq<char>, SAuthoredType)>,
    vars: Set<Seq<char>>,
    done: Seq<SConstructor>,
)
    requires
        done.len() <= items.len(),
        forall|i: int|
            0 <= i < done.len() ==> (#[trigger] done[i]).id.owner == owner && done[i].id.name
                == items[i].0 && denoted(env, items[i].1, vars) == Ok::<SType, SError>(
                done[i].payload,
            ),
    ensures
        constructors_denoted(env, owner, items, vars, done) matches Ok(c) ==> c.len() == items.len()
            && forall|i: int|
            0 <= i < items.len() ==> (#[trigger] c[i]).id.owner == owner && c[i].id.name
                == items[i].0 && denoted(env, items[i].1, vars) == Ok::<SType, SError>(c[i].payload),
    decreases items.len() - done.len(),
{
    if done.len() < items.len() {
        let (name, payload) = items[done.len() as int];
        match denoted(env, payload, vars) {
            Ok(t) => {
                let c = SConstructor { id: SConstructorId { owner, name }, payload: t };
                constructors_are_denoted(env, owner, items, vars, done.push(c));
            },
            Err(_) => {},
        }
    }
}

/// A declaration declares what it writes, under its name in its module: an alias the type itself, a
/// new type its body, an algebraic type its constructors in order, each with its name and the type
/// of what it holds.
pub proof fn declarations_declare_what_they_write(env: SEnv, d: STypeDeclaration)
    ensures
        declared_value(env, d) matches Ok(v) ==> {
            &&& d.body matches SDeclarationBody::TransparentAlias(t) ==> v is Type && denoted(
                env,
                t,
                d.params.to_set(),
            ) == Ok::<SType, SError>(v->Type_0)
            &&& !(d.body is TransparentAlias) ==> v is TypeDecl && v->TypeDecl_0.name
                == env.qualified(d.name) && v->TypeDecl_0.params == d.params
            &&& d.body matches SDeclarationBody::Newtype(t) ==> v->TypeDecl_0.body is Nominal
                && denoted(env, t, d.params.to_set()) == Ok::<SType, SError>(
                v->TypeDecl_0.body->Nominal_0,
            )
            &&& d.body matches SDeclarationBody::Fields(f) ==> v->TypeDecl_0.body is Nominal
                && denoted(env, SAuthoredType::Record(f), d.params.to_set()) == Ok::<
                SType,
                SError,
            >(v->TypeDecl_0.body->Nominal_0)
            &&& d.body matches SDeclarationBody::Adt(items) ==> v->TypeDecl_0.body is Adt
                && v->TypeDecl_0.body->Adt_0.len() == items.len() && (forall|i: int|
                0 <= i < items.len() ==> (#[trigger] v->TypeDecl_0.body->Adt_0[i]).id.owner
                    == env.qualified(d.name) && v->TypeDecl_0.body->Adt_0[i].id.name == items[i].0
                    && denoted(env, items[i].1, d.params.to_set()) == Ok::<SType, SError>(
                    v->TypeDecl_0.body->Adt_0[i].payload,
                ))
        },
{
    reveal(declared_value);
    reveal_with_fuel(denoted, 2);
    match d.body {
        SDeclarationBody::Adt(items) => {
            let vars = d.params.to_set();
            let owner = env.qualified(d.name);
            constructors_are_denoted(env, owner, items, vars, Seq::empty());
        },
        _ => {},
    }
}

proof fn requirements_are_met(env: SEnv, table: SBindings, types: Seq<SType>, s: SSubst)
    ensures
        required_all(env, table, types, s).1 is Ok ==> forall|i: int|
            0 <= i < types.len() ==> !holds_function(apply(#[trigger] types[i], s)),
    decreases types.len(),
{
    if types.len() > 0 {
        let t = apply(types[0], s);
        types_with_functions_are_not_compared(env, table, t, Seq::empty());
        let after = required_equality(env, table, t).0;
        let rest = types.drop_first();
        requirements_are_met(env, after, rest, s);
        if required_all(env, table, types, s).1 is Ok {
            assert forall|i: int| 0 <= i < types.len() implies !holds_function(
                apply(#[trigger] types[i], s),
            ) by {
                if i > 0 {
                    assert(rest[i - 1] == types[i]);
                }
            }
        }
    }
}

/// A function that compares values of a type parameter is not called where that stands for a type
/// with functions, whether the call was checked before or is checked by its arguments.
pub proof fn calls_meet_equality_requirements(
    env: SEnv,
    table: SBindings,
    f: SFn,
    args: Seq<SValue>,
    resolved: SType,
)
    ensures
        called(env, table, f, args).1 matches Ok((_, s)) ==> forall|i: int|
            0 <= i < f.equality_params.len() ==> !holds_function(
                apply(SType::Var(#[trigger] f.equality_params[i]), s),
            ),
        called_at(env, table, f, resolved).1 matches Ok((_, s)) ==> forall|i: int|
            0 <= i < f.equality_params.len() ==> !holds_function(
                apply(SType::Var(#[trigger] f.equality_params[i]), s),
            ),
{
    reveal(called);
    reveal(called_at);
    let vars = as_vars(f.equality_params);
    if called(env, table, f, args).1 is Ok {
        let s = called(env, table, f, args).1->Ok_0.1;
        requirements_are_met(env, table, vars, s);
        assert forall|i: int| 0 <= i < f.equality_params.len() implies !holds_function(
            apply(SType::Var(#[trigger] f.equality_params[i]), s),
        ) by {
            assert(vars[i] == SType::Var(f.equality_params[i]));
        }
    }
    if called_at(env, table, f, resolved).1 is Ok {
        let s = called_at(env, table, f, resolved).1->Ok_0.1;
        requirements_are_met(env, table, vars, s);
        assert forall|i: int| 0 <= i < f.equality_params.len() implies !holds_function(
            apply(SType::Var(#[trigger] f.equality_params[i]), s),
        ) by {
            assert(vars[i] == SType::Var(f.equality_params[i]));
        }
    }
}

/// A call that was checked has its equality requirements met by the types that were found.
pub proof fn checked_calls_meet_equality_requirements(
    env: SEnv,
    table: SBindings,
    c: SCandidate,
    params: Seq<SType>,
    result: SType,
    args: Seq<SChecked>,
    subst: SSubst,
    expected: Option<SType>,
    i: int,
)
    requires
        constrained_call(env, table, c, params, result, args, subst, expected).1 is Ok,
        0 <= i < instance_requirements(env, table, c).len(),
    ensures
        !holds_function(
            apply(
                instance_requirements(env, table, c)[i],
                constrained_by(
                    env,
                    apply(result, subst),
                    expected,
                    subst,
                    instance_vars(c),
                ).0,
            ),
        ),
{
    reveal(constrained_call);
    let s = constrained_by(env, apply(result, subst), expected, subst, instance_vars(c)).0;
    requirements_are_met(env, table, instance_requirements(env, table, c), s);
}

proof fn types_of_arguments(args: Seq<SValue>, done: Seq<SType>)
    requires
        done.len() <= args.len(),
        forall|i: int| 0 <= i < done.len() ==> type_of(args[i]) == Some(#[trigger] done[i]),
    ensures
        argument_value_types(args, done) matches Ok(t) ==> t.len() == args.len() && forall|i: int|
            0 <= i < args.len() ==> type_of(args[i]) == Some(#[trigger] t[i]),
    decreases args.len() - done.len(),
{
    if done.len() < args.len() {
        match type_of(args[done.len() as int]) {
            Some(t) => {
                types_of_arguments(args, done.push(t));
            },
            None => {},
        }
    }
}

proof fn closed_arguments_match(
    env: SEnv,
    args: Seq<SType>,
    params: Seq<SType>,
    subst: SSubst,
    i: int,
)
    requires
        args.len() == params.len(),
        0 <= i < params.len(),
        closed_type(env, args[i]) is Ok,
        closed_type(env, params[i]) is Ok,
        fit_params(env, args, params, subst).1 is Ok,
    ensures
        closed_type(env, args[i]) == closed_type(env, params[i]),
    decreases params.len(),
{
    reveal_with_fuel(fit_params, 2);
    let after = fit_any(env, args[0], apply(params[0], subst), subst).0;
    if i == 0 {
        assert forall|n: Seq<char>| #[trigger] occurs(params[0], n) implies !subst.dom().contains(
            n,
        ) by {
            types_with_variables_have_no_closed_form(env, params[0], n);
        }
        other_variables_stay(params[0], subst);
        reveal(fit_any);
        closed_types_fit_where_they_are_the_same(
            env,
            args[0],
            params[0],
            subst,
            None,
            crate::resolve::expansion_limit(env),
        );
    } else {
        closed_arguments_match(env, args.drop_first(), params.drop_first(), after, i - 1);
    }
}

/// A function is called on as many arguments as it has parameters, each of the type of its
/// parameter.
pub proof fn called_functions_take_their_arguments(
    env: SEnv,
    table: SBindings,
    f: SFn,
    args: Seq<SValue>,
    i: int,
)
    requires
        called(env, table, f, args).1 is Ok,
    ensures
        args.len() == f.param_types.len(),
        0 <= i < args.len() ==> type_of(args[i]) is Some && (closed_type(
            env,
            type_of(args[i])->Some_0,
        ) is Ok && closed_type(env, f.param_types[i]) is Ok ==> closed_type(
            env,
            type_of(args[i])->Some_0,
        ) == closed_type(env, f.param_types[i])),
{
    reveal(called);
    types_of_arguments(args, Seq::empty());
    if 0 <= i < args.len() {
        let types = argument_value_types(args, Seq::empty())->Ok_0;
        assert(type_of(args[i]) == Some(types[i]));
        if closed_type(env, types[i]) is Ok && closed_type(env, f.param_types[i]) is Ok {
            closed_arguments_match(env, types, f.param_types, Map::empty(), i);
        }
    }
}

} // verus!
