//! Type variables: which occur in a type, what stands for them, and types up to their renaming.

use vstd::prelude::*;

use crate::text::{cat2, contains_name, decimal, listed, same, show_usize, strings};
use crate::types::{fields_view, type_text, types_view, MagType, SType};

verus! {

broadcast use vstd::seq_lib::group_seq_properties;

/// A finite set of names.
pub struct NameSet {
    pub names: Vec<String>,
}

impl View for NameSet {
    type V = Set<Seq<char>>;

    open spec fn view(&self) -> Set<Seq<char>> {
        Set::new(|n: Seq<char>| listed(self.names@, n))
    }
}

impl NameSet {
    pub fn new() -> (r: NameSet)
        ensures
            r@ == Set::<Seq<char>>::empty(),
    {
        let r = NameSet { names: Vec::new() };
        assert(r@ =~= Set::<Seq<char>>::empty());
        r
    }

    pub fn contains(&self, name: &str) -> (r: bool)
        ensures
            r == self@.contains(name@),
    {
        contains_name(&self.names, name)
    }

    pub fn insert(&mut self, name: &str)
        ensures
            final(self)@ == old(self)@.insert(name@),
    {
        let ghost before = self.names@;
        if !contains_name(&self.names, name) {
            let item = name.to_owned();
            self.names.push(item);
            proof {
                assert forall|n: Seq<char>| listed(before.push(item), n) <==> (n == name@ || listed(
                    before,
                    n,
                )) by {
                    if listed(before, n) {
                        let i = choose|i: int| 0 <= i < before.len() && (#[trigger] before[i])@ == n;
                        assert(before.push(item)[i]@ == n);
                    }
                    if n == name@ {
                        assert(before.push(item)[before.len() as int]@ == n);
                    }
                }
            }
        }
        assert(self@ =~= old(self)@.insert(name@));
    }

    pub fn extend(&mut self, other: &NameSet)
        ensures
            final(self)@ == old(self)@.union(other@),
    {
        let mut i: usize = 0;
        while i < other.names.len()
            invariant
                i <= other.names.len(),
                forall|n: Seq<char>|
                    self@.contains(n) <==> (old(self)@.contains(n) || exists|j: int|
                        0 <= j < i && (#[trigger] other.names@[j])@ == n),
            decreases other.names.len() - i,
        {
            self.insert(&other.names[i]);
            i = i + 1;
        }
        assert(self@ =~= old(self)@.union(other@));
    }

    pub fn extend_names(&mut self, names: &Vec<String>)
        ensures
            final(self)@ == old(self)@.union(strings(names@).to_set()),
    {
        let mut i: usize = 0;
        while i < names.len()
            invariant
                i <= names.len(),
                forall|n: Seq<char>|
                    self@.contains(n) <==> (old(self)@.contains(n) || exists|j: int|
                        0 <= j < i && (#[trigger] names@[j])@ == n),
            decreases names.len() - i,
        {
            self.insert(&names[i]);
            i = i + 1;
        }
        assert forall|n: Seq<char>| self@.contains(n) <==> old(self)@.union(
            strings(names@).to_set(),
        ).contains(n) by {
            if strings(names@).contains(n) {
                let j = choose|j: int| 0 <= j < names@.len() && strings(names@)[j] == n;
                assert(names@[j]@ == n);
            }
            if exists|j: int| 0 <= j < names@.len() && (#[trigger] names@[j])@ == n {
                let j = choose|j: int| 0 <= j < names@.len() && (#[trigger] names@[j])@ == n;
                assert(strings(names@)[j] == n);
            }
        }
        assert(self@ =~= old(self)@.union(strings(names@).to_set()));
    }
}

impl Clone for NameSet {
    fn clone(&self) -> (r: NameSet)
        ensures
            r@ == self@,
    {
        let mut r = NameSet::new();
        r.extend(self);
        assert(r@ =~= self@);
        r
    }
}

/// The finite map that a list of entries spells out: a later entry replaces an earlier one.
pub open spec fn entry_map(entries: Seq<(Seq<char>, SType)>) -> Map<Seq<char>, SType>
    decreases entries.len(),
{
    if entries.len() == 0 {
        Map::empty()
    } else {
        entry_map(entries.drop_last()).insert(entries.last().0, entries.last().1)
    }
}

/// What stands for type variables.
pub struct Substitution {
    pub entries: Vec<(String, MagType)>,
}

impl View for Substitution {
    type V = Map<Seq<char>, SType>;

    open spec fn view(&self) -> Map<Seq<char>, SType> {
        entry_map(fields_view(self.entries@))
    }
}

impl Substitution {
    pub fn new() -> (r: Substitution)
        ensures
            r@ == Map::<Seq<char>, SType>::empty(),
            r.entries@.len() == 0,
    {
        let r = Substitution { entries: Vec::new() };
        assert(fields_view(r.entries@) =~= Seq::empty());
        r
    }

    pub fn get(&self, name: &str) -> (r: Option<&MagType>)
        ensures
            match r {
                Some(t) => self@.dom().contains(name@) && self@[name@] == t@,
                None => !self@.dom().contains(name@),
            },
    {
        let ghost all = fields_view(self.entries@);
        let mut i: usize = self.entries.len();
        assert(all.take(i as int) =~= all);
        while i > 0
            invariant
                i <= self.entries.len(),
                all == fields_view(self.entries@),
                all.len() == self.entries.len(),
                self@ == entry_map(all),
                self@.dom().contains(name@) == entry_map(all.take(i as int)).dom().contains(name@),
                entry_map(all.take(i as int)).dom().contains(name@) ==> self@[name@] == entry_map(
                    all.take(i as int),
                )[name@],
            decreases i,
        {
            let k: usize = i - 1;
            proof {
                assert(all.take(i as int).drop_last() =~= all.take(k as int));
                assert(all.take(i as int).last() == all[k as int]);
            }
            if same(&self.entries[k].0, name) {
                return Some(&self.entries[k].1);
            }
            i = k;
        }
        assert(all.take(0) =~= Seq::empty());
        None
    }

    pub fn insert(&mut self, name: &str, ty: MagType)
        ensures
            final(self)@ == old(self)@.insert(name@, ty@),
            final(self).entries@.len() == old(self).entries@.len() + 1,
    {
        let ghost before = fields_view(self.entries@);
        let ghost model = ty@;
        self.entries.push((name.to_owned(), ty));
        proof {
            let after = fields_view(self.entries@);
            assert(after.drop_last() =~= before);
            assert(after.last() == (name@, model));
        }
    }
}

impl Clone for Substitution {
    fn clone(&self) -> (r: Substitution)
        ensures
            r@ == self@,
    {
        Substitution { entries: crate::types::clone_fields(&self.entries) }
    }
}

/// Whether the variable `n` occurs in `t`.
pub open spec fn occurs(t: SType, n: Seq<char>) -> bool
    decreases t,
{
    match t {
        SType::Var(v) => v == n,
        SType::Named(_, a) => some_occurs(a, n),
        SType::TypeTag(t) => occurs(*t, n),
        SType::List(t) => occurs(*t, n),
        SType::SetOf(t) => occurs(*t, n),
        SType::MapOf(k, v) => occurs(*k, n) || occurs(*v, n),
        SType::Record(f) => some_field_occurs(f, n),
        SType::Product(a) => some_occurs(a, n),
        SType::Function(a, r) => some_occurs(a, n) || occurs(*r, n),
        _ => false,
    }
}

pub open spec fn some_occurs(items: Seq<SType>, n: Seq<char>) -> bool
    decreases items,
{
    exists|i: int| 0 <= i < items.len() && occurs(#[trigger] items[i], n)
}

pub open spec fn some_field_occurs(items: Seq<(Seq<char>, SType)>, n: Seq<char>) -> bool
    decreases items,
{
    exists|i: int| 0 <= i < items.len() && occurs((#[trigger] items[i]).1, n)
}

/// The variables that occur in `t`.
pub open spec fn vars(t: SType) -> Set<Seq<char>> {
    Set::new(|n: Seq<char>| occurs(t, n))
}

/// Adds the variables of a type to a set.
pub fn collect_vars(ty: &MagType, out: &mut NameSet)
    ensures
        final(out)@ == old(out)@.union(vars(ty@)),
    decreases ty,
{
    match ty {
        MagType::Var(name) => {
            out.insert(name);
        },
        MagType::Named(_, a) => collect_vars_of(a, out),
        MagType::Product(a) => collect_vars_of(a, out),
        MagType::List(t) => collect_vars(t, out),
        MagType::SetOf(t) => collect_vars(t, out),
        MagType::TypeTag(t) => collect_vars(t, out),
        MagType::MapOf(k, v) => {
            collect_vars(k, out);
            collect_vars(v, out);
        },
        MagType::Record(f) => collect_field_vars(f, out),
        MagType::Function(a, r) => {
            collect_vars_of(a, out);
            collect_vars(r, out);
        },
        _ => {},
    }
    assert(out@ =~= old(out)@.union(vars(ty@)));
}

pub fn collect_vars_of(items: &Vec<MagType>, out: &mut NameSet)
    ensures
        final(out)@ == old(out)@.union(
            Set::new(|n: Seq<char>| some_occurs(types_view(items@), n)),
        ),
    decreases items,
{
    let ghost all = types_view(items@);
    let mut i: usize = 0;
    while i < items.len()
        invariant
            i <= items.len(),
            all == types_view(items@),
            forall|n: Seq<char>|
                out@.contains(n) <==> (old(out)@.contains(n) || exists|j: int|
                    0 <= j < i && occurs(#[trigger] all[j], n)),
        decreases items.len() - i,
    {
        let ghost before = out@;
        collect_vars(&items[i], out);
        proof {
            assert(all[i as int] == items@[i as int]@);
            assert forall|n: Seq<char>| out@.contains(n) implies (old(out)@.contains(n) || exists|
                j: int,
            | 0 <= j < i + 1 && occurs(#[trigger] all[j], n)) by {
                if !before.contains(n) {
                    assert(occurs(all[i as int], n));
                }
            }
        }
        i = i + 1;
    }
    assert(out@ =~= old(out)@.union(Set::new(|n: Seq<char>| some_occurs(types_view(items@), n))));
}

pub fn collect_field_vars(items: &Vec<(String, MagType)>, out: &mut NameSet)
    ensures
        final(out)@ == old(out)@.union(
            Set::new(|n: Seq<char>| some_field_occurs(fields_view(items@), n)),
        ),
    decreases items,
{
    let ghost all = fields_view(items@);
    let mut i: usize = 0;
    while i < items.len()
        invariant
            i <= items.len(),
            all == fields_view(items@),
            forall|n: Seq<char>|
                out@.contains(n) <==> (old(out)@.contains(n) || exists|j: int|
                    0 <= j < i && occurs((#[trigger] all[j]).1, n)),
        decreases items.len() - i,
    {
        let ghost before = out@;
        collect_vars(&items[i].1, out);
        proof {
            assert(all[i as int].1 == items@[i as int].1@);
            assert forall|n: Seq<char>| out@.contains(n) implies (old(out)@.contains(n) || exists|
                j: int,
            | 0 <= j < i + 1 && occurs((#[trigger] all[j]).1, n)) by {
                if !before.contains(n) {
                    assert(occurs(all[i as int].1, n));
                }
            }
        }
        i = i + 1;
    }
    assert(out@ =~= old(out)@.union(
        Set::new(|n: Seq<char>| some_field_occurs(fields_view(items@), n)),
    ));
}

/// Whether any variable occurs in a type.
pub fn has_type_variables(ty: &MagType) -> (r: bool)
    ensures
        r == exists|n: Seq<char>| occurs(ty@, n),
{
    let mut variables = NameSet::new();
    collect_vars(ty, &mut variables);
    if variables.names.len() > 0 {
        proof {
            let n = variables.names@[0]@;
            assert(variables@.contains(n));
            assert(occurs(ty@, n));
        }
        true
    } else {
        assert forall|n: Seq<char>| !occurs(ty@, n) by {
            assert(!variables@.contains(n));
        }
        false
    }
}

/// Whether a name is one that the checker made: such names start with a null character.
pub open spec fn internal_name(n: Seq<char>) -> bool {
    n.len() > 0 && n[0] == '\0'
}

pub fn is_internal(name: &str) -> (r: bool)
    ensures
        r == internal_name(name@),
{
    name.unicode_len() > 0 && name.get_char(0) == '\0'
}

/// The variables of `t` that the checker made.
pub open spec fn internal_vars(t: SType) -> Set<Seq<char>> {
    Set::new(|n: Seq<char>| occurs(t, n) && internal_name(n))
}

pub fn internal_type_variables(ty: &MagType) -> (r: NameSet)
    ensures
        r@ == internal_vars(ty@),
{
    let mut variables = NameSet::new();
    collect_vars(ty, &mut variables);
    let mut r = NameSet::new();
    let mut i: usize = 0;
    while i < variables.names.len()
        invariant
            i <= variables.names.len(),
            forall|n: Seq<char>|
                #[trigger] r@.contains(n) ==> internal_name(n) && listed(variables.names@, n),
            forall|j: int|
                0 <= j < i && internal_name((#[trigger] variables.names@[j])@) ==> r@.contains(
                    variables.names@[j]@,
                ),
        decreases variables.names.len() - i,
    {
        let name = variables.names[i].as_str();
        assert(listed(variables.names@, variables.names@[i as int]@));
        if is_internal(name) {
            r.insert(name);
        }
        i = i + 1;
    }
    assert forall|n: Seq<char>| r@.contains(n) <==> internal_vars(ty@).contains(n) by {
        assert(variables@.contains(n) <==> vars(ty@).contains(n));
        assert(variables@.contains(n) <==> listed(variables.names@, n));
        if internal_vars(ty@).contains(n) {
            assert(internal_name(n) && listed(variables.names@, n));
        }
        if r@.contains(n) {
            assert(internal_name(n) && listed(variables.names@, n));
            assert(vars(ty@).contains(n));
            assert(occurs(ty@, n));
        }
    }
    assert(r@ =~= internal_vars(ty@));
    r
}

/// The type in which every variable of the substitution's domain is replaced by what stands for
/// it, all at once.
pub open spec fn apply(t: SType, m: Map<Seq<char>, SType>) -> SType
    decreases t,
{
    match t {
        SType::Var(n) => if m.dom().contains(n) {
            m[n]
        } else {
            t
        },
        SType::Named(n, a) => SType::Named(n, apply_all(a, m)),
        SType::TypeTag(t) => SType::TypeTag(Box::new(apply(*t, m))),
        SType::List(t) => SType::List(Box::new(apply(*t, m))),
        SType::SetOf(t) => SType::SetOf(Box::new(apply(*t, m))),
        SType::MapOf(k, v) => SType::MapOf(Box::new(apply(*k, m)), Box::new(apply(*v, m))),
        SType::Record(f) => SType::Record(apply_fields(f, m)),
        SType::Product(a) => SType::Product(apply_all(a, m)),
        SType::Function(a, r) => SType::Function(apply_all(a, m), Box::new(apply(*r, m))),
        _ => t,
    }
}

pub open spec fn apply_all(items: Seq<SType>, m: Map<Seq<char>, SType>) -> Seq<SType>
    decreases items,
{
    Seq::new(
        items.len(),
        |i: int|
            if 0 <= i < items.len() {
                apply(items[i], m)
            } else {
                arbitrary()
            },
    )
}

pub open spec fn apply_fields(
    items: Seq<(Seq<char>, SType)>,
    m: Map<Seq<char>, SType>,
) -> Seq<(Seq<char>, SType)>
    decreases items,
{
    Seq::new(
        items.len(),
        |i: int|
            if 0 <= i < items.len() {
                (items[i].0, apply(items[i].1, m))
            } else {
                arbitrary()
            },
    )
}

/// A substitution leaves a type alone where it says nothing of the type's variables.
pub proof fn other_variables_stay(t: SType, m: Map<Seq<char>, SType>)
    requires
        forall|n: Seq<char>| #[trigger] occurs(t, n) ==> !m.dom().contains(n),
    ensures
        apply(t, m) == t,
    decreases t,
{
    match t {
        SType::Var(n) => {
            assert(occurs(t, n));
        },
        SType::Named(_, a) => {
            assert forall|n: Seq<char>| #[trigger] some_occurs(a, n) implies !m.dom().contains(
                n,
            ) by {
                assert(occurs(t, n));
            }
            other_variables_of_all_stay(a, m);
        },
        SType::Product(a) => {
            assert forall|n: Seq<char>| #[trigger] some_occurs(a, n) implies !m.dom().contains(
                n,
            ) by {
                assert(occurs(t, n));
            }
            other_variables_of_all_stay(a, m);
        },
        SType::TypeTag(s) => {
            assert forall|n: Seq<char>| #[trigger] occurs(*s, n) implies !m.dom().contains(n) by {
                assert(occurs(t, n));
            }
            other_variables_stay(*s, m);
        },
        SType::List(s) => {
            assert forall|n: Seq<char>| #[trigger] occurs(*s, n) implies !m.dom().contains(n) by {
                assert(occurs(t, n));
            }
            other_variables_stay(*s, m);
        },
        SType::SetOf(s) => {
            assert forall|n: Seq<char>| #[trigger] occurs(*s, n) implies !m.dom().contains(n) by {
                assert(occurs(t, n));
            }
            other_variables_stay(*s, m);
        },
        SType::MapOf(k, v) => {
            assert forall|n: Seq<char>| #[trigger] occurs(*k, n) implies !m.dom().contains(n) by {
                assert(occurs(t, n));
            }
            assert forall|n: Seq<char>| #[trigger] occurs(*v, n) implies !m.dom().contains(n) by {
                assert(occurs(t, n));
            }
            other_variables_stay(*k, m);
            other_variables_stay(*v, m);
        },
        SType::Record(f) => {
            assert forall|i: int| 0 <= i < f.len() implies apply((#[trigger] f[i]).1, m)
                == f[i].1 by {
                assert forall|n: Seq<char>| #[trigger] occurs(f[i].1, n) implies !m.dom().contains(
                    n,
                ) by {
                    assert(some_field_occurs(f, n));
                    assert(occurs(t, n));
                }
                other_variables_stay(f[i].1, m);
            }
            assert(apply_fields(f, m) =~= f);
        },
        SType::Function(a, r) => {
            assert forall|n: Seq<char>| #[trigger] some_occurs(a, n) implies !m.dom().contains(
                n,
            ) by {
                assert(occurs(t, n));
            }
            assert forall|n: Seq<char>| #[trigger] occurs(*r, n) implies !m.dom().contains(n) by {
                assert(occurs(t, n));
            }
            other_variables_of_all_stay(a, m);
            other_variables_stay(*r, m);
        },
        _ => {},
    }
}

proof fn other_variables_of_all_stay(items: Seq<SType>, m: Map<Seq<char>, SType>)
    requires
        forall|n: Seq<char>| #[trigger] some_occurs(items, n) ==> !m.dom().contains(n),
    ensures
        apply_all(items, m) == items,
    decreases items,
{
    assert forall|i: int| 0 <= i < items.len() implies apply(#[trigger] items[i], m)
        == items[i] by {
        assert forall|n: Seq<char>| #[trigger] occurs(items[i], n) implies !m.dom().contains(n) by {
            assert(some_occurs(items, n));
        }
        other_variables_stay(items[i], m);
    }
    assert(apply_all(items, m) =~= items);
}

pub fn substitute(ty: &MagType, subst: &Substitution) -> (r: MagType)
    ensures
        r@ == apply(ty@, subst@),
    decreases ty,
{
    match ty {
        MagType::Var(n) => match subst.get(n) {
            Some(t) => t.clone(),
            None => ty.clone(),
        },
        MagType::Named(n, a) => MagType::Named(n.clone(), substitute_all(a, subst)),
        MagType::TypeTag(t) => MagType::TypeTag(Box::new(substitute(t, subst))),
        MagType::List(t) => MagType::List(Box::new(substitute(t, subst))),
        MagType::SetOf(t) => MagType::SetOf(Box::new(substitute(t, subst))),
        MagType::MapOf(k, v) => MagType::MapOf(
            Box::new(substitute(k, subst)),
            Box::new(substitute(v, subst)),
        ),
        MagType::Record(f) => MagType::Record(substitute_fields(f, subst)),
        MagType::Product(a) => MagType::Product(substitute_all(a, subst)),
        MagType::Function(a, r) => MagType::Function(
            substitute_all(a, subst),
            Box::new(substitute(r, subst)),
        ),
        _ => ty.clone(),
    }
}

pub fn substitute_all(items: &Vec<MagType>, subst: &Substitution) -> (r: Vec<MagType>)
    ensures
        types_view(r@) == apply_all(types_view(items@), subst@),
    decreases items,
{
    let mut r: Vec<MagType> = Vec::new();
    let mut i: usize = 0;
    while i < items.len()
        invariant
            i <= items.len(),
            r.len() == i,
            forall|j: int| 0 <= j < i ==> (#[trigger] r@[j])@ == apply(items@[j]@, subst@),
        decreases items.len() - i,
    {
        r.push(substitute(&items[i], subst));
        i = i + 1;
    }
    assert(types_view(r@) =~= apply_all(types_view(items@), subst@));
    r
}

pub fn substitute_fields(items: &Vec<(String, MagType)>, subst: &Substitution) -> (r: Vec<
    (String, MagType),
>)
    ensures
        fields_view(r@) == apply_fields(fields_view(items@), subst@),
    decreases items,
{
    let mut r: Vec<(String, MagType)> = Vec::new();
    let mut i: usize = 0;
    while i < items.len()
        invariant
            i <= items.len(),
            r.len() == i,
            forall|j: int|
                0 <= j < i ==> (#[trigger] r@[j]).0@ == items@[j].0@ && r@[j].1@ == apply(
                    items@[j].1@,
                    subst@,
                ),
        decreases items.len() - i,
    {
        r.push((items[i].0.clone(), substitute(&items[i].1, subst)));
        i = i + 1;
    }
    assert(fields_view(r@) =~= apply_fields(fields_view(items@), subst@));
    r
}

/// The substitution that gives each of the first `n` parameters its argument; of two parameters
/// with one name the later counts.
pub open spec fn zipped(params: Seq<Seq<char>>, args: Seq<SType>, n: nat) -> Map<Seq<char>, SType>
    decreases n,
{
    if n == 0 {
        Map::empty()
    } else {
        zipped(params, args, (n - 1) as nat).insert(params[n - 1], args[n - 1])
    }
}

/// The substitution that gives each parameter its argument, as far as both lists go.
pub open spec fn bound_params(params: Seq<Seq<char>>, args: Seq<SType>) -> Map<Seq<char>, SType> {
    zipped(
        params,
        args,
        if params.len() < args.len() {
            params.len()
        } else {
            args.len()
        },
    )
}

pub fn bind_params(params: &Vec<String>, args: &Vec<MagType>) -> (r: Substitution)
    ensures
        r@ == bound_params(strings(params@), types_view(args@)),
{
    let mut r = Substitution::new();
    let mut i: usize = 0;
    assert(types_view(args@).len() == args@.len());
    while i < params.len() && i < args.len()
        invariant
            i <= params.len(),
            i <= args.len(),
            r@ == zipped(strings(params@), types_view(args@), i as nat),
        decreases params.len() - i,
    {
        r.insert(&params[i], args[i].clone());
        i = i + 1;
    }
    r
}

/// `t` with its variables renamed in the order in which they first occur, and the renaming of the
/// variables seen so far.
pub open spec fn renamed(t: SType, seen: Map<Seq<char>, SType>) -> (SType, Map<Seq<char>, SType>)
    decreases t,
{
    match t {
        SType::Var(n) => if seen.dom().contains(n) {
            (seen[n], seen)
        } else {
            let fresh = SType::Var("$"@ + decimal(seen.dom().len()));
            (fresh, seen.insert(n, fresh))
        },
        SType::Named(n, a) => {
            let (a, seen) = renamed_all(a, seen);
            (SType::Named(n, a), seen)
        },
        SType::TypeTag(t) => {
            let (t, seen) = renamed(*t, seen);
            (SType::TypeTag(Box::new(t)), seen)
        },
        SType::List(t) => {
            let (t, seen) = renamed(*t, seen);
            (SType::List(Box::new(t)), seen)
        },
        SType::SetOf(t) => {
            let (t, seen) = renamed(*t, seen);
            (SType::SetOf(Box::new(t)), seen)
        },
        SType::MapOf(k, v) => {
            let (k, seen) = renamed(*k, seen);
            let (v, seen) = renamed(*v, seen);
            (SType::MapOf(Box::new(k), Box::new(v)), seen)
        },
        SType::Record(f) => {
            let (f, seen) = renamed_fields(f, seen);
            (SType::Record(f), seen)
        },
        SType::Product(a) => {
            let (a, seen) = renamed_all(a, seen);
            (SType::Product(a), seen)
        },
        SType::Function(a, r) => {
            let (a, seen) = renamed_all(a, seen);
            let (r, seen) = renamed(*r, seen);
            (SType::Function(a, Box::new(r)), seen)
        },
        _ => (t, seen),
    }
}

pub open spec fn renamed_all(items: Seq<SType>, seen: Map<Seq<char>, SType>) -> (
    Seq<SType>,
    Map<Seq<char>, SType>,
)
    decreases items,
{
    if items.len() == 0 {
        (Seq::empty(), seen)
    } else {
        let (first, seen) = renamed(items[0], seen);
        let (rest, seen) = renamed_all(items.drop_first(), seen);
        (seq![first] + rest, seen)
    }
}

pub open spec fn renamed_fields(
    items: Seq<(Seq<char>, SType)>,
    seen: Map<Seq<char>, SType>,
) -> (Seq<(Seq<char>, SType)>, Map<Seq<char>, SType>)
    decreases items,
{
    if items.len() == 0 {
        (Seq::empty(), seen)
    } else {
        let (first, seen) = renamed(items[0].1, seen);
        let (rest, seen) = renamed_fields(items.drop_first(), seen);
        (seq![(items[0].0, first)] + rest, seen)
    }
}

/// The text of a type up to the names of its variables.
pub open spec fn canonical_text(t: SType) -> Seq<char> {
    type_text(renamed(t, Map::empty()).0)
}

/// Whether a substitution holds one entry for each variable of its domain.
pub open spec fn one_each(s: Substitution) -> bool {
    s@.dom().finite() && s.entries@.len() == s@.dom().len()
}

fn canonicalize(ty: &MagType, seen: &mut Substitution) -> (r: MagType)
    requires
        one_each(*old(seen)),
    ensures
        one_each(*final(seen)),
        (r@, final(seen)@) == renamed(ty@, old(seen)@),
    decreases ty,
{
    match ty {
        MagType::Var(n) => {
            match seen.get(n) {
                Some(t) => {
                    return t.clone();
                },
                None => {},
            }
            let fresh = MagType::Var(cat2("$", &show_usize(seen.entries.len())));
            let kept = fresh.clone();
            seen.insert(n, kept);
            assert(seen@.dom() =~= old(seen)@.dom().insert(n@));
            fresh
        },
        MagType::Named(n, a) => MagType::Named(n.clone(), canonicalize_all(a, seen)),
        MagType::TypeTag(t) => MagType::TypeTag(Box::new(canonicalize(t, seen))),
        MagType::List(t) => MagType::List(Box::new(canonicalize(t, seen))),
        MagType::SetOf(t) => MagType::SetOf(Box::new(canonicalize(t, seen))),
        MagType::MapOf(k, v) => {
            let key = canonicalize(k, seen);
            let value = canonicalize(v, seen);
            MagType::MapOf(Box::new(key), Box::new(value))
        },
        MagType::Record(f) => MagType::Record(canonicalize_fields(f, seen)),
        MagType::Product(a) => MagType::Product(canonicalize_all(a, seen)),
        MagType::Function(a, r) => {
            let params = canonicalize_all(a, seen);
            let result = canonicalize(r, seen);
            MagType::Function(params, Box::new(result))
        },
        _ => ty.clone(),
    }
}

fn canonicalize_all(items: &Vec<MagType>, seen: &mut Substitution) -> (r: Vec<MagType>)
    requires
        one_each(*old(seen)),
    ensures
        one_each(*final(seen)),
        (types_view(r@), final(seen)@) == renamed_all(types_view(items@), old(seen)@),
    decreases items,
{
    let ghost all = types_view(items@);
    let ghost whole = renamed_all(all, seen@);
    let mut r: Vec<MagType> = Vec::new();
    let mut i: usize = 0;
    assert(all.skip(0) =~= all);
    assert(types_view(r@) =~= Seq::empty());
    while i < items.len()
        invariant
            i <= items.len(),
            all == types_view(items@),
            all.len() == items.len(),
            one_each(*seen),
            whole.0 =~= types_view(r@) + renamed_all(all.skip(i as int), seen@).0,
            whole.1 == renamed_all(all.skip(i as int), seen@).1,
        decreases items.len() - i,
    {
        let ghost before = types_view(r@);
        proof {
            assert(all.skip(i as int)[0] == items@[i as int]@);
            assert(all.skip(i as int).drop_first() =~= all.skip(i + 1));
        }
        let item = canonicalize(&items[i], seen);
        r.push(item);
        assert(types_view(r@) =~= before.push(item@));
        i = i + 1;
    }
    r
}

fn canonicalize_fields(items: &Vec<(String, MagType)>, seen: &mut Substitution) -> (r: Vec<
    (String, MagType),
>)
    requires
        one_each(*old(seen)),
    ensures
        one_each(*final(seen)),
        (fields_view(r@), final(seen)@) == renamed_fields(fields_view(items@), old(seen)@),
    decreases items,
{
    let ghost all = fields_view(items@);
    let ghost whole = renamed_fields(all, seen@);
    let mut r: Vec<(String, MagType)> = Vec::new();
    let mut i: usize = 0;
    assert(all.skip(0) =~= all);
    assert(fields_view(r@) =~= Seq::empty());
    while i < items.len()
        invariant
            i <= items.len(),
            all == fields_view(items@),
            all.len() == items.len(),
            one_each(*seen),
            whole.0 =~= fields_view(r@) + renamed_fields(all.skip(i as int), seen@).0,
            whole.1 == renamed_fields(all.skip(i as int), seen@).1,
        decreases items.len() - i,
    {
        let ghost before = fields_view(r@);
        proof {
            assert(all.skip(i as int)[0] == (items@[i as int].0@, items@[i as int].1@));
            assert(all.skip(i as int).drop_first() =~= all.skip(i + 1));
        }
        let name = items[i].0.clone();
        let item = canonicalize(&items[i].1, seen);
        r.push((name, item));
        assert(fields_view(r@) =~= before.push((name@, item@)));
        i = i + 1;
    }
    r
}

/// The text of a type up to the names of its variables.
pub fn canonical_type(ty: &MagType) -> (r: String)
    ensures
        r@ == canonical_text(ty@),
{
    let mut seen = Substitution::new();
    assert(seen@.dom() =~= Set::empty());
    canonicalize(ty, &mut seen).show()
}

} // verus!
