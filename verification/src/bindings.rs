//! The table of bindings: their identities, names, types and equality requirements.

use std::collections::HashMap;
use vstd::prelude::*;

use crate::ast::BindingId;
use crate::substitution::NameSet;
use crate::text::{clone_names, strings};
use crate::types::{MagType, SType};
use crate::value_types::opt_type;

verus! {

broadcast use vstd::std_specs::hash::group_hash_axioms;

pub struct BindingMetadata {
    pub name: String,
    pub ty: Option<MagType>,
    /// The type variables that must support equality wherever the binding is used.
    pub equality: Vec<String>,
}

/// The model of a [`BindingMetadata`].
#[verifier::ext_equal]
pub struct SMeta {
    pub name: Seq<char>,
    pub ty: Option<SType>,
    pub equality: Seq<Seq<char>>,
}

impl View for BindingMetadata {
    type V = SMeta;

    open spec fn view(&self) -> SMeta {
        SMeta { name: self.name@, ty: opt_type(self.ty), equality: strings(self.equality@) }
    }
}

impl Clone for BindingMetadata {
    fn clone(&self) -> (r: BindingMetadata)
        ensures
            r@ == self@,
    {
        BindingMetadata {
            name: self.name.clone(),
            ty: match &self.ty {
                Some(t) => Some(t.clone()),
                None => None,
            },
            equality: clone_names(&self.equality),
        }
    }
}

/// The bindings of a program, and the type variables that the expressions checked so far require
/// to support equality.
pub struct Bindings {
    pub next: u64,
    pub entries: HashMap<u64, BindingMetadata>,
    pub obligations: NameSet,
}

/// The model of [`Bindings`].
#[verifier::ext_equal]
pub struct SBindings {
    pub next: u64,
    pub entries: Map<u64, SMeta>,
    pub obligations: Set<Seq<char>>,
}

impl View for Bindings {
    type V = SBindings;

    open spec fn view(&self) -> SBindings {
        SBindings {
            next: self.next,
            entries: Map::new(
                |id: u64| self.entries@.dom().contains(id),
                |id: u64| self.entries@[id]@,
            ),
            obligations: self.obligations@,
        }
    }
}

/// The identity that the next binding gets after one that got `id`.
pub open spec fn next_id(id: u64) -> u64 {
    if id == u64::MAX {
        id
    } else {
        (id + 1) as u64
    }
}

impl SBindings {
    /// The table after a binding with this name and type has been added under the next identity.
    pub open spec fn allocate(self, name: Seq<char>, ty: Option<SType>) -> SBindings {
        SBindings {
            next: next_id(self.next),
            entries: self.entries.insert(
                self.next,
                SMeta { name, ty, equality: Seq::empty() },
            ),
            obligations: self.obligations,
        }
    }

    pub open spec fn set_type(self, id: BindingId, ty: SType) -> SBindings {
        if self.entries.dom().contains(id.0) {
            SBindings {
                entries: self.entries.insert(
                    id.0,
                    SMeta { ty: Some(ty), ..self.entries[id.0] },
                ),
                ..self
            }
        } else {
            self
        }
    }

    pub open spec fn set_equality(self, id: BindingId, requirements: Seq<Seq<char>>) -> SBindings {
        if self.entries.dom().contains(id.0) {
            SBindings {
                entries: self.entries.insert(
                    id.0,
                    SMeta { equality: requirements, ..self.entries[id.0] },
                ),
                ..self
            }
        } else {
            self
        }
    }

    pub open spec fn type_of(self, id: BindingId) -> Option<SType> {
        if self.entries.dom().contains(id.0) {
            self.entries[id.0].ty
        } else {
            None
        }
    }

    pub open spec fn equality_of(self, id: BindingId) -> Seq<Seq<char>> {
        if self.entries.dom().contains(id.0) {
            self.entries[id.0].equality
        } else {
            Seq::empty()
        }
    }

    pub open spec fn oblige(self, names: Set<Seq<char>>) -> SBindings {
        SBindings { obligations: self.obligations.union(names), ..self }
    }

    pub open spec fn with_obligations(self, names: Set<Seq<char>>) -> SBindings {
        SBindings { obligations: names, ..self }
    }
}

impl Bindings {
    pub fn new() -> (r: Bindings)
        ensures
            r@ == (SBindings {
                next: 0,
                entries: Map::empty(),
                obligations: Set::empty(),
            }),
    {
        let r = Bindings { next: 0, entries: HashMap::new(), obligations: NameSet::new() };
        assert(r@.entries =~= Map::empty());
        r
    }

    pub fn allocate_binding_id(&mut self, name: &str, ty: Option<MagType>) -> (r: BindingId)
        ensures
            r.0 == old(self)@.next,
            final(self)@ == old(self)@.allocate(name@, opt_type(ty)),
    {
        let id: u64 = self.next;
        self.next = if id == u64::MAX {
            id
        } else {
            id + 1
        };
        let metadata = BindingMetadata { name: name.to_owned(), ty, equality: Vec::new() };
        assert(strings(metadata.equality@) =~= Seq::empty());
        self.entries.insert(id, metadata);
        assert(self@.entries =~= old(self)@.allocate(name@, opt_type(ty)).entries);
        BindingId(id)
    }

    pub fn binding_metadata(&self, id: BindingId) -> (r: Option<BindingMetadata>)
        ensures
            match r {
                Some(m) => self@.entries.dom().contains(id.0) && self@.entries[id.0] == m@,
                None => !self@.entries.dom().contains(id.0),
            },
    {
        match self.entries.get(&id.0) {
            Some(m) => Some(m.clone()),
            None => None,
        }
    }

    /// The recorded type of a binding.
    pub fn binding_type(&self, id: BindingId) -> (r: Option<MagType>)
        ensures
            opt_type(r) == self@.type_of(id),
    {
        match self.binding_metadata(id) {
            Some(m) => m.ty,
            None => None,
        }
    }

    pub fn set_binding_type(&mut self, id: BindingId, ty: MagType)
        ensures
            final(self)@ == old(self)@.set_type(id, ty@),
    {
        match self.binding_metadata(id) {
            Some(m) => {
                let ghost model = ty@;
                let metadata = BindingMetadata { name: m.name, ty: Some(ty), equality: m.equality };
                self.entries.insert(id.0, metadata);
                assert(self@.entries =~= old(self)@.set_type(id, model).entries);
            },
            None => {},
        }
    }

    pub fn equality_requirements(&self, id: BindingId) -> (r: Vec<String>)
        ensures
            strings(r@) == self@.equality_of(id),
    {
        match self.binding_metadata(id) {
            Some(m) => m.equality,
            None => {
                let none: Vec<String> = Vec::new();
                assert(strings(none@) =~= Seq::empty());
                none
            },
        }
    }

    pub fn set_equality_requirements(&mut self, id: BindingId, requirements: Vec<String>)
        ensures
            final(self)@ == old(self)@.set_equality(id, strings(requirements@)),
    {
        match self.binding_metadata(id) {
            Some(m) => {
                let ghost model = strings(requirements@);
                let metadata = BindingMetadata { name: m.name, ty: m.ty, equality: requirements };
                self.entries.insert(id.0, metadata);
                assert(self@.entries =~= old(self)@.set_equality(id, model).entries);
            },
            None => {},
        }
    }

    /// Records that these type variables must support equality.
    pub fn record_equality_variables(&mut self, variables: &NameSet)
        ensures
            final(self)@ == old(self)@.oblige(variables@),
    {
        self.obligations.extend(variables);
        assert(self@.entries =~= old(self)@.entries);
    }

    /// Starts over with no recorded variables, and returns those recorded before.
    pub fn begin_obligations(&mut self) -> (r: NameSet)
        ensures
            r@ == old(self)@.obligations,
            final(self)@ == old(self)@.with_obligations(Set::empty()),
    {
        let mut saved = NameSet::new();
        std::mem::swap(&mut saved, &mut self.obligations);
        assert(self@.entries =~= old(self)@.entries);
        saved
    }

    /// Returns the recorded variables, and puts back those of the enclosing expression.
    pub fn end_obligations(&mut self, outer: NameSet) -> (r: NameSet)
        ensures
            r@ == old(self)@.obligations,
            final(self)@ == old(self)@.with_obligations(outer@),
    {
        let ghost model = outer@;
        let mut saved = outer;
        std::mem::swap(&mut saved, &mut self.obligations);
        assert(self@.entries =~= old(self)@.entries);
        saved
    }
}

} // verus!
