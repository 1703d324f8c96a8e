//! What happens to an environment: scopes are entered and left, names are bound, and bindings are
//! forced.

use std::sync::Arc;
use vstd::prelude::*;

use crate::ast::{
    share, values_view, BindingId, CheckedExpr, FrameId, SChecked, SValue, Value,
};
use crate::bindings::{Bindings, SBindings};
use crate::builtins::builtin_names;
use crate::env::{
    collect_ready, frame_index, frames_view, has_id, keyed, keyed_with_key, name_index, names_view, ready_values,
    slot_index, slots_view, with_key, BindingForce, BindingHandle, BindingSlot, Env, SEnv, SForce,
    SFrame, SSlot, ScopeFrame,
};
use crate::error::{MagError, SError};
use crate::resolve::type_error;
use crate::text::{cat2, cat3, cat4, decimal, same, show_u64};
use crate::type_rules::unit_result;
use crate::types::MagType;
use crate::value_types::{canonical_value_type, overload_text, type_of, value_type};
use crate::values::{contains_value, value_among};

verus! {

broadcast use vstd::seq_lib::group_seq_properties;

/// The number that comes after another, as far as there is one.
pub open spec fn after(n: u64) -> u64 {
    if n == u64::MAX {
        n
    } else {
        (n + 1) as u64
    }
}

pub(crate) fn next(n: u64) -> (r: u64)
    ensures
        r == after(n),
{
    if n == u64::MAX {
        n
    } else {
        n + 1
    }
}

/// The counts of frames with one more of one.
pub open spec fn retained(roots: Seq<(FrameId, u64)>, id: FrameId) -> Seq<(FrameId, u64)> {
    with_key(
        roots,
        id,
        match keyed(roots, id, 0) {
            Some(n) => after(n),
            None => 1,
        },
        0,
    )
}

pub open spec fn other_than(id: FrameId) -> spec_fn((FrameId, u64)) -> bool {
    |e: (FrameId, u64)| e.0 != id
}

/// The counts of other frames.
pub open spec fn without_root(roots: Seq<(FrameId, u64)>, id: FrameId) -> Seq<(FrameId, u64)> {
    roots.filter(other_than(id))
}

/// The counts of frames with one less of one, which is gone when none is left. A count that has
/// run full stays so: its frame is held from then on.
pub open spec fn released(roots: Seq<(FrameId, u64)>, id: FrameId) -> Seq<(FrameId, u64)> {
    match keyed(roots, id, 0) {
        Some(n) => if n == u64::MAX {
            roots
        } else if n <= 1 {
            without_root(roots, id)
        } else {
            with_key(roots, id, (n - 1) as u64, 0)
        },
        None => roots,
    }
}

pub open spec fn released_all(roots: Seq<(FrameId, u64)>, ids: Seq<FrameId>) -> Seq<(FrameId, u64)>
    decreases ids.len(),
{
    if ids.len() == 0 {
        roots
    } else {
        released(released_all(roots, ids.drop_last()), ids.last())
    }
}

pub open spec fn retained_all(roots: Seq<(FrameId, u64)>, ids: Seq<FrameId>) -> Seq<(FrameId, u64)>
    decreases ids.len(),
{
    if ids.len() == 0 {
        roots
    } else {
        retained(retained_all(roots, ids.drop_last()), ids.last())
    }
}

fn root_index(roots: &Vec<(FrameId, u64)>, id: FrameId) -> (r: Option<usize>)
    ensures
        match r {
            Some(i) => {
                &&& i < roots@.len()
                &&& roots@[i as int].0 == id
                &&& keyed(roots@, id, 0) == Some(roots@[i as int].1)
                &&& forall|v: u64|
                    with_key(roots@, id, v, 0) == roots@.update(i as int, (id, v))
            },
            None => {
                &&& keyed(roots@, id, 0) is None
                &&& forall|v: u64| with_key(roots@, id, v, 0) == roots@.push((id, v))
            },
        },
{
    let mut i: usize = 0;
    while i < roots.len()
        invariant
            i <= roots.len(),
            keyed(roots@, id, 0) == keyed(roots@, id, i as nat),
            forall|v: u64| with_key(roots@, id, v, 0) == with_key(roots@, id, v, i as nat),
        decreases roots.len() - i,
    {
        if roots[i].0 == id {
            return Some(i);
        }
        i = i + 1;
    }
    None
}

fn retain_root(roots: &mut Vec<(FrameId, u64)>, id: FrameId)
    ensures
        final(roots)@ == retained(old(roots)@, id),
{
    match root_index(roots, id) {
        Some(i) => {
            let n = roots[i].1;
            roots.set(i, (id, next(n)));
        },
        None => {
            roots.push((id, 1));
        },
    }
}

fn other_roots(roots: &Vec<(FrameId, u64)>, id: FrameId) -> (r: Vec<(FrameId, u64)>)
    ensures
        r@ == without_root(roots@, id),
{
    let ghost keep = other_than(id);
    let mut r: Vec<(FrameId, u64)> = Vec::new();
    let mut k: usize = 0;
    assert(roots@.take(0).filter(keep) =~= Seq::empty());
    while k < roots.len()
        invariant
            k <= roots.len(),
            keep == other_than(id),
            r@ == roots@.take(k as int).filter(keep),
        decreases roots.len() - k,
    {
        proof {
            crate::env::filter_step(roots@, keep, k as int);
        }
        if roots[k].0 != id {
            r.push((roots[k].0, roots[k].1));
        }
        k = k + 1;
    }
    assert(roots@.take(roots.len() as int) =~= roots@);
    r
}

fn release_root(roots: &mut Vec<(FrameId, u64)>, id: FrameId)
    ensures
        final(roots)@ == released(old(roots)@, id),
{
    match root_index(roots, id) {
        Some(i) => {
            let n = roots[i].1;
            if n == u64::MAX {
                return;
            }
            if n <= 1 {
                let kept = other_roots(roots, id);
                *roots = kept;
            } else {
                roots.set(i, (id, n - 1));
            }
        },
        None => {},
    }
}

impl SFrame {
    pub open spec fn empty() -> SFrame {
        SFrame { names: Seq::empty(), slots: Seq::empty() }
    }

    pub open spec fn ids(self, name: Seq<char>) -> Seq<BindingId> {
        match keyed(self.names, name, 0) {
            Some(ids) => ids,
            None => Seq::empty(),
        }
    }

    /// The frame with one more binding under a name.
    pub open spec fn named(self, name: Seq<char>, id: BindingId) -> SFrame {
        SFrame { names: with_key(self.names, name, self.ids(name).push(id), 0), ..self }
    }

    pub open spec fn slotted(self, id: BindingId, slot: SSlot) -> SFrame {
        SFrame { slots: with_key(self.slots, id, slot, 0), ..self }
    }

    /// The frame with a ready binding, once under its name.
    pub open spec fn readied(self, id: BindingId, name: Seq<char>, v: SValue) -> SFrame {
        let names = if self.ids(name).contains(id) {
            with_key(self.names, name, self.ids(name), 0)
        } else {
            with_key(self.names, name, self.ids(name).push(id), 0)
        };
        SFrame { names, slots: with_key(self.slots, id, SSlot::Ready(v), 0) }
    }
}

impl ScopeFrame {
    fn ids_of(&self, name: &str) -> (r: Vec<BindingId>)
        ensures
            r@ == self@.ids(name@),
    {
        match name_index(&self.names, name) {
            Some(i) => {
                let mut r: Vec<BindingId> = Vec::new();
                let ids = &self.names[i].1;
                let mut k: usize = 0;
                while k < ids.len()
                    invariant
                        k <= ids.len(),
                        r@ == ids@.take(k as int),
                    decreases ids.len() - k,
                {
                    r.push(ids[k]);
                    assert(ids@.take(k + 1) =~= ids@.take(k as int).push(ids@[k as int]));
                    k = k + 1;
                }
                assert(ids@.take(ids.len() as int) =~= ids@);
                r
            },
            None => Vec::new(),
        }
    }

    fn set_ids(&mut self, name: &str, ids: Vec<BindingId>)
        ensures
            final(self)@ == (SFrame {
                names: with_key(old(self)@.names, name@, ids@, 0),
                slots: old(self)@.slots,
            }),
    {
        let ghost all = names_view(self.names@);
        let label = name.to_owned();
        match name_index(&self.names, name) {
            Some(i) => {
                let ghost entry = (name@, ids@);
                self.names.set(i, (label, ids));
                assert(names_view(self.names@) =~= all.update(i as int, entry));
            },
            None => {
                let ghost entry = (name@, ids@);
                self.names.push((label, ids));
                assert(names_view(self.names@) =~= all.push(entry));
            },
        }
    }

    pub(crate) fn set_slot(&mut self, id: BindingId, slot: BindingSlot)
        ensures
            final(self)@ == old(self)@.slotted(id, slot@),
    {
        let ghost all = slots_view(self.slots@);
        match slot_index(&self.slots, id) {
            Some(i) => {
                let ghost entry = (id, slot@);
                self.slots.set(i, (id, slot));
                assert(slots_view(self.slots@) =~= all.update(i as int, entry));
            },
            None => {
                let ghost entry = (id, slot@);
                self.slots.push((id, slot));
                assert(slots_view(self.slots@) =~= all.push(entry));
            },
        }
    }

    fn ready(&mut self, id: BindingId, name: &str, value: Value)
        ensures
            final(self)@ == old(self)@.readied(id, name@, value@),
    {
        let mut ids = self.ids_of(name);
        if !has_id(&ids, id) {
            ids.push(id);
        }
        self.set_ids(name, ids);
        self.set_slot(id, BindingSlot::Ready(value));
    }

    fn declare(&mut self, id: BindingId, name: &str, initializer: Arc<CheckedExpr>)
        ensures
            final(self)@ == old(self)@.named(name@, id).slotted(
                id,
                SSlot::Uninitialized((*initializer)@),
            ),
    {
        let mut ids = self.ids_of(name);
        ids.push(id);
        self.set_ids(name, ids);
        self.set_slot(id, BindingSlot::Uninitialized(initializer));
    }
}

impl SEnv {
    /// The environment with one more frame, which one scope holds.
    pub open spec fn with_frame(self) -> SEnv {
        SEnv {
            frames: with_key(self.frames, FrameId(self.next_frame), SFrame::empty(), 0),
            next_frame: after(self.next_frame),
            roots: retained(self.roots, FrameId(self.next_frame)),
            allocations: after(self.allocations),
            ..self
        }
    }

    pub open spec fn pushed(self) -> SEnv {
        SEnv { scopes: self.scopes.push(FrameId(self.next_frame)), ..self.with_frame() }
    }

    /// The environment without its innermost scope; the outermost stays.
    pub open spec fn popped(self) -> SEnv {
        if self.scopes.len() > 1 {
            SEnv {
                scopes: self.scopes.drop_last(),
                roots: released(self.roots, self.scopes.last()),
                ..self
            }
        } else {
            self
        }
    }

    /// The environment of a call: the scopes that a function closes over and a new one.
    #[verifier::opaque]
    pub open spec fn call_scoped(self, closure: Seq<FrameId>) -> SEnv {
        SEnv { scopes: seq![FrameId(self.next_frame)], ..self.with_frame() }.rescoped(
            closure,
        ).pushed()
    }

    /// The environment of the caller once a call is over.
    #[verifier::opaque]
    pub open spec fn call_unscoped(self, scopes: Seq<FrameId>) -> SEnv {
        SEnv { scopes, roots: released_all(self.roots, self.scopes), ..self }
    }

    /// The environment in which other scopes are in force.
    pub open spec fn rescoped(self, scopes: Seq<FrameId>) -> SEnv {
        SEnv {
            scopes,
            roots: retained_all(released_all(self.roots, self.scopes), scopes),
            ..self
        }
    }

    pub open spec fn update_frame(self, id: FrameId, f: SFrame) -> SEnv {
        SEnv { frames: with_key(self.frames, id, f, 0), ..self }
    }

    /// The environment whose innermost scope has a ready binding.
    #[verifier::opaque]
    pub open spec fn readied(self, id: BindingId, name: Seq<char>, v: SValue) -> SEnv {
        if self.scopes.len() == 0 {
            self
        } else {
            match self.frame(self.scopes.last()) {
                Some(f) => SEnv {
                    type_bindings: if v is TypeDecl {
                        after(self.type_bindings)
                    } else {
                        self.type_bindings
                    },
                    ..self.update_frame(self.scopes.last(), f.readied(id, name, v))
                },
                None => self,
            }
        }
    }

    /// The environment whose innermost scope has a binding that waits for its initializer.
    #[verifier::opaque]
    pub open spec fn declared(self, id: BindingId, name: Seq<char>, e: SChecked) -> Result<
        SEnv,
        SError,
    > {
        if self.scopes.len() == 0 {
            Err(SError::Eval("binding declaration requires a scope"@))
        } else {
            match self.frame(self.scopes.last()) {
                None => Err(SError::Eval("binding declaration frame was reclaimed"@)),
                Some(f) => if keyed(f.slots, id, 0) is Some {
                    Err(
                        SError::Eval(
                            "binding slot "@ + decimal(id.0 as nat) + " is already declared"@,
                        ),
                    )
                } else {
                    Ok(
                        self.update_frame(
                            self.scopes.last(),
                            f.named(name, id).slotted(id, SSlot::Uninitialized(e)),
                        ),
                    )
                },
            }
        }
    }

    /// What forcing a binding asks for, and the environment in which it is being initialized.
    #[verifier::opaque]
    pub open spec fn begun(self, h: BindingHandle) -> (SEnv, Result<SForce, SError>) {
        if h.program != self.program {
            (self, Err(dropped()))
        } else {
            match self.frame(h.frame) {
                None => (self, Err(SError::Eval("binding frame was reclaimed"@))),
                Some(f) => match keyed(f.slots, h.id, 0) {
                    Some(SSlot::Ready(v)) => (self, Ok(SForce::Ready(v))),
                    Some(SSlot::Uninitialized(e)) => (
                        self.with_slot(h, SSlot::Initializing),
                        Ok(SForce::Initialize(h, e)),
                    ),
                    Some(SSlot::Initializing) => (
                        self,
                        Err(
                            SError::Eval(
                                "binding initialization cycle at binding#"@ + decimal(h.id.0 as nat),
                            ),
                        ),
                    ),
                    None => (self, Err(SError::Unresolved("binding#"@ + decimal(h.id.0 as nat)))),
                },
            }
        }
    }

    /// The environment once a binding that is being initialized has what it holds from then on.
    #[verifier::opaque]
    pub open spec fn settled(self, h: BindingHandle, slot: SSlot, what: Seq<char>) -> Result<
        SEnv,
        SError,
    > {
        if h.program != self.program {
            Err(dropped())
        } else {
            match self.frame(h.frame) {
                None => Err(SError::Eval("binding frame was reclaimed"@)),
                Some(f) => match keyed(f.slots, h.id, 0) {
                    Some(SSlot::Initializing) => Ok(self.with_slot(h, slot)),
                    Some(_) => Err(
                        SError::Eval(
                            "binding#"@ + decimal(h.id.0 as nat) + what + " outside initialization"@,
                        ),
                    ),
                    None => Err(SError::Unresolved("binding#"@ + decimal(h.id.0 as nat))),
                },
            }
        }
    }

    /// The name that a declaration of this module has.
    pub open spec fn qualified(self, local: Seq<char>) -> Seq<char> {
        self.module + "."@ + local
    }
}

/// Why a handle is of no use outside its program.
pub open spec fn dropped() -> SError {
    SError::Eval("binding program has been dropped"@)
}

fn dropped_program() -> (r: MagError)
    ensures
        r@ == dropped(),
{
    MagError::Eval("binding program has been dropped".to_owned())
}

/// Why an identity that no scope holds is of no use.
pub open spec fn unbound(id: BindingId) -> SError {
    SError::Unresolved("binding#"@ + decimal(id.0 as nat))
}

/// The environment once a binding in scope, which is being initialized, has what it holds from then
/// on.
pub open spec fn settled_in_scope(env: SEnv, id: BindingId, slot: SSlot, what: Seq<char>) -> Result<
    SEnv,
    SError,
> {
    match env.home(id) {
        Some(frame) => env.settled(env.handle(id, frame), slot, what),
        None => Err(unbound(id)),
    }
}

/// The environment and the table once a name stands for a value.
#[verifier::opaque]
pub open spec fn defined(env: SEnv, table: SBindings, name: Seq<char>, v: SValue) -> (
    SEnv,
    SBindings,
) {
    (
        env.readied(BindingId(table.next), name, v),
        table.allocate(name, type_of(v)),
    )
}

pub open spec fn bound_already(values: Seq<SValue>, text: Seq<char>, n: nat) -> bool
    decreases n,
{
    n > 0 && (overload_text(values[n - 1]) == Some(text) || bound_already(
        values,
        text,
        (n - 1) as nat,
    ))
}

/// The same where the name has no value of the same type yet.
#[verifier::opaque]
pub open spec fn newly_defined(env: SEnv, table: SBindings, name: Seq<char>, v: SValue) -> (
    SEnv,
    SBindings,
    Result<(), SError>,
) {
    let (e, t) = defined(env, table, name, v);
    match overload_text(v) {
        Some(text) => if bound_already(
            env.candidates(name),
            text,
            env.candidates(name).len(),
        ) {
            (env, table, type_error("duplicate visible overload "@ + name + ": "@ + text))
        } else {
            (e, t, Ok(()))
        },
        None => (e, t, Ok(())),
    }
}

impl Env {
    pub(crate) fn allocate_frame(&mut self) -> (r: FrameId)
        ensures
            r == FrameId(old(self)@.next_frame),
            final(self)@ == old(self)@.with_frame(),
    {
        let ghost all = frames_view(self.frames@);
        let id = FrameId(self.next_frame);
        let frame = ScopeFrame { names: Vec::new(), slots: Vec::new() };
        proof {
            assert(names_view(frame.names@) =~= Seq::empty());
            assert(slots_view(frame.slots@) =~= Seq::empty());
            assert(frame@ == SFrame::empty());
        }
        match frame_index(&self.frames, id) {
            Some(i) => {
                self.frames.set(i, (id, frame));
                assert(frames_view(self.frames@) =~= all.update(i as int, (id, SFrame::empty())));
            },
            None => {
                self.frames.push((id, frame));
                assert(frames_view(self.frames@) =~= all.push((id, SFrame::empty())));
            },
        }
        self.next_frame = next(self.next_frame);
        self.allocations = next(self.allocations);
        retain_root(&mut self.roots, id);
        id
    }

    pub fn push_scope(&mut self)
        ensures
            final(self)@ == old(self)@.pushed(),
    {
        let id = self.allocate_frame();
        self.scopes.push(id);
    }

    pub fn pop_scope(&mut self)
        ensures
            final(self)@ == old(self)@.popped(),
    {
        if self.scopes.len() > 1 {
            let ghost all = self.scopes@;
            match self.scopes.pop() {
                Some(id) => {
                    release_root(&mut self.roots, id);
                    assert(self.scopes@ =~= all.drop_last());
                },
                None => {},
            }
        }
    }

    /// The scopes that a function closes over.
    pub fn snapshot(&self) -> (r: Vec<FrameId>)
        ensures
            r@ == self@.scopes,
    {
        let mut r: Vec<FrameId> = Vec::new();
        let mut i: usize = 0;
        while i < self.scopes.len()
            invariant
                i <= self.scopes.len(),
                r@ == self.scopes@.take(i as int),
            decreases self.scopes.len() - i,
        {
            r.push(self.scopes[i]);
            assert(self.scopes@.take(i + 1) =~= self.scopes@.take(i as int).push(
                self.scopes@[i as int],
            ));
            i = i + 1;
        }
        assert(self.scopes@.take(self.scopes.len() as int) =~= self.scopes@);
        r
    }

    /// Puts the scopes of a call in force.
    pub fn enter_call_scopes(&mut self, closure: &Vec<FrameId>)
        ensures
            final(self)@ == old(self)@.call_scoped(closure@),
    {
        proof {
            reveal(SEnv::call_scoped);
        }
        let ghost before = self@;
        let id = self.allocate_frame();
        let mut scopes: Vec<FrameId> = Vec::new();
        scopes.push(id);
        self.scopes = scopes;
        assert(self@ =~= SEnv {
            scopes: seq![FrameId(before.next_frame)],
            ..before.with_frame()
        });
        let mut copy: Vec<FrameId> = Vec::new();
        let mut i: usize = 0;
        while i < closure.len()
            invariant
                i <= closure.len(),
                copy@ == closure@.take(i as int),
            decreases closure.len() - i,
        {
            copy.push(closure[i]);
            i = i + 1;
            assert(copy@ =~= closure@.take(i as int));
        }
        assert(copy@ =~= closure@);
        self.replace_scopes(copy);
        self.push_scope();
    }

    /// Puts the scopes of a caller back in force.
    pub fn leave_call_scopes(&mut self, scopes: Vec<FrameId>)
        ensures
            final(self)@ == old(self)@.call_unscoped(scopes@),
    {
        proof {
            reveal(SEnv::call_unscoped);
        }
        let ghost start = self.roots@;
        let mut i: usize = 0;
        assert(self.scopes@.take(0) =~= Seq::empty());
        while i < self.scopes.len()
            invariant
                i <= self.scopes.len(),
                self.scopes@ == old(self).scopes@,
                self.roots@ == released_all(start, self.scopes@.take(i as int)),
                self@ == (SEnv { roots: self.roots@, ..old(self)@ }),
            decreases self.scopes.len() - i,
        {
            proof {
                let step = self.scopes@.take(i + 1);
                assert(step.drop_last() =~= self.scopes@.take(i as int));
                assert(step.last() == self.scopes@[i as int]);
            }
            let id = self.scopes[i];
            release_root(&mut self.roots, id);
            i = i + 1;
        }
        assert(self.scopes@.take(self.scopes.len() as int) =~= self.scopes@);
        self.scopes = scopes;
    }

    pub fn replace_scopes(&mut self, scopes: Vec<FrameId>)
        ensures
            final(self)@ == old(self)@.rescoped(scopes@),
    {
        let ghost start = self.roots@;
        let mut i: usize = 0;
        assert(self.scopes@.take(0) =~= Seq::empty());
        while i < self.scopes.len()
            invariant
                i <= self.scopes.len(),
                self.scopes@ == old(self).scopes@,
                self.roots@ == released_all(start, self.scopes@.take(i as int)),
                self@ == (SEnv { roots: self.roots@, ..old(self)@ }),
            decreases self.scopes.len() - i,
        {
            proof {
                let step = self.scopes@.take(i + 1);
                assert(step.drop_last() =~= self.scopes@.take(i as int));
                assert(step.last() == self.scopes@[i as int]);
            }
            let id = self.scopes[i];
            release_root(&mut self.roots, id);
            i = i + 1;
        }
        assert(self.scopes@.take(self.scopes.len() as int) =~= self.scopes@);
        let ghost middle = self.roots@;
        let mut k: usize = 0;
        assert(scopes@.take(0) =~= Seq::empty());
        while k < scopes.len()
            invariant
                k <= scopes.len(),
                self.roots@ == retained_all(middle, scopes@.take(k as int)),
                self@ == (SEnv { roots: self.roots@, ..old(self)@ }),
            decreases scopes.len() - k,
        {
            proof {
                let step = scopes@.take(k + 1);
                assert(step.drop_last() =~= scopes@.take(k as int));
                assert(step.last() == scopes@[k as int]);
            }
            retain_root(&mut self.roots, scopes[k]);
            k = k + 1;
        }
        assert(scopes@.take(scopes.len() as int) =~= scopes@);
        self.scopes = scopes;
    }

    pub fn define_ready(&mut self, id: BindingId, name: &str, value: Value)
        ensures
            final(self)@ == old(self)@.readied(id, name@, value@),
    {
        proof {
            reveal(SEnv::readied);
        }
        let n = self.scopes.len();
        if n == 0 {
            return;
        }
        let scope = self.scopes[n - 1];
        let ghost all = frames_view(self.frames@);
        match frame_index(&self.frames, scope) {
            Some(i) => {
                let ghost f = self.frames@[i as int].1@;
                if let Value::TypeDecl(_) = &value {
                    self.type_bindings = next(self.type_bindings);
                }
                self.frames[i].1.ready(id, name, value);
                assert(frames_view(self.frames@) =~= all.update(
                    i as int,
                    (scope, f.readied(id, name@, value@)),
                ));
            },
            None => {},
        }
    }

    pub fn declare_binding_slot(
        &mut self,
        id: BindingId,
        name: &str,
        initializer: Arc<CheckedExpr>,
    ) -> (r: Result<(), MagError>)
        ensures
            match old(self)@.declared(id, name@, (*initializer)@) {
                Ok(e) => r is Ok && final(self)@ == e,
                Err(e) => r is Err && r->Err_0@ == e && final(self)@ == old(self)@,
            },
    {
        proof {
            reveal(SEnv::declared);
        }
        let n = self.scopes.len();
        if n == 0 {
            return Err(MagError::Eval("binding declaration requires a scope".to_owned()));
        }
        let scope = self.scopes[n - 1];
        let ghost all = frames_view(self.frames@);
        match frame_index(&self.frames, scope) {
            Some(i) => {
                let taken = match slot_index(&self.frames[i].1.slots, id) {
                    Some(_) => true,
                    None => false,
                };
                if taken {
                    return Err(
                        MagError::Eval(
                            cat3("binding slot ", &show_u64(id.0), " is already declared"),
                        ),
                    );
                }
                let ghost f = self.frames@[i as int].1@;
                let ghost made = f.named(name@, id).slotted(
                    id,
                    SSlot::Uninitialized((*initializer)@),
                );
                self.frames[i].1.declare(id, name, initializer);
                assert(frames_view(self.frames@) =~= all.update(i as int, (scope, made)));
                Ok(())
            },
            None => Err(MagError::Eval("binding declaration frame was reclaimed".to_owned())),
        }
    }

    /// Puts something else into the slot of a binding.
    fn put_slot(&mut self, handle: &BindingHandle, i: usize, slot: BindingSlot)
        requires
            i < old(self).frames@.len(),
            old(self).frames@[i as int].0 == handle.frame,
            old(self)@.frame(handle.frame) == Some(old(self).frames@[i as int].1@),
            forall|v: SFrame|
                with_key(old(self)@.frames, handle.frame, v, 0) == old(self)@.frames.update(
                    i as int,
                    (handle.frame, v),
                ),
        ensures
            final(self)@ == old(self)@.with_slot(*handle, slot@),
    {
        let ghost all = frames_view(self.frames@);
        let ghost f = self.frames@[i as int].1@;
        self.frames[i].1.set_slot(handle.id, slot);
        assert(frames_view(self.frames@) =~= all.update(
            i as int,
            (handle.frame, f.slotted(handle.id, slot@)),
        ));
    }

    /// Whether a handle is of this program.
    pub fn owns_binding_handle(&self, handle: &BindingHandle) -> (r: bool)
        ensures
            r == (handle.program == self@.program),
    {
        handle.program == self.program
    }

    /// Asks for the value of a binding; one that waits for its initializer is then being
    /// initialized.
    pub fn begin_handle_force(&mut self, handle: &BindingHandle) -> (r: Result<
        BindingForce,
        MagError,
    >)
        ensures
            ({
                let (e, x) = old(self)@.begun(*handle);
                final(self)@ == e && match r {
                    Ok(f) => x == Ok::<SForce, SError>(f@),
                    Err(e) => x == Err::<SForce, SError>(e@),
                }
            }),
    {
        proof {
            reveal(SEnv::begun);
        }
        if !self.owns_binding_handle(handle) {
            return Err(dropped_program());
        }
        match frame_index(&self.frames, handle.frame) {
            None => Err(MagError::Eval("binding frame was reclaimed".to_owned())),
            Some(i) => match slot_index(&self.frames[i].1.slots, handle.id) {
                None => Err(MagError::Unresolved(cat2("binding#", &show_u64(handle.id.0)))),
                Some(k) => {
                    let initializer = match &self.frames[i].1.slots[k].1 {
                        BindingSlot::Ready(v) => {
                            return Ok(BindingForce::Ready(v.clone()));
                        },
                        BindingSlot::Initializing => {
                            return Err(
                                MagError::Eval(
                                    cat2(
                                        "binding initialization cycle at binding#",
                                        &show_u64(handle.id.0),
                                    ),
                                ),
                            );
                        },
                        BindingSlot::Uninitialized(e) => share(e),
                    };
                    self.put_slot(handle, i, BindingSlot::Initializing);
                    Ok(BindingForce::Initialize { handle: *handle, initializer })
                },
            },
        }
    }

    fn settle(&mut self, handle: &BindingHandle, slot: BindingSlot, what: &str) -> (r: Result<
        (),
        MagError,
    >)
        ensures
            match old(self)@.settled(*handle, slot@, what@) {
                Ok(e) => r is Ok && final(self)@ == e,
                Err(e) => r is Err && r->Err_0@ == e && final(self)@ == old(self)@,
            },
    {
        proof {
            reveal(SEnv::settled);
        }
        if !self.owns_binding_handle(handle) {
            return Err(dropped_program());
        }
        match frame_index(&self.frames, handle.frame) {
            None => Err(MagError::Eval("binding frame was reclaimed".to_owned())),
            Some(i) => match slot_index(&self.frames[i].1.slots, handle.id) {
                None => Err(MagError::Unresolved(cat2("binding#", &show_u64(handle.id.0)))),
                Some(k) => {
                    let initializing = match &self.frames[i].1.slots[k].1 {
                        BindingSlot::Initializing => true,
                        _ => false,
                    };
                    if initializing {
                        self.put_slot(handle, i, slot);
                        Ok(())
                    } else {
                        Err(
                            MagError::Eval(
                                cat4(
                                    "binding#",
                                    &show_u64(handle.id.0),
                                    what,
                                    " outside initialization",
                                ),
                            ),
                        )
                    }
                },
            },
        }
    }

    pub fn complete_handle_force(&mut self, handle: &BindingHandle, value: Value) -> (r: Result<
        (),
        MagError,
    >)
        ensures
            match old(self)@.settled(*handle, SSlot::Ready(value@), " completed"@) {
                Ok(e) => r is Ok && final(self)@ == e,
                Err(e) => r is Err && r->Err_0@ == e && final(self)@ == old(self)@,
            },
    {
        self.settle(handle, BindingSlot::Ready(value), " completed")
    }

    pub fn reset_handle_force(&mut self, handle: &BindingHandle, initializer: Arc<CheckedExpr>) -> (r:
        Result<(), MagError>)
        ensures
            match old(self)@.settled(*handle, SSlot::Uninitialized((*initializer)@), " reset"@) {
                Ok(e) => r is Ok && final(self)@ == e,
                Err(e) => r is Err && r->Err_0@ == e && final(self)@ == old(self)@,
            },
    {
        self.settle(handle, BindingSlot::Uninitialized(initializer), " reset")
    }

    /// Asks for the value of a binding in scope.
    pub fn begin_binding_force(&mut self, id: BindingId) -> (r: Result<BindingForce, MagError>)
        ensures
            match old(self)@.home(id) {
                None => final(self)@ == old(self)@ && r is Err && r->Err_0@ == unbound(id),
                Some(frame) => {
                    let (e, x) = old(self)@.begun(old(self)@.handle(id, frame));
                    final(self)@ == e && match r {
                        Ok(f) => x == Ok::<SForce, SError>(f@),
                        Err(e) => x == Err::<SForce, SError>(e@),
                    }
                },
            },
    {
        let handle = self.binding_handle(id)?;
        self.begin_handle_force(&handle)
    }

    /// Gives a binding in scope, which is being initialized, its value.
    pub fn complete_binding_force(&mut self, id: BindingId, value: Value) -> (r: Result<
        (),
        MagError,
    >)
        ensures
            match settled_in_scope(old(self)@, id, SSlot::Ready(value@), " completed"@) {
                Ok(e) => r is Ok && final(self)@ == e,
                Err(e) => r is Err && r->Err_0@ == e && final(self)@ == old(self)@,
            },
    {
        let handle = self.binding_handle(id)?;
        self.complete_handle_force(&handle, value)
    }

    /// Lets a binding in scope, which is being initialized, wait for its initializer again.
    pub fn reset_binding_force(&mut self, id: BindingId, initializer: Arc<CheckedExpr>) -> (r:
        Result<(), MagError>)
        ensures
            match settled_in_scope(
                old(self)@,
                id,
                SSlot::Uninitialized((*initializer)@),
                " reset"@,
            ) {
                Ok(e) => r is Ok && final(self)@ == e,
                Err(e) => r is Err && r->Err_0@ == e && final(self)@ == old(self)@,
            },
    {
        let handle = self.binding_handle(id)?;
        self.reset_handle_force(&handle, initializer)
    }

    /// The value of a binding that is ready, where it waits in a given frame.
    pub fn ready_handle(&self, handle: &BindingHandle) -> (r: Result<Value, MagError>)
        ensures
            crate::env::value_result(r) == handle_value(self@, *handle),
    {
        if !self.owns_binding_handle(handle) {
            return Err(dropped_program());
        }
        match frame_index(&self.frames, handle.frame) {
            None => Err(MagError::Eval("binding frame was reclaimed".to_owned())),
            Some(i) => match slot_index(&self.frames[i].1.slots, handle.id) {
                None => Err(MagError::Unresolved(cat2("binding#", &show_u64(handle.id.0)))),
                Some(k) => match &self.frames[i].1.slots[k].1 {
                    BindingSlot::Ready(v) => Ok(v.clone()),
                    BindingSlot::Initializing => Err(
                        MagError::Eval(
                            cat2(
                                "binding initialization cycle at binding#",
                                &show_u64(handle.id.0),
                            ),
                        ),
                    ),
                    BindingSlot::Uninitialized(_) => Err(
                        MagError::Eval(
                            cat3("binding#", &show_u64(handle.id.0), " has not been initialized"),
                        ),
                    ),
                },
            },
        }
    }

    pub fn define(&mut self, table: &mut Bindings, name: &str, value: Value)
        ensures
            (final(self)@, final(table)@) == defined(old(self)@, old(table)@, name@, value@),
    {
        proof {
            reveal(defined);
        }
        let ty = value_type(&value);
        let id = table.allocate_binding_id(name, ty);
        self.define_ready(id, name, value);
    }

    pub fn define_binding(&mut self, table: &mut Bindings, name: &str, value: Value) -> (r: Result<
        (),
        MagError,
    >)
        ensures
            (final(self)@, final(table)@, unit_result(r)) == newly_defined(
                old(self)@,
                old(table)@,
                name@,
                value@,
            ),
    {
        proof {
            reveal(newly_defined);
        }
        match canonical_value_type(&value) {
            Some(text) => {
                let found = self.lookup_candidates(name);
                let ghost all = values_view(found@);
                assert(all.len() == found@.len());
                let mut n: usize = found.len();
                while n > 0
                    invariant
                        n <= found.len(),
                        all == values_view(found@),
                        all.len() == found@.len(),
                        self@ == old(self)@,
                        table@ == old(table)@,
                        all == old(self)@.candidates(name@),
                        overload_text(value@) == Some(text@),
                        bound_already(all, text@, all.len()) == bound_already(all, text@, n as nat),
                    decreases n,
                {
                    n = n - 1;
                    assert(all[n as int] == found@[n as int]@);
                    match canonical_value_type(&found[n]) {
                        Some(other) => {
                            if same(&other, &text) {
                                proof {
                                    reveal(newly_defined);
                                }
                                return Err(
                                    MagError::Type(
                                        cat4("duplicate visible overload ", name, ": ", &text),
                                    ),
                                );
                            }
                        },
                        None => {},
                    }
                }
            },
            None => {},
        }
        self.define(table, name, value);
        Ok(())
    }

    /// The name that a declaration of this module has.
    pub fn qualify(&self, local: &str) -> (r: String)
        ensures
            r@ == self@.qualified(local@),
    {
        cat3(&self.module, ".", local)
    }

    pub fn live_frame_count(&self) -> (r: usize)
        ensures
            r == self@.frames.len(),
    {
        self.frames.len()
    }
}

pub open spec fn handle_value(env: SEnv, h: BindingHandle) -> Result<SValue, SError> {
    if h.program != env.program {
        Err(dropped())
    } else {
        match env.frame(h.frame) {
            None => Err(SError::Eval("binding frame was reclaimed"@)),
            Some(f) => match keyed(f.slots, h.id, 0) {
                Some(SSlot::Ready(v)) => Ok(v),
                Some(SSlot::Initializing) => Err(
                    SError::Eval(
                        "binding initialization cycle at binding#"@ + decimal(h.id.0 as nat),
                    ),
                ),
                Some(SSlot::Uninitialized(_)) => Err(
                    SError::Eval("binding#"@ + decimal(h.id.0 as nat) + " has not been initialized"@),
                ),
                None => Err(SError::Unresolved("binding#"@ + decimal(h.id.0 as nat))),
            },
        }
    }
}

/// A binding whose initializer was asked for and which was given its value is ready with that
/// value; while it is being initialized, it cannot be asked for again.
pub proof fn completed_binding_is_ready(env: SEnv, h: BindingHandle, v: SValue, what: Seq<char>)
    requires
        env.begun(h).1 is Ok,
        env.begun(h).1->Ok_0 is Initialize,
    ensures
        env.begun(h).0.begun(h).1 is Err,
        env.begun(h).0.settled(h, SSlot::Ready(v), what) is Ok,
        ({
            let done = env.begun(h).0.settled(h, SSlot::Ready(v), what)->Ok_0;
            handle_value(done, h) == Ok::<SValue, SError>(v) && done.begun(h) == (
                done,
                Ok::<SForce, SError>(SForce::Ready(v)),
            )
        }),
{
    reveal(SEnv::begun);
    reveal(SEnv::settled);
    let started = env.with_slot(h, SSlot::Initializing);
    slot_is_what_was_put(env, h, SSlot::Initializing);
    slot_is_what_was_put(started, h, SSlot::Ready(v));
}

/// A binding whose initializer failed waits for it again, as if it had not been asked for.
pub proof fn reset_binding_waits_again(env: SEnv, h: BindingHandle, what: Seq<char>)
    requires
        env.begun(h).1 is Ok,
        env.begun(h).1->Ok_0 is Initialize,
    ensures
        ({
            let init = env.begun(h).1->Ok_0->Initialize_1;
            let reset = env.begun(h).0.settled(h, SSlot::Uninitialized(init), what);
            reset is Ok && reset->Ok_0.slot(h) == env.slot(h) && reset->Ok_0.begun(h).1
                == env.begun(h).1
        }),
{
    reveal(SEnv::begun);
    reveal(SEnv::settled);
    let init = env.begun(h).1->Ok_0->Initialize_1;
    let started = env.with_slot(h, SSlot::Initializing);
    slot_is_what_was_put(env, h, SSlot::Initializing);
    slot_is_what_was_put(started, h, SSlot::Uninitialized(init));
}

proof fn slot_is_what_was_put(env: SEnv, h: BindingHandle, slot: SSlot)
    requires
        env.frame(h.frame) is Some,
    ensures
        env.with_slot(h, slot).slot(h) == Some(slot),
        env.with_slot(h, slot).frame(h.frame) is Some,
{
    let f = env.frame(h.frame)->Some_0;
    let g = SFrame { slots: with_key(f.slots, h.id, slot, 0), ..f };
    keyed_with_key(f.slots, h.id, slot, h.id, 0);
    keyed_with_key(env.frames, h.frame, g, h.frame, 0);
}

/// Leaving a scope that was just entered gives back the scopes in force, and no name stands for
/// anything else than before.
pub proof fn leaving_a_scope_undoes_entering(env: SEnv, name: Seq<char>)
    requires
        env.scopes.len() > 0,
        env.frame(FrameId(env.next_frame)) is None,
        forall|i: int|
            0 <= i < env.scopes.len() ==> #[trigger] env.scopes[i] != FrameId(env.next_frame),
    ensures
        env.pushed().popped().scopes == env.scopes,
        env.pushed().popped().candidates(name) == env.candidates(name),
{
    let after = env.pushed().popped();
    assert(after.scopes =~= env.scopes);
    reveal(SEnv::candidates);
    same_candidates(env, after, name, env.scopes.len());
}

proof fn same_candidates(env: SEnv, after: SEnv, name: Seq<char>, n: nat)
    requires
        n <= env.scopes.len(),
        after.scopes == env.scopes,
        after.frames == with_key(env.frames, FrameId(env.next_frame), SFrame::empty(), 0),
        forall|i: int|
            0 <= i < env.scopes.len() ==> #[trigger] env.scopes[i] != FrameId(env.next_frame),
    ensures
        after.candidates_in(name, n) == env.candidates_in(name, n),
    decreases n,
{
    if n > 0 {
        same_candidates(env, after, name, (n - 1) as nat);
        assert(env.scopes[n - 1] != FrameId(env.next_frame));
        keyed_with_key(
            env.frames,
            FrameId(env.next_frame),
            SFrame::empty(),
            env.scopes[n - 1],
            0,
        );
    }
}

} // verus!
