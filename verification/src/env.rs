//! Lexical environments: frames of bindings in an arena, the scopes that see them, and the states
//! that a lazily initialised binding goes through.

use std::sync::Arc;
use vstd::prelude::*;

use crate::ast::{
    share, values_view, BindingId, CheckedExpr, FrameId, SChecked, SDecl, SValue, TypeDecl, Value,
};
use crate::bindings::{next_id, Bindings, SBindings};
use crate::error::{MagError, SError};
use crate::text::{cat2, cat3, cat4, decimal, join, joined, same, show_u64, strings};
use crate::types::{type_text, MagType, SType};
use crate::value_types::{
    canonical_value_type, opt_type, overload_text, type_of, value_type,
};

verus! {

broadcast use vstd::seq_lib::group_seq_properties;

pub enum BindingSlot {
    Uninitialized(Arc<CheckedExpr>),
    Initializing,
    Ready(Value),
}

/// The model of a [`BindingSlot`].
#[verifier::ext_equal]
pub enum SSlot {
    Uninitialized(SChecked),
    Initializing,
    Ready(SValue),
}

impl View for BindingSlot {
    type V = SSlot;

    open spec fn view(&self) -> SSlot {
        match self {
            BindingSlot::Uninitialized(e) => SSlot::Uninitialized((**e)@),
            BindingSlot::Initializing => SSlot::Initializing,
            BindingSlot::Ready(v) => SSlot::Ready(v@),
        }
    }
}

/// One scope's bindings: under each name the identities in the order of their declaration, and
/// the slot of each identity.
pub struct ScopeFrame {
    pub names: Vec<(String, Vec<BindingId>)>,
    pub slots: Vec<(BindingId, BindingSlot)>,
}

/// The model of a [`ScopeFrame`].
#[verifier::ext_equal]
pub struct SFrame {
    pub names: Seq<(Seq<char>, Seq<BindingId>)>,
    pub slots: Seq<(BindingId, SSlot)>,
}

pub open spec fn names_view(items: Seq<(String, Vec<BindingId>)>) -> Seq<
    (Seq<char>, Seq<BindingId>),
> {
    Seq::new(items.len(), |i: int| (items[i].0@, items[i].1@))
}

pub open spec fn slots_view(items: Seq<(BindingId, BindingSlot)>) -> Seq<(BindingId, SSlot)> {
    Seq::new(items.len(), |i: int| (items[i].0, items[i].1@))
}

impl View for ScopeFrame {
    type V = SFrame;

    open spec fn view(&self) -> SFrame {
        SFrame { names: names_view(self.names@), slots: slots_view(self.slots@) }
    }
}

pub open spec fn frames_view(items: Seq<(FrameId, ScopeFrame)>) -> Seq<(FrameId, SFrame)> {
    Seq::new(items.len(), |i: int| (items[i].0, items[i].1@))
}

/// What stands under a key in the list from position `i` on.
pub open spec fn keyed<K, V>(items: Seq<(K, V)>, key: K, i: nat) -> Option<V>
    decreases items.len() - i,
{
    if i >= items.len() {
        None
    } else if items[i as int].0 == key {
        Some(items[i as int].1)
    } else {
        keyed(items, key, i + 1)
    }
}

/// The list in which `value` stands under `key`: in the place of what stood there from position
/// `i` on, or at the end.
pub open spec fn with_key<K, V>(items: Seq<(K, V)>, key: K, value: V, i: nat) -> Seq<(K, V)>
    decreases items.len() - i,
{
    if i >= items.len() {
        items.push((key, value))
    } else if items[i as int].0 == key {
        items.update(i as int, (key, value))
    } else {
        with_key(items, key, value, i + 1)
    }
}

pub proof fn keyed_with_key<K, V>(items: Seq<(K, V)>, key: K, value: V, other: K, i: nat)
    requires
        i <= items.len(),
    ensures
        keyed(with_key(items, key, value, i), other, i) == if other == key {
            Some(value)
        } else {
            keyed(items, other, i)
        },
    decreases items.len() - i,
{
    if i < items.len() {
        if items[i as int].0 == key {
            let changed = items.update(i as int, (key, value));
            assert(changed[i as int].0 == key);
            if other != key {
                keyed_suffix(changed, items, other, i + 1);
            }
        } else {
            keyed_with_key(items, key, value, other, i + 1);
            with_key_prefix(items, key, value, i + 1);
            assert(with_key(items, key, value, i)[i as int] == items[i as int]);
        }
    } else {
        let changed = items.push((key, value));
        assert(changed[i as int] == (key, value));
        assert(keyed(changed, other, i + 1) is None);
    }
}

proof fn keyed_suffix<K, V>(a: Seq<(K, V)>, b: Seq<(K, V)>, key: K, i: nat)
    requires
        a.len() == b.len(),
        forall|j: int| i <= j < a.len() ==> a[j] == b[j],
    ensures
        keyed(a, key, i) == keyed(b, key, i),
    decreases a.len() - i,
{
    if i < a.len() {
        keyed_suffix(a, b, key, i + 1);
    }
}

proof fn with_key_prefix<K, V>(items: Seq<(K, V)>, key: K, value: V, i: nat)
    requires
        i <= items.len(),
    ensures
        with_key(items, key, value, i).len() >= items.len(),
        forall|j: int| 0 <= j < i ==> with_key(items, key, value, i)[j] == items[j],
    decreases items.len() - i,
{
    if i < items.len() && items[i as int].0 != key {
        with_key_prefix(items, key, value, i + 1);
    }
}

/// A binding that waits in a frame.
#[derive(Clone, Copy, PartialEq, Eq, Structural)]
pub struct BindingHandle {
    pub id: BindingId,
    pub frame: FrameId,
    /// The program that the binding belongs to.
    pub program: u64,
}

/// What forcing a binding asks for: nothing more, or that its initializer be evaluated.
pub enum BindingForce {
    Ready(Value),
    Initialize { handle: BindingHandle, initializer: Arc<CheckedExpr> },
}

/// The model of a [`BindingForce`].
#[verifier::ext_equal]
pub enum SForce {
    Ready(SValue),
    Initialize(BindingHandle, SChecked),
}

impl View for BindingForce {
    type V = SForce;

    open spec fn view(&self) -> SForce {
        match self {
            BindingForce::Ready(v) => SForce::Ready(v@),
            BindingForce::Initialize { handle, initializer } => SForce::Initialize(
                *handle,
                (**initializer)@,
            ),
        }
    }
}

/// The scopes that are in force, innermost last, and the arena of frames.
pub struct Env {
    pub scopes: Vec<FrameId>,
    pub module: String,
    pub frames: Vec<(FrameId, ScopeFrame)>,
    pub next_frame: u64,
    /// Which program the environment belongs to.
    pub program: u64,
    /// How many times a type declaration was bound.
    pub type_bindings: u64,
    /// How many scopes hold each frame.
    pub roots: Vec<(FrameId, u64)>,
    pub allocations: u64,
    pub interval: u64,
}

/// The model of an [`Env`].
#[verifier::ext_equal]
pub struct SEnv {
    pub scopes: Seq<FrameId>,
    pub module: Seq<char>,
    pub frames: Seq<(FrameId, SFrame)>,
    pub next_frame: u64,
    pub program: u64,
    pub type_bindings: u64,
    pub roots: Seq<(FrameId, u64)>,
    pub allocations: u64,
    pub interval: u64,
}

impl View for Env {
    type V = SEnv;

    open spec fn view(&self) -> SEnv {
        SEnv {
            scopes: self.scopes@,
            module: self.module@,
            frames: frames_view(self.frames@),
            next_frame: self.next_frame,
            program: self.program,
            type_bindings: self.type_bindings,
            roots: self.roots@,
            allocations: self.allocations,
            interval: self.interval,
        }
    }
}

/// The values of those identities whose slots are ready.
pub open spec fn ready_values(frame: SFrame, ids: Seq<BindingId>) -> Seq<SValue>
    decreases ids.len(),
{
    if ids.len() == 0 {
        Seq::empty()
    } else {
        let rest = ready_values(frame, ids.drop_last());
        match keyed(frame.slots, ids.last(), 0) {
            Some(SSlot::Ready(v)) => rest.push(v),
            _ => rest,
        }
    }
}

/// The first occurrences.
pub open spec fn distinct(ids: Seq<BindingId>) -> Seq<BindingId>
    decreases ids.len(),
{
    if ids.len() == 0 {
        Seq::empty()
    } else {
        let rest = distinct(ids.drop_last());
        if rest.contains(ids.last()) {
            rest
        } else {
            rest.push(ids.last())
        }
    }
}

/// The first handle of each identity.
pub open spec fn distinct_handles(handles: Seq<BindingHandle>) -> Seq<BindingHandle>
    decreases handles.len(),
{
    if handles.len() == 0 {
        Seq::empty()
    } else {
        let rest = distinct_handles(handles.drop_last());
        if handles_contain(rest, handles.last().id) {
            rest
        } else {
            rest.push(handles.last())
        }
    }
}

pub open spec fn handles_contain(handles: Seq<BindingHandle>, id: BindingId) -> bool {
    exists|i: int| 0 <= i < handles.len() && (#[trigger] handles[i]).id == id
}

/// The first type declaration with this canonical name among the ready slots from `i` on.
pub open spec fn decl_in(slots: Seq<(BindingId, SSlot)>, name: Seq<char>, i: nat) -> Option<SDecl>
    decreases slots.len() - i,
{
    if i >= slots.len() {
        None
    } else {
        match slots[i as int].1 {
            SSlot::Ready(SValue::TypeDecl(d)) => if d.name == name {
                Some(d)
            } else {
                decl_in(slots, name, i + 1)
            },
            _ => decl_in(slots, name, i + 1),
        }
    }
}

/// The data values: those that are neither functions nor builtins.
pub open spec fn is_data(value: SValue) -> bool {
    !(value is Fn) && !(value is BuiltinFn)
}

pub open spec fn data_values(values: Seq<SValue>) -> Seq<SValue> {
    values.filter(|v: SValue| is_data(v))
}

pub open spec fn non_types(values: Seq<SValue>) -> Seq<SValue> {
    values.filter(|v: SValue| !(v is Type))
}

/// The texts of the types of those values that have one.
pub open spec fn type_texts_of(values: Seq<SValue>) -> Seq<Seq<char>>
    decreases values.len(),
{
    if values.len() == 0 {
        Seq::empty()
    } else {
        let rest = type_texts_of(values.drop_last());
        match type_of(values.last()) {
            Some(t) => rest.push(type_text(t)),
            None => rest,
        }
    }
}

/// The value that a name stands for, given the values that the innermost scope with that name
/// binds to it: types give way to other values, and a single data value wins over functions.
#[verifier::opaque]
pub open spec fn pick(name: Seq<char>, found: Seq<SValue>) -> Result<SValue, SError> {
    let rest = non_types(found);
    let values = if rest.len() == 0 {
        found
    } else {
        rest
    };
    let data = data_values(values);
    if data.len() == 1 {
        Ok(data[0])
    } else if values.len() == 0 {
        Err(SError::Unresolved(name))
    } else if values.len() == 1 {
        Ok(values[0])
    } else {
        Err(
            SError::Type(
                "ambiguous overload "@ + name + "; candidates: "@ + joined(
                    type_texts_of(values),
                    ", "@,
                ),
            ),
        )
    }
}

impl SEnv {
    pub open spec fn frame(self, id: FrameId) -> Option<SFrame> {
        keyed(self.frames, id, 0)
    }

    pub open spec fn ids_in(self, scope: FrameId, name: Seq<char>) -> Seq<BindingId> {
        match self.frame(scope) {
            Some(f) => match keyed(f.names, name, 0) {
                Some(ids) => ids,
                None => Seq::empty(),
            },
            None => Seq::empty(),
        }
    }

    pub open spec fn values_in(self, scope: FrameId, name: Seq<char>) -> Seq<SValue> {
        match self.frame(scope) {
            Some(f) => match keyed(f.names, name, 0) {
                Some(ids) => ready_values(f, ids),
                None => Seq::empty(),
            },
            None => Seq::empty(),
        }
    }

    /// The ready values under a name in the outermost `n` scopes, the innermost of them first.
    pub open spec fn candidates_in(self, name: Seq<char>, n: nat) -> Seq<SValue>
        decreases n,
    {
        if n == 0 {
            Seq::empty()
        } else {
            self.values_in(self.scopes[n - 1], name) + self.candidates_in(name, (n - 1) as nat)
        }
    }

    /// The ready values under a name, innermost scope first.
    #[verifier::opaque]
    pub open spec fn candidates(self, name: Seq<char>) -> Seq<SValue> {
        self.candidates_in(name, self.scopes.len())
    }

    pub open spec fn ids_within(self, name: Seq<char>, n: nat) -> Seq<BindingId>
        decreases n,
    {
        if n == 0 {
            Seq::empty()
        } else {
            self.ids_in(self.scopes[n - 1], name) + self.ids_within(name, (n - 1) as nat)
        }
    }

    /// The identities under a name, innermost scope first, each once.
    #[verifier::opaque]
    pub open spec fn candidate_ids(self, name: Seq<char>) -> Seq<BindingId> {
        distinct(self.ids_within(name, self.scopes.len()))
    }

    /// The bindings under a name in one scope.
    pub open spec fn handles_in(self, scope: FrameId, name: Seq<char>) -> Seq<BindingHandle> {
        let ids = self.ids_in(scope, name);
        Seq::new(ids.len(), |i: int| BindingHandle { id: ids[i], frame: scope, program: self.program })
    }

    /// The bindings under a name in the outermost `n` scopes, the innermost of them first.
    pub open spec fn handles_within(self, name: Seq<char>, n: nat) -> Seq<BindingHandle>
        decreases n,
    {
        if n == 0 {
            Seq::empty()
        } else {
            self.handles_in(self.scopes[n - 1], name) + self.handles_within(name, (n - 1) as nat)
        }
    }

    /// The declaration of a nominal type.
    pub open spec fn decl_within(self, name: Seq<char>, n: nat) -> Option<SDecl>
        decreases n,
    {
        if n == 0 {
            None
        } else {
            let found = match self.frame(self.scopes[n - 1]) {
                Some(f) => decl_in(f.slots, name, 0),
                None => None,
            };
            match found {
                Some(d) => Some(d),
                None => self.decl_within(name, (n - 1) as nat),
            }
        }
    }

    #[verifier::opaque]
    pub open spec fn decl(self, name: Seq<char>) -> Option<SDecl> {
        self.decl_within(name, self.scopes.len())
    }

    /// What the innermost of the outermost `n` scopes that has the name binds to it.
    pub open spec fn bound_within(self, name: Seq<char>, n: nat) -> Option<Seq<SValue>>
        decreases n,
    {
        if n == 0 {
            None
        } else {
            match self.frame(self.scopes[n - 1]) {
                Some(f) => match keyed(f.names, name, 0) {
                    Some(ids) => Some(ready_values(f, ids)),
                    None => self.bound_within(name, (n - 1) as nat),
                },
                None => self.bound_within(name, (n - 1) as nat),
            }
        }
    }

    #[verifier::opaque]
    pub open spec fn lookup(self, name: Seq<char>) -> Result<SValue, SError> {
        match self.bound_within(name, self.scopes.len()) {
            None => Err(SError::Unresolved(name)),
            Some(found) => pick(name, found),
        }
    }

    /// The one value under a name with exactly this type.
    #[verifier::opaque]
    pub open spec fn lookup_by_type(self, name: Seq<char>, expected: SType) -> Result<
        SValue,
        SError,
    > {
        let matching = self.candidates(name).filter(|v: SValue| type_of(v) == Some(expected));
        if matching.len() == 1 {
            Ok(matching[0])
        } else if matching.len() == 0 {
            Err(SError::Type("no overload "@ + name + " matches "@ + type_text(expected)))
        } else {
            Err(SError::Type("ambiguous overload "@ + name + " for "@ + type_text(expected)))
        }
    }

    /// The frame, among the outermost `n` scopes, whose slots hold a binding.
    pub open spec fn home_within(self, id: BindingId, n: nat) -> Option<FrameId>
        decreases n,
    {
        if n == 0 {
            None
        } else {
            match self.frame(self.scopes[n - 1]) {
                Some(f) => if keyed(f.slots, id, 0) is Some {
                    Some(self.scopes[n - 1])
                } else {
                    self.home_within(id, (n - 1) as nat)
                },
                None => self.home_within(id, (n - 1) as nat),
            }
        }
    }

    /// The innermost frame whose slots hold a binding.
    #[verifier::opaque]
    pub open spec fn home(self, id: BindingId) -> Option<FrameId> {
        self.home_within(id, self.scopes.len())
    }

    /// A binding of this program that waits in a frame.
    pub open spec fn handle(self, id: BindingId, frame: FrameId) -> BindingHandle {
        BindingHandle { id, frame, program: self.program }
    }

    /// The slot that a binding has in a frame.
    pub open spec fn slot(self, handle: BindingHandle) -> Option<SSlot> {
        match self.frame(handle.frame) {
            Some(f) => keyed(f.slots, handle.id, 0),
            None => None,
        }
    }

    /// The environment in which a binding's slot holds something else.
    pub open spec fn with_slot(self, handle: BindingHandle, slot: SSlot) -> SEnv {
        match self.frame(handle.frame) {
            Some(f) => SEnv {
                frames: with_key(
                    self.frames,
                    handle.frame,
                    SFrame { slots: with_key(f.slots, handle.id, slot, 0), ..f },
                    0,
                ),
                ..self
            },
            None => self,
        }
    }

    /// The value of a binding that is ready.
    #[verifier::opaque]
    pub open spec fn ready(self, id: BindingId) -> Result<SValue, SError> {
        match self.home(id) {
            None => Err(SError::Unresolved("binding#"@ + decimal(id.0 as nat))),
            Some(frame) => match self.slot(self.handle(id, frame)) {
                Some(SSlot::Ready(v)) => Ok(v),
                Some(SSlot::Uninitialized(_)) => Err(
                    SError::Eval("binding#"@ + decimal(id.0 as nat) + " has not been initialized"@),
                ),
                Some(SSlot::Initializing) => Err(
                    SError::Eval("binding initialization cycle at binding#"@ + decimal(id.0 as nat)),
                ),
                None => Err(SError::Unresolved("binding#"@ + decimal(id.0 as nat))),
            },
        }
    }
}

pub open spec fn value_result(r: Result<Value, MagError>) -> Result<SValue, SError> {
    match r {
        Ok(v) => Ok(v@),
        Err(e) => Err(e@),
    }
}

pub open spec fn decl_option(d: Option<TypeDecl>) -> Option<SDecl> {
    match d {
        Some(d) => Some(d@),
        None => None,
    }
}

pub(crate) fn frame_index(frames: &Vec<(FrameId, ScopeFrame)>, id: FrameId) -> (r: Option<usize>)
    ensures
        match r {
            Some(i) => {
                &&& i < frames@.len()
                &&& frames@[i as int].0 == id
                &&& keyed(frames_view(frames@), id, 0) == Some(frames@[i as int].1@)
                &&& forall|v: SFrame|
                    with_key(frames_view(frames@), id, v, 0) == frames_view(frames@).update(
                        i as int,
                        (id, v),
                    )
            },
            None => {
                &&& keyed(frames_view(frames@), id, 0) is None
                &&& forall|v: SFrame|
                    with_key(frames_view(frames@), id, v, 0) == frames_view(frames@).push((id, v))
            },
        },
{
    let ghost all = frames_view(frames@);
    let mut i: usize = 0;
    while i < frames.len()
        invariant
            i <= frames.len(),
            all == frames_view(frames@),
            keyed(all, id, 0) == keyed(all, id, i as nat),
            forall|v: SFrame| with_key(all, id, v, 0) == with_key(all, id, v, i as nat),
        decreases frames.len() - i,
    {
        if frames[i].0 == id {
            return Some(i);
        }
        i = i + 1;
    }
    None
}

pub(crate) fn slot_index(slots: &Vec<(BindingId, BindingSlot)>, id: BindingId) -> (r: Option<usize>)
    ensures
        match r {
            Some(i) => {
                &&& i < slots@.len()
                &&& slots@[i as int].0 == id
                &&& keyed(slots_view(slots@), id, 0) == Some(slots@[i as int].1@)
                &&& forall|v: SSlot|
                    with_key(slots_view(slots@), id, v, 0) == slots_view(slots@).update(
                        i as int,
                        (id, v),
                    )
            },
            None => {
                &&& keyed(slots_view(slots@), id, 0) is None
                &&& forall|v: SSlot|
                    with_key(slots_view(slots@), id, v, 0) == slots_view(slots@).push((id, v))
            },
        },
{
    let ghost all = slots_view(slots@);
    let mut i: usize = 0;
    while i < slots.len()
        invariant
            i <= slots.len(),
            all == slots_view(slots@),
            keyed(all, id, 0) == keyed(all, id, i as nat),
            forall|v: SSlot| with_key(all, id, v, 0) == with_key(all, id, v, i as nat),
        decreases slots.len() - i,
    {
        if slots[i].0 == id {
            return Some(i);
        }
        i = i + 1;
    }
    None
}

pub(crate) fn name_index(names: &Vec<(String, Vec<BindingId>)>, name: &str) -> (r: Option<usize>)
    ensures
        match r {
            Some(i) => {
                &&& i < names@.len()
                &&& names@[i as int].0@ == name@
                &&& keyed(names_view(names@), name@, 0) == Some(names@[i as int].1@)
                &&& forall|v: Seq<BindingId>|
                    with_key(names_view(names@), name@, v, 0) == names_view(names@).update(
                        i as int,
                        (name@, v),
                    )
            },
            None => {
                &&& keyed(names_view(names@), name@, 0) is None
                &&& forall|v: Seq<BindingId>|
                    with_key(names_view(names@), name@, v, 0) == names_view(names@).push((name@, v))
            },
        },
{
    let ghost all = names_view(names@);
    let mut i: usize = 0;
    while i < names.len()
        invariant
            i <= names.len(),
            all == names_view(names@),
            keyed(all, name@, 0) == keyed(all, name@, i as nat),
            forall|v: Seq<BindingId>| with_key(all, name@, v, 0) == with_key(all, name@, v, i as nat),
        decreases names.len() - i,
    {
        if same(&names[i].0, name) {
            return Some(i);
        }
        i = i + 1;
    }
    None
}

/// The ready values of a frame's identities.
pub(crate) fn collect_ready(frame: &ScopeFrame, ids: &Vec<BindingId>, out: &mut Vec<Value>)
    ensures
        values_view(final(out)@) == values_view(old(out)@) + ready_values(frame@, ids@),
{
    let ghost before = values_view(out@);
    let mut i: usize = 0;
    assert(ids@.take(0) =~= Seq::empty());
    assert(before + ready_values(frame@, ids@.take(0)) =~= before);
    while i < ids.len()
        invariant
            i <= ids.len(),
            values_view(out@) == before + ready_values(frame@, ids@.take(i as int)),
        decreases ids.len() - i,
    {
        let ghost step = ids@.take(i + 1);
        proof {
            assert(step.drop_last() =~= ids@.take(i as int));
            assert(step.last() == ids@[i as int]);
        }
        match slot_index(&frame.slots, ids[i]) {
            Some(k) => match &frame.slots[k].1 {
                BindingSlot::Ready(v) => {
                    let ghost so_far = values_view(out@);
                    let value = v.clone();
                    out.push(value);
                    assert(values_view(out@) =~= so_far.push(value@));
                },
                _ => {},
            },
            None => {},
        }
        i = i + 1;
    }
    assert(ids@.take(ids.len() as int) =~= ids@);
}

impl Env {
    pub(crate) fn find_frame(&self, id: FrameId) -> (r: Option<&ScopeFrame>)
        ensures
            match r {
                Some(f) => self@.frame(id) == Some(f@),
                None => self@.frame(id) is None,
            },
    {
        match frame_index(&self.frames, id) {
            Some(i) => Some(&self.frames[i].1),
            None => None,
        }
    }

    /// The ready values under a name, innermost scope first.
    pub fn lookup_candidates(&self, name: &str) -> (r: Vec<Value>)
        ensures
            values_view(r@) == self@.candidates(name@),
    {
        proof {
            reveal(SEnv::candidates);
        }
        let mut r: Vec<Value> = Vec::new();
        let mut n: usize = self.scopes.len();
        assert(values_view(r@) =~= Seq::empty());
        while n > 0
            invariant
                n <= self.scopes.len(),
                self@.candidates(name@) =~= values_view(r@) + self@.candidates_in(name@, n as nat),
            decreases n,
        {
            let ghost before = values_view(r@);
            n = n - 1;
            match self.find_frame(self.scopes[n]) {
                Some(f) => match name_index(&f.names, name) {
                    Some(k) => {
                        collect_ready(f, &f.names[k].1, &mut r);
                    },
                    None => {},
                },
                None => {},
            }
            assert(values_view(r@) =~= before + self@.values_in(self.scopes@[n as int], name@));
        }
        r
    }

    /// The identities under a name, innermost scope first, each once.
    pub fn lookup_candidate_ids(&self, name: &str) -> (r: Vec<BindingId>)
        ensures
            r@ == self@.candidate_ids(name@),
    {
        proof {
            reveal(SEnv::candidate_ids);
        }
        let mut all: Vec<BindingId> = Vec::new();
        let mut n: usize = self.scopes.len();
        while n > 0
            invariant
                n <= self.scopes.len(),
                self@.ids_within(name@, self@.scopes.len()) =~= all@ + self@.ids_within(
                    name@,
                    n as nat,
                ),
            decreases n,
        {
            let ghost before = all@;
            n = n - 1;
            match self.find_frame(self.scopes[n]) {
                Some(f) => match name_index(&f.names, name) {
                    Some(k) => {
                        append_ids(&mut all, &f.names[k].1);
                    },
                    None => {},
                },
                None => {},
            }
            assert(all@ =~= before + self@.ids_in(self.scopes@[n as int], name@));
        }
        distinct_ids(&all)
    }

    /// The bindings under a name, innermost scope first, each identity once.
    pub fn lookup_handles(&self, name: &str) -> (r: Vec<BindingHandle>)
        ensures
            r@ == distinct_handles(self@.handles_within(name@, self@.scopes.len())),
    {
        let mut all: Vec<BindingHandle> = Vec::new();
        let mut n: usize = self.scopes.len();
        while n > 0
            invariant
                n <= self.scopes.len(),
                self@.handles_within(name@, self@.scopes.len()) =~= all@ + self@.handles_within(
                    name@,
                    n as nat,
                ),
            decreases n,
        {
            let ghost before = all@;
            n = n - 1;
            match self.find_frame(self.scopes[n]) {
                Some(f) => match name_index(&f.names, name) {
                    Some(k) => {
                        append_handles(&mut all, &f.names[k].1, self.scopes[n], self.program);
                    },
                    None => {},
                },
                None => {},
            }
            assert(all@ =~= before + self@.handles_in(self.scopes@[n as int], name@));
        }
        first_handles(&all)
    }

    /// The declaration of a nominal type.
    pub fn type_decl(&self, canonical: &str) -> (r: Option<TypeDecl>)
        ensures
            decl_option(r) == self@.decl(canonical@),
    {
        proof {
            reveal(SEnv::decl);
        }
        let mut n: usize = self.scopes.len();
        while n > 0
            invariant
                n <= self.scopes.len(),
                self@.decl(canonical@) == self@.decl_within(canonical@, n as nat),
            decreases n,
        {
            n = n - 1;
            match self.find_frame(self.scopes[n]) {
                Some(f) => {
                    let ghost slots = slots_view(f.slots@);
                    let mut i: usize = 0;
                    while i < f.slots.len()
                        invariant
                            i <= f.slots.len(),
                            n < self.scopes.len(),
                            slots == slots_view(f.slots@),
                            self@.frame(self.scopes@[n as int]) == Some(f@),
                            self@.decl(canonical@) == self@.decl_within(canonical@, (n + 1) as nat),
                            decl_in(slots, canonical@, 0) == decl_in(slots, canonical@, i as nat),
                        decreases f.slots.len() - i,
                    {
                        match &f.slots[i].1 {
                            BindingSlot::Ready(Value::TypeDecl(d)) => {
                                if same(&d.name, canonical) {
                                    return Some(d.clone());
                                }
                            },
                            _ => {},
                        }
                        i = i + 1;
                    }
                },
                None => {},
            }
        }
        None
    }

    /// The value that a name stands for.
    pub fn lookup(&self, name: &str) -> (r: Result<Value, MagError>)
        ensures
            value_result(r) == self@.lookup(name@),
    {
        proof {
            reveal(SEnv::lookup);
        }
        let mut n: usize = self.scopes.len();
        while n > 0
            invariant
                n <= self.scopes.len(),
                self@.bound_within(name@, self@.scopes.len()) == self@.bound_within(
                    name@,
                    n as nat,
                ),
            decreases n,
        {
            n = n - 1;
            match self.find_frame(self.scopes[n]) {
                Some(f) => match name_index(&f.names, name) {
                    Some(k) => {
                        let mut found: Vec<Value> = Vec::new();
                        assert(values_view(found@) =~= Seq::empty());
                        collect_ready(f, &f.names[k].1, &mut found);
                        proof {
                            reveal(SEnv::lookup);
                            assert(values_view(found@) =~= ready_values(f@, f.names@[k as int].1@));
                        }
                        return pick_value(name, found);
                    },
                    None => {},
                },
                None => {},
            }
        }
        Err(MagError::Unresolved(name.to_owned()))
    }

    /// The one value under a name with exactly this type.
    pub fn lookup_by_type(&self, name: &str, expected: &MagType) -> (r: Result<Value, MagError>)
        ensures
            value_result(r) == self@.lookup_by_type(name@, expected@),
    {
        proof {
            reveal(SEnv::lookup_by_type);
        }
        let all = self.lookup_candidates(name);
        let ghost model = values_view(all@);
        let ghost wanted = |v: SValue| type_of(v) == Some(expected@);
        let mut matching: Vec<Value> = Vec::new();
        let mut i: usize = 0;
        assert(model.take(0).filter(wanted) =~= Seq::empty());
        assert(values_view(matching@) =~= Seq::empty());
        while i < all.len()
            invariant
                i <= all.len(),
                model == values_view(all@),
                wanted == (|v: SValue| type_of(v) == Some(expected@)),
                values_view(matching@) == model.take(i as int).filter(wanted),
            decreases all.len() - i,
        {
            let ghost before = values_view(matching@);
            proof {
                filter_step(model, wanted, i as int);
                assert(model[i as int] == all@[i as int]@);
            }
            let fits = match value_type(&all[i]) {
                Some(t) => t.equals(expected),
                None => false,
            };
            if fits {
                let value = all[i].clone();
                matching.push(value);
                assert(values_view(matching@) =~= before.push(value@));
            }
            i = i + 1;
        }
        assert(model.take(all.len() as int) =~= model);
        assert(values_view(matching@).len() == matching@.len());
        if matching.len() == 1 {
            Ok(matching[0].clone())
        } else if matching.len() == 0 {
            Err(MagError::Type(cat4("no overload ", name, " matches ", &expected.show())))
        } else {
            Err(MagError::Type(cat4("ambiguous overload ", name, " for ", &expected.show())))
        }
    }

    pub(crate) fn frame_for_binding(&self, id: BindingId) -> (r: Option<FrameId>)
        ensures
            r == self@.home(id),
    {
        proof {
            reveal(SEnv::home);
        }
        let mut n: usize = self.scopes.len();
        while n > 0
            invariant
                n <= self.scopes.len(),
                self@.home(id) == self@.home_within(id, n as nat),
            decreases n,
        {
            n = n - 1;
            match self.find_frame(self.scopes[n]) {
                Some(f) => match slot_index(&f.slots, id) {
                    Some(_) => {
                        return Some(self.scopes[n]);
                    },
                    None => {},
                },
                None => {},
            }
        }
        None
    }

    /// Where a binding waits.
    pub fn binding_handle(&self, id: BindingId) -> (r: Result<BindingHandle, MagError>)
        ensures
            match r {
                Ok(h) => self@.home(id) == Some(h.frame) && h == self@.handle(id, h.frame),
                Err(e) => self@.home(id) is None && e@ == SError::Unresolved(
                    "binding#"@ + decimal(id.0 as nat),
                ),
            },
    {
        match self.frame_for_binding(id) {
            Some(frame) => Ok(BindingHandle { id, frame, program: self.program }),
            None => Err(MagError::Unresolved(cat2("binding#", &show_u64(id.0)))),
        }
    }

    /// The value of a binding that is ready.
    pub fn ready_binding(&self, id: BindingId) -> (r: Result<Value, MagError>)
        ensures
            value_result(r) == self@.ready(id),
    {
        proof {
            reveal(SEnv::ready);
        }
        match self.frame_for_binding(id) {
            None => Err(MagError::Unresolved(cat2("binding#", &show_u64(id.0)))),
            Some(frame) => {
                match self.find_frame(frame) {
                    Some(f) => match slot_index(&f.slots, id) {
                        Some(k) => match &f.slots[k].1 {
                            BindingSlot::Ready(v) => Ok(v.clone()),
                            BindingSlot::Uninitialized(_) => Err(
                                MagError::Eval(
                                    cat3("binding#", &show_u64(id.0), " has not been initialized"),
                                ),
                            ),
                            BindingSlot::Initializing => Err(
                                MagError::Eval(
                                    cat2(
                                        "binding initialization cycle at binding#",
                                        &show_u64(id.0),
                                    ),
                                ),
                            ),
                        },
                        None => Err(MagError::Unresolved(cat2("binding#", &show_u64(id.0)))),
                    },
                    None => Err(MagError::Unresolved(cat2("binding#", &show_u64(id.0)))),
                }
            },
        }
    }
}

fn append_ids(out: &mut Vec<BindingId>, ids: &Vec<BindingId>)
    ensures
        final(out)@ == old(out)@ + ids@,
{
    let mut i: usize = 0;
    assert(old(out)@ + ids@.take(0) =~= old(out)@);
    while i < ids.len()
        invariant
            i <= ids.len(),
            out@ == old(out)@ + ids@.take(i as int),
        decreases ids.len() - i,
    {
        out.push(ids[i]);
        assert(ids@.take(i + 1) =~= ids@.take(i as int).push(ids@[i as int]));
        i = i + 1;
    }
    assert(ids@.take(ids.len() as int) =~= ids@);
}

fn distinct_ids(ids: &Vec<BindingId>) -> (r: Vec<BindingId>)
    ensures
        r@ == distinct(ids@),
{
    let mut r: Vec<BindingId> = Vec::new();
    let mut i: usize = 0;
    assert(ids@.take(0) =~= Seq::empty());
    while i < ids.len()
        invariant
            i <= ids.len(),
            r@ == distinct(ids@.take(i as int)),
        decreases ids.len() - i,
    {
        proof {
            assert(ids@.take(i + 1).drop_last() =~= ids@.take(i as int));
            assert(ids@.take(i + 1).last() == ids@[i as int]);
        }
        if !has_id(&r, ids[i]) {
            r.push(ids[i]);
        }
        i = i + 1;
    }
    assert(ids@.take(ids.len() as int) =~= ids@);
    r
}

fn append_handles(
    out: &mut Vec<BindingHandle>,
    ids: &Vec<BindingId>,
    frame: FrameId,
    program: u64,
)
    ensures
        final(out)@ == old(out)@ + Seq::new(
            ids@.len(),
            |i: int| BindingHandle { id: ids@[i], frame, program },
        ),
{
    let mut i: usize = 0;
    while i < ids.len()
        invariant
            i <= ids.len(),
            out@ =~= old(out)@ + Seq::new(
                i as nat,
                |k: int| BindingHandle { id: ids@[k], frame, program },
            ),
        decreases ids.len() - i,
    {
        out.push(BindingHandle { id: ids[i], frame, program });
        i = i + 1;
    }
}

fn first_handles(handles: &Vec<BindingHandle>) -> (r: Vec<BindingHandle>)
    ensures
        r@ == distinct_handles(handles@),
{
    let mut r: Vec<BindingHandle> = Vec::new();
    let mut i: usize = 0;
    assert(handles@.take(0) =~= Seq::empty());
    while i < handles.len()
        invariant
            i <= handles.len(),
            r@ == distinct_handles(handles@.take(i as int)),
        decreases handles.len() - i,
    {
        proof {
            assert(handles@.take(i + 1).drop_last() =~= handles@.take(i as int));
            assert(handles@.take(i + 1).last() == handles@[i as int]);
        }
        if !has_handle(&r, handles[i].id) {
            r.push(handles[i]);
        }
        i = i + 1;
    }
    assert(handles@.take(handles.len() as int) =~= handles@);
    r
}

fn has_handle(handles: &Vec<BindingHandle>, id: BindingId) -> (r: bool)
    ensures
        r == handles_contain(handles@, id),
{
    let mut i: usize = 0;
    while i < handles.len()
        invariant
            i <= handles.len(),
            forall|j: int| 0 <= j < i ==> (#[trigger] handles@[j]).id != id,
        decreases handles.len() - i,
    {
        if handles[i].id == id {
            return true;
        }
        i = i + 1;
    }
    false
}

pub fn has_id(ids: &Vec<BindingId>, id: BindingId) -> (r: bool)
    ensures
        r == ids@.contains(id),
{
    let mut i: usize = 0;
    while i < ids.len()
        invariant
            i <= ids.len(),
            forall|j: int| 0 <= j < i ==> ids@[j] != id,
        decreases ids.len() - i,
    {
        if ids[i] == id {
            return true;
        }
        i = i + 1;
    }
    false
}

/// Filtering one item more.
pub proof fn filter_step<A>(items: Seq<A>, keep: spec_fn(A) -> bool, i: int)
    requires
        0 <= i < items.len(),
    ensures
        items.take(i + 1).filter(keep) == if keep(items[i]) {
            items.take(i).filter(keep).push(items[i])
        } else {
            items.take(i).filter(keep)
        },
{
    reveal(Seq::filter);
    let step = items.take(i + 1);
    assert(step.drop_last() =~= items.take(i));
    assert(step.last() == items[i]);
}

/// The value that a name stands for, among those that one scope binds to it.
pub fn pick_value(name: &str, found: Vec<Value>) -> (r: Result<Value, MagError>)
    ensures
        value_result(r) == pick(name@, values_view(found@)),
{
    proof {
        reveal(pick);
    }
    let rest = without_types(&found);
    assert(values_view(rest@).len() == rest@.len());
    let values = if rest.len() == 0 {
        found
    } else {
        rest
    };
    let data = only_data(&values);
    assert(values_view(data@).len() == data@.len());
    assert(values_view(values@).len() == values@.len());
    if data.len() == 1 {
        Ok(data[0].clone())
    } else if values.len() == 0 {
        Err(MagError::Unresolved(name.to_owned()))
    } else if values.len() == 1 {
        Ok(values[0].clone())
    } else {
        let texts = show_types_of(&values);
        Err(
            MagError::Type(
                cat4("ambiguous overload ", name, "; candidates: ", &join(&texts, ", ")),
            ),
        )
    }
}

fn without_types(values: &Vec<Value>) -> (r: Vec<Value>)
    ensures
        values_view(r@) == non_types(values_view(values@)),
{
    let ghost model = values_view(values@);
    let ghost keep = |v: SValue| !(v is Type);
    let mut r: Vec<Value> = Vec::new();
    let mut i: usize = 0;
    assert(model.take(0).filter(keep) =~= Seq::empty());
    assert(values_view(r@) =~= Seq::empty());
    while i < values.len()
        invariant
            i <= values.len(),
            model == values_view(values@),
            keep == (|v: SValue| !(v is Type)),
            values_view(r@) == model.take(i as int).filter(keep),
        decreases values.len() - i,
    {
        let ghost before = values_view(r@);
        proof {
            filter_step(model, keep, i as int);
            assert(model[i as int] == values@[i as int]@);
        }
        match &values[i] {
            Value::Type(_) => {},
            v => {
                let value = v.clone();
                r.push(value);
                assert(values_view(r@) =~= before.push(value@));
            },
        }
        i = i + 1;
    }
    assert(model.take(values.len() as int) =~= model);
    r
}

fn only_data(values: &Vec<Value>) -> (r: Vec<Value>)
    ensures
        values_view(r@) == data_values(values_view(values@)),
{
    let ghost model = values_view(values@);
    let ghost keep = |v: SValue| is_data(v);
    let mut r: Vec<Value> = Vec::new();
    let mut i: usize = 0;
    assert(model.take(0).filter(keep) =~= Seq::empty());
    assert(values_view(r@) =~= Seq::empty());
    while i < values.len()
        invariant
            i <= values.len(),
            model == values_view(values@),
            keep == (|v: SValue| is_data(v)),
            values_view(r@) == model.take(i as int).filter(keep),
        decreases values.len() - i,
    {
        let ghost before = values_view(r@);
        proof {
            filter_step(model, keep, i as int);
            assert(model[i as int] == values@[i as int]@);
        }
        match &values[i] {
            Value::Fn(_) => {},
            Value::BuiltinFn(_) => {},
            v => {
                let value = v.clone();
                r.push(value);
                assert(values_view(r@) =~= before.push(value@));
            },
        }
        i = i + 1;
    }
    assert(model.take(values.len() as int) =~= model);
    r
}

fn show_types_of(values: &Vec<Value>) -> (r: Vec<String>)
    ensures
        strings(r@) == type_texts_of(values_view(values@)),
{
    let ghost model = values_view(values@);
    let mut r: Vec<String> = Vec::new();
    let mut i: usize = 0;
    assert(model.take(0) =~= Seq::empty());
    assert(strings(r@) =~= Seq::empty());
    while i < values.len()
        invariant
            i <= values.len(),
            model == values_view(values@),
            strings(r@) == type_texts_of(model.take(i as int)),
        decreases values.len() - i,
    {
        let ghost before = strings(r@);
        proof {
            assert(model.take(i + 1).drop_last() =~= model.take(i as int));
            assert(model.take(i + 1).last() == values@[i as int]@);
        }
        match value_type(&values[i]) {
            Some(t) => {
                let text = t.show();
                r.push(text);
                assert(strings(r@) =~= before.push(text@));
            },
            None => {},
        }
        i = i + 1;
    }
    assert(model.take(values.len() as int) =~= model);
    r
}

} // verus!
