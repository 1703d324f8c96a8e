//! The state of a compilation while it evaluates.

use vstd::prelude::*;

use crate::ast::{value_fields_view, values_view, BindingId, FrameId, SFn, SValue, Value};
use crate::bindings::{Bindings, SBindings};
use crate::env::{Env, SEnv};
use crate::error::{MagError, SError};
use crate::frames::{after, next};
use crate::fuel::Budget;
use crate::limits::CompilerLimits;
use crate::memo::{memos_view, MemoCall, SMemo};
use crate::modules::{fresh, Modules, SModules};
use crate::text::{cat2, decimal, join, joined, show_u64, strings};
use crate::type_rules::unit_result;

verus! {

broadcast use vstd::seq_lib::group_seq_properties;

/// One entry of the stack of bindings that are being initialized or called.
pub struct Forcing {
    pub frame: FrameId,
    pub id: BindingId,
    pub name: String,
    pub initializing: bool,
}

/// The model of a [`Forcing`].
#[verifier::ext_equal]
pub struct SForcing {
    pub frame: FrameId,
    pub id: BindingId,
    pub name: Seq<char>,
    pub initializing: bool,
}

impl View for Forcing {
    type V = SForcing;

    open spec fn view(&self) -> SForcing {
        SForcing {
            frame: self.frame,
            id: self.id,
            name: self.name@,
            initializing: self.initializing,
        }
    }
}

pub open spec fn stack_view(items: Seq<Forcing>) -> Seq<SForcing> {
    Seq::new(items.len(), |i: int| items[i]@)
}

/// Something outside that an evaluation asks for and that was not supplied.
pub enum Wanted {
    Text(String),
    Data(String),
    Module(String),
}

/// The model of a [`Wanted`].
#[verifier::ext_equal]
pub enum SWanted {
    Text(Seq<char>),
    Data(Seq<char>),
    Module(Seq<char>),
}

impl View for Wanted {
    type V = SWanted;

    open spec fn view(&self) -> SWanted {
        match self {
            Wanted::Text(p) => SWanted::Text(p@),
            Wanted::Data(p) => SWanted::Data(p@),
            Wanted::Module(p) => SWanted::Module(p@),
        }
    }
}

pub open spec fn wanted_view(w: Option<Wanted>) -> Option<SWanted> {
    match w {
        Some(w) => Some(w@),
        None => None,
    }
}

pub struct World {
    pub env: Env,
    pub table: Bindings,
    pub budget: Budget,
    pub stack: Vec<Forcing>,
    pub memos: Vec<MemoCall>,
    /// Whether there was ever no room to remember one more call.
    pub forgot: bool,
    pub limits: CompilerLimits,
    pub next_function: u64,
    pub modules: Modules,
    pub wanted: Option<Wanted>,
}

/// The model of a [`World`].
#[verifier::ext_equal]
pub struct SWorld {
    pub env: SEnv,
    pub table: SBindings,
    pub budget: Budget,
    pub stack: Seq<SForcing>,
    pub memos: Seq<SMemo>,
    pub forgot: bool,
    pub limits: CompilerLimits,
    pub next_function: u64,
    pub modules: SModules,
    pub wanted: Option<SWanted>,
}

impl View for World {
    type V = SWorld;

    open spec fn view(&self) -> SWorld {
        SWorld {
            env: self.env@,
            table: self.table@,
            budget: self.budget,
            stack: stack_view(self.stack@),
            memos: memos_view(self.memos@),
            forgot: self.forgot,
            limits: self.limits,
            next_function: self.next_function,
            modules: self.modules@,
            wanted: wanted_view(self.wanted),
        }
    }
}

/// The name of a binding, or its number where it has none.
pub open spec fn binding_name(table: SBindings, id: BindingId) -> Seq<char> {
    if table.entries.dom().contains(id.0) {
        table.entries[id.0].name
    } else {
        "binding#"@ + decimal(id.0 as nat)
    }
}

/// Where a binding is being initialized, from `i` on.
pub open spec fn initializing_at(
    stack: Seq<SForcing>,
    frame: FrameId,
    id: BindingId,
    i: nat,
) -> Option<nat>
    decreases stack.len() - i,
{
    if i >= stack.len() {
        None
    } else if stack[i as int].frame == frame && stack[i as int].id == id
        && stack[i as int].initializing {
        Some(i)
    } else {
        initializing_at(stack, frame, id, i + 1)
    }
}

pub open spec fn stack_names(stack: Seq<SForcing>) -> Seq<Seq<char>> {
    Seq::new(stack.len(), |i: int| stack[i].name)
}

impl SWorld {
    pub open spec fn stacked(
        self,
        frame: FrameId,
        id: BindingId,
        initializing: bool,
    ) -> SWorld {
        SWorld {
            stack: self.stack.push(
                SForcing { frame, id, name: binding_name(self.table, id), initializing },
            ),
            ..self
        }
    }

    pub open spec fn unstacked(self) -> SWorld {
        SWorld {
            stack: if self.stack.len() == 0 {
                self.stack
            } else {
                self.stack.drop_last()
            },
            ..self
        }
    }

    /// The world once a binding is being initialized, or the circle that this would close.
    #[verifier::opaque]
    pub open spec fn forcing(self, frame: FrameId, id: BindingId) -> Result<SWorld, SError> {
        match initializing_at(self.stack, frame, id, 0) {
            Some(at) => Err(
                SError::Eval(
                    "binding initialization cycle: "@ + joined(
                        stack_names(self.stack.skip(at as int)).push(
                            binding_name(self.table, id),
                        ),
                        " -> "@,
                    ),
                ),
            ),
            None => Ok(self.stacked(frame, id, true)),
        }
    }

    pub open spec fn with_env(self, env: SEnv) -> SWorld {
        SWorld { env, ..self }
    }

    pub open spec fn with_budget(self, budget: Budget) -> SWorld {
        SWorld { budget, ..self }
    }
}

impl World {
    fn binding_name(&self, id: BindingId) -> (r: String)
        ensures
            r@ == binding_name(self@.table, id),
    {
        match self.table.binding_metadata(id) {
            Some(m) => m.name,
            None => cat2("binding#", &show_u64(id.0)),
        }
    }

    pub fn push_stack(&mut self, frame: FrameId, id: BindingId, initializing: bool)
        ensures
            final(self)@ == old(self)@.stacked(frame, id, initializing),
    {
        let ghost before = self@;
        let name = self.binding_name(id);
        let entry = Forcing { frame, id, name, initializing };
        self.stack.push(entry);
        assert(self@.stack =~= before.stack.push(entry@));
        assert(self@ =~= before.stacked(frame, id, initializing));
    }

    pub fn pop_stack(&mut self)
        ensures
            final(self)@ == old(self)@.unstacked(),
    {
        let ghost before = self@;
        if self.stack.len() > 0 {
            self.stack.pop();
            assert(self@.stack =~= before.stack.drop_last());
        }
        assert(self@ =~= before.unstacked());
    }

    /// Enters the initialization of a binding.
    pub fn enter_force(&mut self, frame: FrameId, id: BindingId) -> (r: Result<(), MagError>)
        ensures
            match old(self)@.forcing(frame, id) {
                Ok(w) => r is Ok && final(self)@ == w,
                Err(e) => unit_result(r) == Err::<(), SError>(e) && final(self)@ == old(self)@,
            },
    {
        proof {
            reveal(SWorld::forcing);
        }
        let ghost all = self@.stack;
        let mut i: usize = 0;
        while i < self.stack.len()
            invariant
                i <= self.stack.len(),
                self@ == old(self)@,
                all == self@.stack,
                initializing_at(all, frame, id, 0) == initializing_at(all, frame, id, i as nat),
            decreases self.stack.len() - i,
        {
            proof {
                reveal(SWorld::forcing);
                assert(all[i as int] == self.stack@[i as int]@);
            }
            if self.stack[i].frame.0 == frame.0 && self.stack[i].id.0 == id.0
                && self.stack[i].initializing {
                let mut cycle: Vec<String> = Vec::new();
                let mut k: usize = i;
                while k < self.stack.len()
                    invariant
                        i <= k <= self.stack.len(),
                        all == self@.stack,
                        cycle.len() == k - i,
                        forall|j: int|
                            0 <= j < k - i ==> (#[trigger] cycle@[j])@ == all[j + i].name,
                    decreases self.stack.len() - k,
                {
                    assert(all[k as int] == self.stack@[k as int]@);
                    cycle.push(self.stack[k].name.clone());
                    k = k + 1;
                }
                cycle.push(self.binding_name(id));
                assert(strings(cycle@) =~= stack_names(all.skip(i as int)).push(
                    binding_name(self@.table, id),
                ));
                return Err(
                    MagError::Eval(cat2("binding initialization cycle: ", &join(&cycle, " -> "))),
                );
            }
            i = i + 1;
        }
        self.push_stack(frame, id, true);
        Ok(())
    }

    /// The identity of a new function.
    pub fn take_function_identity(&mut self) -> (r: u64)
        ensures
            r == old(self)@.next_function,
            final(self)@ == (SWorld { next_function: after(old(self)@.next_function), ..old(self)@ }),
    {
        let id = self.next_function;
        self.next_function = next(id);
        id
    }
}

/// The values that loaded modules hold.
pub open spec fn module_values(
    loaded: Seq<(Seq<char>, Seq<(Seq<char>, SValue)>)>,
) -> Seq<SValue>
    decreases loaded.len(),
{
    if loaded.len() == 0 {
        Seq::empty()
    } else {
        module_values(loaded.drop_last()) + field_values(loaded.last().1)
    }
}

pub open spec fn field_values(items: Seq<(Seq<char>, SValue)>) -> Seq<SValue> {
    Seq::new(items.len(), |i: int| items[i].1)
}

/// The values that remembered calls hold.
pub open spec fn memo_values(memos: Seq<SMemo>) -> Seq<SValue>
    decreases memos.len(),
{
    if memos.len() == 0 {
        Seq::empty()
    } else {
        memo_values(memos.drop_last()).push(SValue::Fn(memos.last().function))
            + memos.last().args.push(memos.last().result)
    }
}

/// The world without the frames that nothing can reach any more: no scope, none of the given
/// values, no loaded module and no remembered call.
#[verifier::opaque]
pub open spec fn swept(w: SWorld, extra: Seq<SValue>) -> SWorld {
    w.with_env(
        crate::collection::collected(
            w.env,
            extra + module_values(w.modules.loaded) + memo_values(w.memos),
        ),
    )
}

fn add_definitions(items: &Vec<(String, Value)>, out: &mut Vec<Value>)
    ensures
        values_view(final(out)@) == values_view(old(out)@) + field_values(
            value_fields_view(items@),
        ),
{
    let ghost all = value_fields_view(items@);
    let ghost before = values_view(out@);
    let ghost more = field_values(all);
    let mut i: usize = 0;
    proof {
        assert(all.len() == items@.len());
        assert(before + more.take(0) =~= before);
    }
    while i < items.len()
        invariant
            i <= items.len(),
            all == value_fields_view(items@),
            all.len() == items@.len(),
            more == field_values(all),
            values_view(out@) == before + more.take(i as int),
        decreases items.len() - i,
    {
        let ghost so_far = values_view(out@);
        assert(all[i as int] == (items@[i as int].0@, items@[i as int].1@));
        let v = items[i].1.clone();
        out.push(v);
        proof {
            assert(values_view(out@) =~= so_far.push(v@));
            assert(more.take(i + 1) =~= more.take(i as int).push(v@));
            assert(before + more.take(i as int).push(v@) =~= so_far.push(v@));
        }
        i = i + 1;
    }
    assert(more.take(items.len() as int) =~= more);
}

impl World {
    fn add_module_values(&self, out: &mut Vec<Value>)
        ensures
            values_view(final(out)@) == values_view(old(out)@) + module_values(
                self@.modules.loaded,
            ),
    {
        let ghost loaded = self@.modules.loaded;
        let ghost before = values_view(out@);
        let mut i: usize = 0;
        proof {
            assert(loaded.take(0) =~= Seq::empty());
            assert(before + module_values(loaded.take(0)) =~= before);
        }
        while i < self.modules.loaded.len()
            invariant
                i <= self.modules.loaded.len(),
                loaded == self@.modules.loaded,
                values_view(out@) == before + module_values(loaded.take(i as int)),
            decreases self.modules.loaded.len() - i,
        {
            let ghost so_far = values_view(out@);
            proof {
                assert(loaded.take(i + 1).drop_last() =~= loaded.take(i as int));
                assert(loaded.take(i + 1).last().1 == value_fields_view(
                    self.modules.loaded@[i as int].1@,
                ));
            }
            add_definitions(&self.modules.loaded[i].1, out);
            i = i + 1;
            assert(values_view(out@) =~= before + module_values(loaded.take(i as int)));
        }
        assert(loaded.take(self.modules.loaded.len() as int) =~= loaded);
    }

    fn add_memo_values(&self, out: &mut Vec<Value>)
        ensures
            values_view(final(out)@) == values_view(old(out)@) + memo_values(self@.memos),
    {
        let ghost memos = self@.memos;
        let ghost before = values_view(out@);
        let mut i: usize = 0;
        proof {
            assert(memos.take(0) =~= Seq::empty());
            assert(before + memo_values(memos.take(0)) =~= before);
        }
        while i < self.memos.len()
            invariant
                i <= self.memos.len(),
                memos == self@.memos,
                values_view(out@) == before + memo_values(memos.take(i as int)),
            decreases self.memos.len() - i,
        {
            let ghost so_far = values_view(out@);
            let ghost m = memos[i as int];
            proof {
                assert(memos.take(i + 1).drop_last() =~= memos.take(i as int));
                assert(memos.take(i + 1).last() == m);
                assert(m == self.memos@[i as int]@);
            }
            let function = Value::Fn(crate::ast::share(&self.memos[i].function));
            out.push(function);
            assert(values_view(out@) =~= so_far.push(SValue::Fn(m.function)));
            crate::operations::append_values(out, &self.memos[i].args);
            let ghost middle = values_view(out@);
            let result = self.memos[i].result.clone();
            out.push(result);
            assert(values_view(out@) =~= middle.push(m.result));
            i = i + 1;
            assert(values_view(out@) =~= before + memo_values(memos.take(i as int)));
        }
        assert(memos.take(self.memos.len() as int) =~= memos);
    }

    /// Drops the frames that nothing can reach any more.
    pub fn sweep(&mut self, extra: Vec<Value>)
        ensures
            final(self)@ == swept(old(self)@, values_view(extra@)),
    {
        proof {
            reveal(swept);
        }
        let ghost before = self@;
        let mut roots = extra;
        let ghost given = values_view(roots@);
        self.add_module_values(&mut roots);
        self.add_memo_values(&mut roots);
        assert(values_view(roots@) == given + module_values(before.modules.loaded) + memo_values(
            before.memos,
        ));
        self.env.collect_frames(&roots);
        assert(self@ =~= swept(before, given));
    }
}

/// A world in which nothing has been evaluated yet.
#[verifier::opaque]
pub open spec fn new_world(limits: CompilerLimits) -> SWorld {
    let (env, table) = fresh(
        crate::modules::empty_env(0),
        SBindings { next: 0, entries: Map::empty(), obligations: Set::empty() },
        "main"@,
    );
    SWorld {
        env,
        table,
        budget: Budget { steps: None, calls: 0, exprs: 0, call_limit: 64, expr_limit: 128 },
        stack: Seq::empty(),
        memos: Seq::empty(),
        forgot: false,
        limits,
        next_function: 0,
        modules: SModules { loaded: Seq::empty(), loading: Seq::empty() },
        wanted: None,
    }
}

impl World {
    pub fn new(limits: CompilerLimits) -> (r: World)
        ensures
            r@ == new_world(limits),
    {
        proof {
            reveal(new_world);
        }
        let mut table = Bindings::new();
        let env = Env::new(&mut table);
        let r = World {
            env,
            table,
            budget: Budget::new(),
            stack: Vec::new(),
            memos: Vec::new(),
            forgot: false,
            limits,
            next_function: 0,
            modules: Modules::new(),
            wanted: None,
        };
        assert(r@ =~= new_world(limits));
        r
    }
}

} // verus!
