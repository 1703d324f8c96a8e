//! What an evaluation may still spend: steps, nested calls and nested expressions.

use vstd::prelude::*;

use crate::error::{MagError, SError};
use crate::limits::CompilerLimits;
use crate::type_rules::unit_result;

verus! {

/// The state of the counters. Without an installed budget there are no steps to spend.
#[derive(Debug, Clone, Copy, PartialEq, Eq)]
pub struct Budget {
    pub steps: Option<u64>,
    pub calls: u16,
    pub exprs: u16,
    pub call_limit: u16,
    pub expr_limit: u16,
}

/// What an installation replaced.
pub struct Guard {
    pub previous: Option<u64>,
    pub previous_call_limit: u16,
    pub previous_expr_limit: u16,
    pub active: bool,
}

/// Stands for one call that was entered.
pub struct CallGuard {}

/// Stands for one expression that was entered.
pub struct ExprGuard {}

impl Budget {
    pub open spec fn installed(self, limits: CompilerLimits) -> Budget {
        Budget {
            steps: Some(limits.evaluation_steps),
            call_limit: limits.call_depth,
            expr_limit: limits.expression_depth,
            ..self
        }
    }

    pub open spec fn restored(self, guard: Guard) -> Budget {
        if guard.active {
            Budget {
                steps: guard.previous,
                call_limit: guard.previous_call_limit,
                expr_limit: guard.previous_expr_limit,
                ..self
            }
        } else {
            self
        }
    }

    /// Spends one step.
    pub open spec fn stepped(self) -> Result<Budget, SError> {
        match self.steps {
            None => Err(SError::Budget("evaluation started without an installed budget"@)),
            Some(n) => if n == 0 {
                Err(SError::Budget("expression step limit reached"@))
            } else {
                Ok(Budget { steps: Some((n - 1) as u64), ..self })
            },
        }
    }

    pub open spec fn call_entered(self) -> Budget {
        Budget { calls: (self.calls + 1) as u16, ..self }
    }

    pub open spec fn call_left(self) -> Budget {
        Budget {
            calls: if self.calls == 0 {
                0
            } else {
                (self.calls - 1) as u16
            },
            ..self
        }
    }

    pub open spec fn expr_entered(self) -> Budget {
        Budget { exprs: (self.exprs + 1) as u16, ..self }
    }

    pub open spec fn expr_left(self) -> Budget {
        Budget {
            exprs: if self.exprs == 0 {
                0
            } else {
                (self.exprs - 1) as u16
            },
            ..self
        }
    }

    /// A budget in which nothing is installed.
    pub fn new() -> (r: Budget)
        ensures
            r == (Budget { steps: None, calls: 0, exprs: 0, call_limit: 64, expr_limit: 128 }),
    {
        Budget { steps: None, calls: 0, exprs: 0, call_limit: 64, expr_limit: 128 }
    }
}

/// Installs the limits, whatever was installed before.
pub fn install(budget: &mut Budget, limits: CompilerLimits) -> (guard: Guard)
    ensures
        *final(budget) == old(budget).installed(limits),
        guard.active,
        final(budget).restored(guard) == *old(budget),
{
    let guard = Guard {
        previous: budget.steps,
        previous_call_limit: budget.call_limit,
        previous_expr_limit: budget.expr_limit,
        active: true,
    };
    budget.steps = Some(limits.evaluation_steps);
    budget.call_limit = limits.call_depth;
    budget.expr_limit = limits.expression_depth;
    guard
}

/// Installs the limits if none are.
pub fn ensure(budget: &mut Budget, limits: CompilerLimits) -> (guard: Guard)
    ensures
        *final(budget) == if old(budget).steps is Some {
            *old(budget)
        } else {
            old(budget).installed(limits)
        },
        guard.active == (old(budget).steps is None),
        final(budget).restored(guard) == *old(budget),
{
    if budget.steps.is_some() {
        Guard {
            previous: None,
            previous_call_limit: budget.call_limit,
            previous_expr_limit: budget.expr_limit,
            active: false,
        }
    } else {
        install(budget, limits)
    }
}

/// Puts back what an installation replaced.
pub fn release(budget: &mut Budget, guard: Guard)
    ensures
        *final(budget) == old(budget).restored(guard),
{
    if guard.active {
        budget.steps = guard.previous;
        budget.call_limit = guard.previous_call_limit;
        budget.expr_limit = guard.previous_expr_limit;
    }
}

pub fn step(budget: &mut Budget) -> (r: Result<(), MagError>)
    ensures
        match old(budget).stepped() {
            Ok(b) => r is Ok && *final(budget) == b,
            Err(e) => unit_result(r) == Err::<(), SError>(e) && *final(budget) == *old(budget),
        },
{
    match budget.steps {
        Some(n) => {
            if n == 0 {
                return Err(MagError::Budget("expression step limit reached".to_owned()));
            }
            budget.steps = Some(n - 1);
            Ok(())
        },
        None => Err(
            MagError::Budget("evaluation started without an installed budget".to_owned()),
        ),
    }
}

pub fn remaining(budget: &Budget) -> (r: Option<u64>)
    ensures
        r == budget.steps,
{
    budget.steps
}

pub fn enter_call(budget: &mut Budget) -> (r: Result<CallGuard, MagError>)
    ensures
        match r {
            Ok(_) => old(budget).calls < old(budget).call_limit && *final(budget)
                == old(budget).call_entered(),
            Err(e) => old(budget).calls >= old(budget).call_limit && e@ == SError::Budget(
                "function call depth limit reached"@,
            ) && *final(budget) == *old(budget),
        },
{
    if budget.calls >= budget.call_limit {
        Err(MagError::Budget("function call depth limit reached".to_owned()))
    } else {
        budget.calls = budget.calls + 1;
        Ok(CallGuard {  })
    }
}

pub fn leave_call(budget: &mut Budget, guard: CallGuard)
    ensures
        *final(budget) == old(budget).call_left(),
{
    if budget.calls > 0 {
        budget.calls = budget.calls - 1;
    }
}

pub fn enter_expr(budget: &mut Budget) -> (r: Result<ExprGuard, MagError>)
    ensures
        match r {
            Ok(_) => old(budget).exprs < old(budget).expr_limit && *final(budget)
                == old(budget).expr_entered(),
            Err(e) => old(budget).exprs >= old(budget).expr_limit && e@ == SError::Budget(
                "expression nesting limit reached"@,
            ) && *final(budget) == *old(budget),
        },
{
    if budget.exprs >= budget.expr_limit {
        Err(MagError::Budget("expression nesting limit reached".to_owned()))
    } else {
        budget.exprs = budget.exprs + 1;
        Ok(ExprGuard {  })
    }
}

pub fn leave_expr(budget: &mut Budget, guard: ExprGuard)
    ensures
        *final(budget) == old(budget).expr_left(),
{
    if budget.exprs > 0 {
        budget.exprs = budget.exprs - 1;
    }
}

/// The budget after so many steps, as far as they are granted.
pub open spec fn after_steps(budget: Budget, n: nat) -> Result<Budget, SError>
    decreases n,
{
    if n == 0 {
        Ok(budget)
    } else {
        match after_steps(budget, (n - 1) as nat) {
            Ok(b) => b.stepped(),
            Err(e) => Err(e),
        }
    }
}

/// A budget of `limit` steps grants exactly `limit` steps: each of them, and none after.
pub proof fn grants_exactly(budget: Budget, limits: CompilerLimits, n: nat)
    ensures
        n <= limits.evaluation_steps ==> after_steps(budget.installed(limits), n) == Ok::<
            Budget,
            SError,
        >(
            Budget {
                steps: Some((limits.evaluation_steps - n) as u64),
                ..budget.installed(limits)
            },
        ),
        n > limits.evaluation_steps ==> after_steps(budget.installed(limits), n) == Err::<
            Budget,
            SError,
        >(SError::Budget("expression step limit reached"@)),
    decreases n,
{
    if n > 0 {
        grants_exactly(budget, limits, (n - 1) as nat);
    }
}

/// Leaving what was entered gives back the same counters.
pub proof fn leaving_undoes_entering(budget: Budget)
    ensures
        budget.calls < budget.call_limit ==> budget.call_entered().call_left() == budget,
        budget.exprs < budget.expr_limit ==> budget.expr_entered().expr_left() == budget,
{
}

} // verus!
