//! Expressions that are partly evaluated: where the value of an expression
//! is, or what is still to be done to have it.

use vstd::prelude::*;
use crate::ast::{expression_size, Expression};
use crate::opcode::{ConstantIndex8, RegisterIndex, UpValueIndex};
use crate::operators::ShortCircuitBinOp;
use crate::value::Value;

verus! {

/// What a name refers to.
#[derive(Debug)]
pub enum VariableDescriptor {
    Local(RegisterIndex),
    UpValue(UpValueIndex),
    Global(Vec<u8>),
}

#[derive(Debug)]
pub enum ExprDescriptor<'a> {
    /// The value is in a register. A temporary register is freed when the
    /// descriptor is discharged; the register of a local is not.
    Register { register: RegisterIndex, is_temporary: bool },
    /// The value is an upvalue of the current function.
    UpValue(UpValueIndex),
    /// The value is known.
    Value(Value),
    /// The value is the first result of a call that has not been made yet.
    FunctionCall { func: Box<ExprDescriptor<'a>>, args: Vec<ExprDescriptor<'a>> },
    /// The value is that of `and` or `or`, whose right operand has not been
    /// compiled yet, since it is evaluated only if the left one does not
    /// decide.
    ShortCircuitBinOp {
        left: Box<ExprDescriptor<'a>>,
        op: ShortCircuitBinOp,
        right: &'a Expression,
    },
}

/// A register, or a constant whose index fits eight bits.
#[derive(Clone, Copy, Debug, PartialEq, Eq, Structural)]
pub enum RegisterOrConstant {
    Register(RegisterIndex),
    Constant(ConstantIndex8),
}

/// Where the value of an expression is to be put.
#[derive(Clone, Copy, Debug, PartialEq, Eq, Structural)]
pub enum ExprDestination {
    /// In the given register, which is allocated already.
    Register(RegisterIndex),
    /// In a newly allocated register, anywhere.
    AllocateNew,
    /// In a newly allocated register at the top of the stack.
    PushNew,
    /// Nowhere: the expression is evaluated for its effects.
    Nowhere,
}

impl<'a> ExprDescriptor<'a> {
    /// Whether every register and upvalue that the descriptor names is one
    /// that a function with the given sizes has.
    pub open spec fn fits(self, stack_size: int, upvalues: int) -> bool
        decreases self,
    {
        match self {
            ExprDescriptor::Register { register, .. } => register.0 < stack_size,
            ExprDescriptor::UpValue(index) => index.0 < upvalues,
            ExprDescriptor::Value(_) => true,
            ExprDescriptor::FunctionCall { func, args } => {
                &&& func.fits(stack_size, upvalues)
                &&& forall|i: int|
                    0 <= i < args@.len() ==> (#[trigger] args@[i]).fits(stack_size, upvalues)
            },
            ExprDescriptor::ShortCircuitBinOp { left, .. } => left.fits(stack_size, upvalues),
        }
    }

    /// Whether the descriptor holds the register `r` as a temporary: the
    /// register is freed when the descriptor is discharged.
    pub open spec fn holds_temporary(self, r: int) -> bool
        decreases self,
    {
        match self {
            ExprDescriptor::Register { register, is_temporary } => is_temporary && register.0 == r,
            ExprDescriptor::FunctionCall { func, args } => func.holds_temporary(r) || exists|
                i: int,
            | 0 <= i < args@.len() && (#[trigger] args@[i]).holds_temporary(r),
            ExprDescriptor::ShortCircuitBinOp { left, .. } => left.holds_temporary(r),
            _ => false,
        }
    }

    /// The registers that the descriptor holds as temporaries.
    pub open spec fn temporaries(self) -> Set<int> {
        Set::new(|r: int| self.holds_temporary(r))
    }

    /// Whether the descriptor holds no register twice.
    pub open spec fn exclusive(self) -> bool
        decreases self,
    {
        match self {
            ExprDescriptor::FunctionCall { func, args } => {
                &&& func.exclusive()
                &&& exclusive_all(args@)
                &&& forall|i: int, r: int|
                    0 <= i < args@.len() && #[trigger] args@[i].holds_temporary(r)
                        ==> !func.holds_temporary(r)
            },
            ExprDescriptor::ShortCircuitBinOp { left, .. } => left.exclusive(),
            _ => true,
        }
    }

    /// A bound on the work that is left to have the value: the measure by
    /// which the code generator's recursion ends.
    pub open spec fn weight(self) -> nat
        decreases self, 0nat,
    {
        match self {
            ExprDescriptor::FunctionCall { func, args } => 2 + func.weight() + weights(
                args@,
                args@.len(),
            ),
            ExprDescriptor::ShortCircuitBinOp { left, right, .. } => 1 + left.weight()
                + expression_size(*right),
            _ => 1,
        }
    }

    pub proof fn lemma_weight_positive(self)
        ensures
            self.weight() >= 1,
    {
    }

    /// A descriptor that fits a function fits every larger one.
    pub proof fn lemma_fits_larger(
        self,
        stack_size: int,
        upvalues: int,
        larger_stack: int,
        more_upvalues: int,
    )
        requires
            self.fits(stack_size, upvalues),
            stack_size <= larger_stack,
            upvalues <= more_upvalues,
        ensures
            self.fits(larger_stack, more_upvalues),
        decreases self,
    {
        match self {
            ExprDescriptor::FunctionCall { func, args } => {
                func.lemma_fits_larger(stack_size, upvalues, larger_stack, more_upvalues);
                assert forall|i: int| 0 <= i < args@.len() implies (#[trigger] args@[i]).fits(
                    larger_stack,
                    more_upvalues,
                ) by {
                    args@[i].lemma_fits_larger(stack_size, upvalues, larger_stack, more_upvalues);
                }
            },
            ExprDescriptor::ShortCircuitBinOp { left, .. } => {
                left.lemma_fits_larger(stack_size, upvalues, larger_stack, more_upvalues);
            },
            _ => {},
        }
    }
}

/// The weight of the first `n` descriptors.
pub open spec fn weights(descriptors: Seq<ExprDescriptor<'_>>, n: nat) -> nat
    decreases descriptors, n,
{
    if n == 0 || n > descriptors.len() {
        0
    } else {
        weights(descriptors, (n - 1) as nat) + descriptors[n - 1].weight()
    }
}

/// Whether none of the descriptors holds a register twice, and no two of
/// them hold the same register.
pub open spec fn exclusive_all(descriptors: Seq<ExprDescriptor<'_>>) -> bool
    decreases descriptors,
{
    &&& forall|i: int| 0 <= i < descriptors.len() ==> (#[trigger] descriptors[i]).exclusive()
    &&& forall|i: int, j: int, r: int|
        0 <= i < j < descriptors.len() && #[trigger] descriptors[i].holds_temporary(r)
            ==> !#[trigger] descriptors[j].holds_temporary(r)
}

/// Whether no register is held as a temporary by both descriptors.
pub open spec fn disjoint(a: ExprDescriptor<'_>, b: ExprDescriptor<'_>) -> bool {
    forall|r: int| #[trigger] a.holds_temporary(r) ==> !b.holds_temporary(r)
}

/// Whether no register is held as a temporary by the descriptor and by one
/// of the descriptors of the sequence.
pub open spec fn disjoint_from_all(a: ExprDescriptor<'_>, others: Seq<ExprDescriptor<'_>>) -> bool {
    forall|i: int, r: int|
        0 <= i < others.len() && #[trigger] others[i].holds_temporary(r) ==> !a.holds_temporary(r)
}

/// The registers that the descriptors hold as temporaries.
pub open spec fn temporaries_of(descriptors: Seq<ExprDescriptor<'_>>) -> Set<int> {
    Set::new(
        |r: int| exists|i: int| 0 <= i < descriptors.len()
            && (#[trigger] descriptors[i]).holds_temporary(r),
    )
}

/// Each of the descriptors fits a function with the given sizes.
pub open spec fn all_fit(
    descriptors: Seq<ExprDescriptor<'_>>,
    stack_size: int,
    upvalues: int,
) -> bool {
    forall|i: int| 0 <= i < descriptors.len()
        ==> (#[trigger] descriptors[i]).fits(stack_size, upvalues)
}

pub proof fn lemma_weights_monotone(descriptors: Seq<ExprDescriptor<'_>>, i: nat, n: nat)
    requires
        i <= n <= descriptors.len(),
    ensures
        weights(descriptors, i) <= weights(descriptors, n),
    decreases n,
{
    if i < n {
        lemma_weights_monotone(descriptors, i, (n - 1) as nat);
    }
}

/// The weight of the first descriptors depends on these alone.
pub proof fn lemma_weights_prefix(
    a: Seq<ExprDescriptor<'_>>,
    b: Seq<ExprDescriptor<'_>>,
    n: nat,
)
    requires
        n <= a.len(),
        n <= b.len(),
        forall|i: int| 0 <= i < n ==> a[i] == b[i],
    ensures
        weights(a, n) == weights(b, n),
    decreases n,
{
    if n > 0 {
        lemma_weights_prefix(a, b, (n - 1) as nat);
    }
}

/// No descriptor weighs more than the sequence it is in.
pub proof fn lemma_weights_element(descriptors: Seq<ExprDescriptor<'_>>, i: int)
    requires
        0 <= i < descriptors.len(),
    ensures
        descriptors[i].weight() <= weights(descriptors, descriptors.len()),
{
    lemma_weights_monotone(descriptors, (i + 1) as nat, descriptors.len());
}

pub proof fn lemma_weights_push(descriptors: Seq<ExprDescriptor<'_>>, last: ExprDescriptor<'_>)
    ensures
        weights(descriptors.push(last), descriptors.len() + 1) == weights(
            descriptors,
            descriptors.len(),
        ) + last.weight(),
{
    lemma_weights_prefix(descriptors.push(last), descriptors, descriptors.len());
}

} // verus!
