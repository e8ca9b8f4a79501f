//! The expression engine: turning expressions into descriptors, and
//! descriptors into registers, constants and instructions.

use vstd::prelude::*;
use crate::ast::{expression_size, Expression};
use crate::cast::{u16_to_u8, usize_to_u8};
use crate::descriptor::{
    disjoint_from_all, lemma_weights_element, temporaries_of, weights, ExprDescriptor,
    ExprDestination, RegisterOrConstant,
};
use crate::error::{CompileError, CompilerLimit, RegisterFault};
use crate::opcode::{BinOpArgs, ConstantIndex8, OpCode, RegisterIndex, VarCount};
use crate::operators::ShortCircuitBinOp;
use crate::scope::{closed_descriptor, closed_descriptors, closed_expression};
use crate::state::{Compiler, CompilerFunction};
use crate::walk::local_operand;
use crate::value::Value;

use crate::model::{
    agrees, continues, follows, lemma_operand_views, operand_view, operands, with_operand,
};
verus! {

/// The result of a step that places a value, told as that of one that may
/// place none.
pub open spec fn as_placed(r: Result<RegisterIndex, CompileError>) -> Result<
    Option<RegisterIndex>,
    CompileError,
> {
    match r {
        Ok(register) => Ok(Some(register)),
        Err(e) => Err(e),
    }
}

/// The error with which a value cannot be copied to the top of the stack:
/// the stack is full, or the register below the top is free.
pub open spec fn top_fault(before: Compiler) -> Option<CompileError> {
    let allocator = before.functions.top.register_allocator;
    if allocator.stack_top >= 256 {
        Some(CompileError::Limit(CompilerLimit::Registers))
    } else if allocator.gap_below_top() {
        Some(CompileError::Register(RegisterFault::PushBelowGap))
    } else {
        None
    }
}

/// Whether `after` is `before` once the function in the register `func` has
/// been called without arguments: it is copied to the top of the stack and
/// called there, and the register at the top is free again.
pub open spec fn plain_call_made(
    before: Compiler,
    func: RegisterIndex,
    results: VarCount,
    after: Compiler,
) -> bool {
    let allocator = before.functions.top.register_allocator;
    let top = RegisterIndex(allocator.stack_top as u8);
    &&& after.functions.lower == before.functions.lower
    &&& before.functions.top.same_but_registers_and_code(after.functions.top)
    &&& allocator.used_top(after.functions.top.register_allocator)
    &&& after.functions.top.opcodes@ == (if func != top {
        before.functions.top.opcodes@.push(OpCode::Move { dest: top, source: func })
    } else {
        before.functions.top.opcodes@
    }).push(OpCode::Call { func: top, args: VarCount(1), returns: results })
}

/// What calling the function in the register `func` without arguments comes
/// to: the register of the call, or the error with which the function
/// cannot be copied to the top of the stack.
pub open spec fn called_plainly(
    before: Compiler,
    func: RegisterIndex,
    results: VarCount,
    r: Result<RegisterIndex, CompileError>,
    after: Compiler,
) -> bool {
    match top_fault(before) {
        Some(e) => r == Err::<RegisterIndex, _>(e),
        None => {
            &&& r == Ok::<_, CompileError>(
                RegisterIndex(before.functions.top.register_allocator.stack_top as u8),
            )
            &&& plain_call_made(before, func, results, after)
        },
    }
}

/// The code of `and` or `or` on the values of two registers that stay as
/// they are. The left operand is tested, and copied to the destination if
/// it decides; the jump after the test leads past the copy of the right
/// operand.
pub open spec fn short_circuit_code(
    op: ShortCircuitBinOp,
    left: RegisterIndex,
    right: RegisterIndex,
    dest: Option<RegisterIndex>,
) -> Seq<OpCode> {
    let is_true = op == ShortCircuitBinOp::And;
    match dest {
        Some(register) => {
            let test = if left == register {
                OpCode::Test { value: left, is_true }
            } else {
                OpCode::TestSet { dest: register, value: left, is_true }
            };
            if right != register {
                seq![
                    test,
                    OpCode::Jump { offset: 1 },
                    OpCode::Move { dest: register, source: right },
                ]
            } else {
                seq![test, OpCode::Jump { offset: 0 }]
            }
        },
        None => seq![OpCode::Test { value: left, is_true }, OpCode::Jump { offset: 0 }],
    }
}

impl BinOpArgs {
    /// Whether the operands are registers and constants that a function with
    /// the given sizes has.
    pub open spec fn fits(self, stack_size: int, constants: int) -> bool {
        self.highest_register() < stack_size && self.constants_needed() <= constants
    }
}

impl Compiler {
    /// What owning a call that has not been made yet comes to.
    pub proof fn lemma_owns_call(self, expr: ExprDescriptor<'_>)
        requires
            self.owns(expr),
            expr is FunctionCall,
        ensures
            self.owns(*expr->func),
            self.owns_all(expr->args@),
            disjoint_from_all(*expr->func, expr->args@),
            expr.temporaries() =~= expr->func.temporaries().union(temporaries_of(expr->args@)),
    {
        let func = *expr->func;
        let args = expr->args@;
        assert forall|r: int| #[trigger] func.holds_temporary(r) implies self.allocated(r)
            && !crate::state::local_register(self.functions.top.locals@, r) by {
            assert(expr.holds_temporary(r));
        }
        assert forall|i: int, r: int|
            0 <= i < args.len() && #[trigger] args[i].holds_temporary(r) implies self.allocated(r)
            && !crate::state::local_register(self.functions.top.locals@, r) by {
            assert(expr.holds_temporary(r));
        }
    }

    /// Consumes a descriptor and places the value it stands for in the
    /// destination. The register that now holds the value is returned,
    /// unless the destination is nowhere; it is allocated, and is to be
    /// freed or made over to a local by the caller.
    pub fn expr_discharge<'a>(&mut self, expr: ExprDescriptor<'a>, dest: ExprDestination) -> (r:
        Result<Option<RegisterIndex>, CompileError>)
        requires
            old(self).owns(expr),
            dest matches ExprDestination::Register(d) ==> !expr.holds_temporary(d.0 as int),
            old(self).wf(),
            old(self).holds(expr),
            old(self).admits_destination(dest),
        ensures
            forall|scope: Set<Seq<u8>>|
                #[trigger] closed_descriptor(expr, scope) && old(self).covers(scope)
                    ==> (r.is_ok() ==> old(self).keeps_outermost(*final(self))),
            r matches Ok(placed_in) ==> {
                &&& old(self).steps_to(*final(self))
                &&& old(self).places(expr.temporaries(), dest, placed_in, *final(self))
                &&& final(self).functions.top.locals == old(self).functions.top.locals
                &&& placed_in.is_some() == (dest != ExprDestination::Nowhere)
                &&& dest matches ExprDestination::Register(d) ==> placed_in == Some(d)
                &&& placed_in matches Some(register)
                    ==> register.0 < final(self).functions.top.stack_size()
            },
            match expr {
                ExprDescriptor::Register { register, is_temporary } => {
                    &&& final(self).functions.lower == old(self).functions.lower
                    &&& old(self).functions.top.register_discharged(
                        register,
                        is_temporary,
                        dest,
                        r,
                        final(self).functions.top,
                    )
                },
                ExprDescriptor::UpValue(source) => {
                    &&& final(self).functions.lower == old(self).functions.lower
                    &&& old(self).functions.top.upvalue_discharged(
                        source,
                        dest,
                        r,
                        final(self).functions.top,
                    )
                },
                ExprDescriptor::Value(value) => {
                    &&& final(self).functions.lower == old(self).functions.lower
                    &&& old(self).functions.top.value_discharged(
                        value@,
                        dest,
                        r,
                        final(self).functions.top,
                    )
                },
                ExprDescriptor::FunctionCall { .. } => true,
                ExprDescriptor::ShortCircuitBinOp { .. } => r.is_ok() ==> patched_jump(
                    old(self).functions.top.opcodes@.len() as int,
                    final(self).functions.top.opcodes@,
                ),
            },
            forall|fuel: nat|
                agrees(
                    #[trigger] crate::lowering::discharge(
                        fuel,
                        old(self)@,
                        operand_view(expr),
                        dest,
                    ),
                    r,
                    final(self)@,
                ),
        decreases expr.weight(), 0nat,
    {
        proof {
            self.lemma_top_wf();
        }
        match expr {
            ExprDescriptor::Register { register, is_temporary } => {
                proof {
                    if is_temporary {
                        assert(expr.holds_temporary(register.0 as int));
                        assert(expr.temporaries() =~= set![register.0 as int]);
                    } else {
                        assert(expr.temporaries() =~= Set::empty());
                    }
                }
                let r = self.functions.top.discharge_register(register, is_temporary, dest);
                proof {
                    if r.is_ok() {
                        old(self).lemma_top_stepped(*self);
                    }
                    old(self).lemma_top_view(*self);
                }
                r
            },
            ExprDescriptor::UpValue(source) => {
                proof {
                    assert(expr.temporaries() =~= Set::empty());
                }
                let r = self.functions.top.discharge_upvalue(source, dest);
                proof {
                    if r.is_ok() {
                        old(self).lemma_top_stepped(*self);
                    }
                    old(self).lemma_top_view(*self);
                }
                r
            },
            ExprDescriptor::Value(value) => {
                proof {
                    assert(expr.temporaries() =~= Set::empty());
                }
                let r = self.functions.top.discharge_value(value, dest);
                proof {
                    if r.is_ok() {
                        old(self).lemma_top_stepped(*self);
                    }
                    old(self).lemma_top_view(*self);
                }
                r
            },
            ExprDescriptor::FunctionCall { func, args } => {
                proof {
                    assert forall|scope: Set<Seq<u8>>| #[trigger]
                        closed_descriptor(expr, scope) implies closed_descriptor(*func, scope)
                        && closed_descriptors(args@, scope) by {}
                    old(self).lemma_owns_call(expr);
                    assert(old(self).holds_all(args@));
                }
                let ghost callee = operand_view(*func);
                let ghost passed = operands(args@);
                let r = self.discharge_function_call(*func, args, dest);
                proof {
                    assert forall|fuel: nat|
                        agrees(
                            #[trigger] crate::lowering::discharge(
                                fuel,
                                old(self)@,
                                operand_view(expr),
                                dest,
                            ),
                            r,
                            self@,
                        ) by {
                        assert(agrees(
                            crate::lowering::discharge_function_call(
                                fuel,
                                old(self)@,
                                callee,
                                passed,
                                dest,
                            ),
                            r,
                            self@,
                        ));
                    }
                }
                r
            },
            ExprDescriptor::ShortCircuitBinOp { left, op, right } => {
                proof {
                    assert forall|scope: Set<Seq<u8>>| #[trigger]
                        closed_descriptor(expr, scope) implies closed_descriptor(*left, scope)
                        && closed_expression(*right, scope) by {}
                    assert(expr.temporaries() =~= left.temporaries());
                    assert forall|r: int| #[trigger] left.holds_temporary(r)
                        implies old(self).allocated(r) && !crate::state::local_register(
                        old(self).functions.top.locals@,
                        r,
                    ) by {
                        assert(expr.holds_temporary(r));
                    }
                }
                let ghost tested = operand_view(*left);
                let r = self.discharge_short_circuit(*left, op, right, dest);
                proof {
                    assert forall|fuel: nat|
                        agrees(
                            #[trigger] crate::lowering::discharge(
                                fuel,
                                old(self)@,
                                operand_view(expr),
                                dest,
                            ),
                            r,
                            self@,
                        ) by {
                        assert(agrees(
                            crate::lowering::discharge_short_circuit(
                                fuel,
                                old(self)@,
                                tested,
                                op,
                                *right,
                                dest,
                            ),
                            r,
                            self@,
                        ));
                    }
                }
                r
            },
        }
    }

    /// Makes a call for its first result and places that in the
    /// destination. The result is in the register in which the function
    /// was, at the top of the stack.
    pub fn discharge_function_call<'a>(
        &mut self,
        func: ExprDescriptor<'a>,
        args: Vec<ExprDescriptor<'a>>,
        dest: ExprDestination,
    ) -> (r: Result<Option<RegisterIndex>, CompileError>)
        requires
            old(self).owns(func),
            old(self).owns_all(args@),
            disjoint_from_all(func, args@),
            dest matches ExprDestination::Register(d) ==> !func.holds_temporary(d.0 as int)
                && !temporaries_of(args@).contains(d.0 as int),
            old(self).wf(),
            old(self).holds(func),
            old(self).holds_all(args@),
            old(self).admits_destination(dest),
        ensures
            forall|scope: Set<Seq<u8>>|
                #![trigger closed_descriptor(func, scope), closed_descriptors(args@, scope)]
                closed_descriptor(func, scope) && closed_descriptors(args@, scope)
                    && old(self).covers(scope)
                        ==> (r.is_ok() ==> old(self).keeps_outermost(*final(self))),
            args@.len() == 0 && dest == ExprDestination::Nowhere ==> (
            func matches ExprDescriptor::Register { register, is_temporary: false } ==> match top_fault(
                *old(self),
            ) {
                Some(e) => r == Err::<Option<RegisterIndex>, _>(e),
                None => r == Ok::<_, CompileError>(None::<RegisterIndex>) && plain_call_made(
                    *old(self),
                    register,
                    VarCount(2),
                    *final(self),
                ),
            }),
            r matches Ok(placed_in) ==> {
                &&& old(self).steps_to(*final(self))
                &&& old(self).places(
                    func.temporaries().union(temporaries_of(args@)),
                    dest,
                    placed_in,
                    *final(self),
                )
                &&& final(self).functions.top.locals == old(self).functions.top.locals
                &&& placed_in.is_some() == (dest != ExprDestination::Nowhere)
                &&& dest matches ExprDestination::Register(d) ==> placed_in == Some(d)
                &&& placed_in matches Some(register)
                    ==> register.0 < final(self).functions.top.stack_size()
            },
            forall|fuel: nat|
                agrees(
                    #[trigger] crate::lowering::discharge_function_call(
                        fuel,
                        old(self)@,
                        operand_view(func),
                        operands(args@),
                        dest,
                    ),
                    r,
                    final(self)@,
                ),
        decreases 1 + func.weight() + weights(args@, args@.len()), 1nat,
    {
        let ghost origin = *self;
        let ghost callee = operand_view(func);
        let ghost passed = operands(args@);
        proof {
            assert forall|fuel: nat|
                follows(
                    #[trigger] crate::lowering::discharge_function_call(
                        fuel,
                        origin@,
                        callee,
                        passed,
                        dest,
                    ),
                    crate::lowering::function_call(fuel, origin@, callee, passed, VarCount(2)),
                ) by {}
        }
        let source = self.expr_function_call(func, args, VarCount::make_one())?;
        match dest {
            ExprDestination::Register(dest_register) => {
                proof {
                    assert(origin.allocated(dest_register.0 as int));
                    assert(dest_register.0 < source.0);
                }
                let ghost at = *self;
                self.emit(OpCode::Move { dest: dest_register, source });
                proof {
                    origin.lemma_step(at, *self);
                    assert forall|r: int| #[trigger]
                        self.functions.top.register_allocator.allocated(r) implies (
                    origin.functions.top.register_allocator.allocated(r)
                        && !func.temporaries().union(temporaries_of(args@)).contains(r)) by {
                        assert(at.functions.top.register_allocator.allocated(r));
                    }
                }
                Ok(Some(dest_register))
            },
            ExprDestination::AllocateNew | ExprDestination::PushNew => {
                proof {
                    self.lemma_top_wf();
                }
                let ghost at = *self;
                let claimed = self.functions.top.push(1)?;
                proof {
                    at.lemma_top_stepped(*self);
                    origin.lemma_step(at, *self);
                }
                assert(claimed == source);
                proof {
                    assert forall|r: int| #[trigger]
                        self.functions.top.register_allocator.allocated(r) implies (
                    origin.functions.top.register_allocator.allocated(r)
                        && !func.temporaries().union(temporaries_of(args@)).contains(r))
                        || set![source.0 as int].contains(r) by {
                        if r != source.0 {
                            assert(at.functions.top.register_allocator.allocated(r));
                        }
                    }
                }
                if dest == ExprDestination::PushNew && claimed.0 > 0
                    && !self.functions.top.register_allocator.is_allocated(
                    RegisterIndex(claimed.0 - 1),
                ) {
                    return Err(CompileError::Register(RegisterFault::PushBelowGap));
                }
                Ok(Some(source))
            },
            ExprDestination::Nowhere => Ok(None),
        }
    }

    /// Evaluates `and` or `or` into the destination. The left operand is
    /// tested in a register; the instruction after the test jumps over the
    /// code of the right operand, and is skipped when the left operand does
    /// not decide. The jump is emitted before the code it jumps over, and
    /// gets its offset once that code is there.
    #[verifier::rlimit(80)]
    pub fn discharge_short_circuit<'a>(
        &mut self,
        left: ExprDescriptor<'a>,
        op: ShortCircuitBinOp,
        right: &'a Expression,
        dest: ExprDestination,
    ) -> (r: Result<Option<RegisterIndex>, CompileError>)
        requires
            old(self).owns(left),
            dest matches ExprDestination::Register(d) ==> !left.holds_temporary(d.0 as int),
            old(self).wf(),
            old(self).holds(left),
            old(self).admits_destination(dest),
        ensures
            forall|scope: Set<Seq<u8>>|
                #![trigger closed_descriptor(left, scope), closed_expression(*right, scope)]
                closed_descriptor(left, scope) && closed_expression(*right, scope)
                    && old(self).covers(scope)
                        ==> (r.is_ok() ==> old(self).keeps_outermost(*final(self))),
            (dest is Register || dest is Nowhere) ==> (left matches ExprDescriptor::Register {
                register,
                is_temporary: false,
            } ==> (local_operand(*old(self), *right) matches Some(local) ==> {
                let placed_in = old(self).functions.top.register_allocator.place(dest);
                &&& r == Ok::<_, CompileError>(placed_in)
                &&& final(self).functions.lower == old(self).functions.lower
                &&& old(self).functions.top.same_but_code(final(self).functions.top)
                &&& final(self).functions.top.opcodes@ == old(self).functions.top.opcodes@
                    + short_circuit_code(op, register, local, placed_in)
            })),
            r matches Ok(placed_in) ==> {
                &&& old(self).steps_to(*final(self))
                &&& old(self).places(left.temporaries(), dest, placed_in, *final(self))
                &&& final(self).functions.top.locals == old(self).functions.top.locals
                &&& placed_in.is_some() == (dest != ExprDestination::Nowhere)
                &&& dest matches ExprDestination::Register(d) ==> placed_in == Some(d)
                &&& placed_in matches Some(register)
                    ==> register.0 < final(self).functions.top.stack_size()
                &&& patched_jump(
                    old(self).functions.top.opcodes@.len() as int,
                    final(self).functions.top.opcodes@,
                )
            },
            forall|fuel: nat|
                agrees(
                    #[trigger] crate::lowering::discharge_short_circuit(
                        fuel,
                        old(self)@,
                        operand_view(left),
                        op,
                        *right,
                        dest,
                    ),
                    r,
                    final(self)@,
                ),
        decreases left.weight() + expression_size(*right), 1nat,
    {
        let ghost origin = *self;
        proof {
            origin.lemma_start();
        }
        let ghost tested = operand_view(left);
        let mut left = left;
        let ghost at = *self;
        proof {
            assert forall|fuel: nat|
                follows(
                    #[trigger] crate::lowering::discharge_short_circuit(
                        fuel,
                        origin@,
                        tested,
                        op,
                        *right,
                        dest,
                    ),
                    crate::lowering::any_register((fuel - 1) as nat, origin@, tested),
                ) by {}
        }
        let left_register = self.expr_any_register(&mut left)?;
        proof {
            origin.lemma_step(at, *self);
        }
        let ghost at = *self;
        proof {
            assert forall|fuel: nat|
                follows(
                    #[trigger] crate::lowering::discharge_short_circuit(
                        fuel,
                        origin@,
                        tested,
                        op,
                        *right,
                        dest,
                    ),
                    crate::lowering::discharge(
                        (fuel - 1) as nat,
                        at@,
                        operand_view(left),
                        ExprDestination::Nowhere,
                    ),
                ) by {}
        }
        self.expr_discharge(left, ExprDestination::Nowhere)?;
        proof {
            origin.lemma_step(at, *self);
            self.lemma_top_wf();
        }
        let ghost at = *self;
        let placed_in = self.functions.top.new_destination(dest)?;
        proof {
            at.lemma_top_stepped(*self);
            origin.lemma_step(at, *self);
        }
        let is_true = op == ShortCircuitBinOp::And;
        let test = match placed_in {
            Some(dest_register) => {
                if left_register.0 == dest_register.0 {
                    OpCode::Test { value: left_register, is_true }
                } else {
                    OpCode::TestSet { dest: dest_register, value: left_register, is_true }
                }
            },
            None => OpCode::Test { value: left_register, is_true },
        };
        let ghost at = *self;
        self.emit(test);
        proof {
            origin.lemma_step(at, *self);
            assert(origin.functions.top.opcodes@.len() <= at.functions.top.opcodes@.len());
        }
        let jump: usize = self.functions.top.opcodes.len();
        let ghost at = *self;
        self.emit(OpCode::Jump { offset: 0 });
        proof {
            origin.lemma_step(at, *self);
        }
        let ghost jumped = *self;
        proof {
            assert forall|fuel: nat|
                follows(
                    #[trigger] crate::lowering::discharge_short_circuit(
                        fuel,
                        origin@,
                        tested,
                        op,
                        *right,
                        dest,
                    ),
                    crate::lowering::expression((fuel - 1) as nat, jumped@, *right),
                ) by {}
        }
        let right_descriptor = self.expression(right)?;
        proof {
            origin.lemma_step(jumped, *self);
        }
        let ghost mid = *self;
        proof {
            assert forall|fuel: nat|
                follows(
                    #[trigger] crate::lowering::discharge_short_circuit(
                        fuel,
                        origin@,
                        tested,
                        op,
                        *right,
                        dest,
                    ),
                    crate::lowering::discharge(
                        (fuel - 1) as nat,
                        mid@,
                        operand_view(right_descriptor),
                        match placed_in {
                            Some(register) => ExprDestination::Register(register),
                            None => ExprDestination::Nowhere,
                        },
                    ),
                ) by {}
        }
        match placed_in {
            Some(dest_register) => {
                self.expr_discharge(right_descriptor, ExprDestination::Register(dest_register))?;
            },
            None => {
                self.expr_discharge(right_descriptor, ExprDestination::Nowhere)?;
            },
        }
        proof {
            origin.lemma_step(mid, *self);
            jumped.lemma_start();
            jumped.lemma_step(jumped, mid);
            jumped.lemma_step(mid, *self);
            jumped.lemma_code_kept(*self, jump as int);
            jumped.lemma_code_kept(*self, jump - 1);
            self.lemma_top_wf();
        }
        let ghost done = *self;
        self.functions.top.patch_jump(jump)?;
        proof {
            done.lemma_top_view(*self);
            lemma_patched_steps(origin, done, *self, jump as int);
            let code = self.functions.top.opcodes@;
            assert(jumped.functions.top.opcodes@[jump - 1] == test);
            assert(code[jump - 1] == test);
            assert(code[jump as int] == OpCode::Jump { offset: (code.len() - jump - 1) as i16 });
            assert(origin.functions.top.opcodes@.len() < jump < code.len());
        }
        Ok(placed_in)
    }

    /// Changes a descriptor so that its value is in a register, and returns
    /// that register. A descriptor that is a register stays as it is.
    pub fn expr_any_register<'a>(&mut self, expr: &mut ExprDescriptor<'a>) -> (r: Result<
        RegisterIndex,
        CompileError,
    >)
        requires
            old(self).owns(*old(expr)),
            old(self).wf(),
            old(self).holds(*old(expr)),
        ensures
            forall|scope: Set<Seq<u8>>|
                #[trigger] closed_descriptor(*old(expr), scope) && old(self).covers(scope)
                    ==> (
                        r.is_ok()
                            ==> old(self).keeps_outermost(*final(self))
                                && closed_descriptor(*final(expr), scope)
                    ),
            match *old(expr) {
                ExprDescriptor::Register { register, .. } => {
                    &&& r == Ok::<_, CompileError>(register)
                    &&& *final(expr) == *old(expr)
                    &&& *final(self) == *old(self)
                },
                ExprDescriptor::UpValue(source) => {
                    &&& final(self).functions.lower == old(self).functions.lower
                    &&& old(self).functions.top.upvalue_discharged(
                        source,
                        ExprDestination::AllocateNew,
                        as_placed(r),
                        final(self).functions.top,
                    )
                },
                ExprDescriptor::Value(value) => {
                    &&& final(self).functions.lower == old(self).functions.lower
                    &&& old(self).functions.top.value_discharged(
                        value@,
                        ExprDestination::AllocateNew,
                        as_placed(r),
                        final(self).functions.top,
                    )
                },
                _ => true,
            },
            r matches Ok(register) ==> {
                &&& old(self).steps_to(*final(self))
                &&& old(self).yields(old(expr).temporaries(), *final(expr), *final(self))
                &&& old(self).accounts(
                    old(expr).temporaries(),
                    final(expr).temporaries(),
                    *final(self),
                )
                &&& final(self).functions.top.locals == old(self).functions.top.locals
                &&& final(self).holds(*final(expr))
                &&& register.0 < final(self).functions.top.stack_size()
                &&& final(expr).weight() == 1
                &&& !(*old(expr) is Register) ==> *final(expr) == (ExprDescriptor::Register {
                    register,
                    is_temporary: true,
                })
            },
            forall|fuel: nat|
                agrees(
                    #[trigger] crate::lowering::any_register(
                        fuel,
                        old(self)@,
                        operand_view(*old(expr)),
                    ),
                    with_operand(r, *final(expr)),
                    final(self)@,
                ),
        decreases old(expr).weight(), 1nat,
    {
        if let ExprDescriptor::Register { register, .. } = expr {
            let held = *register;
            proof {
                self.lemma_start();
                assert forall|r: int| #[trigger] old(expr).holds_temporary(r)
                    implies old(expr).temporaries().contains(r) by {}
            }
            return Ok(held);
        }
        let mut taken = ExprDescriptor::Value(Value::Nil);
        std::mem::swap(expr, &mut taken);
        let ghost source = operand_view(taken);
        proof {
            assert forall|fuel: nat|
                follows(
                    #[trigger] crate::lowering::any_register(fuel, old(self)@, source),
                    crate::lowering::discharge(
                        fuel,
                        old(self)@,
                        source,
                        ExprDestination::AllocateNew,
                    ),
                ) by {}
        }
        let placed_in = self.expr_discharge(taken, ExprDestination::AllocateNew)?;
        let register = placed_in.unwrap();
        *expr = ExprDescriptor::Register { register, is_temporary: true };
        proof {
            assert(source == operand_view(*old(expr)));
            assert forall|fuel: nat|
                agrees(
                    #[trigger] crate::lowering::any_register(fuel, old(self)@, source),
                    with_operand(Ok(register), *expr),
                    self@,
                ) by {
                let d = crate::lowering::discharge(
                    fuel,
                    old(self)@,
                    source,
                    ExprDestination::AllocateNew,
                );
                assert(agrees(d, Ok(placed_in), self@));
                assert(!(source is Register));
            }
        }
        proof {
            old(self).lemma_top_wf();
            let fresh = *expr;
            assert forall|r: int| #[trigger] fresh.holds_temporary(r) implies self.allocated(r)
                && !crate::state::local_register(self.functions.top.locals@, r)
                    && (!old(self).allocated(r) || old(expr).temporaries().contains(r)) by {
                assert(r == register.0);
                if old(self).allocated(r) {
                    assert(old(expr).holds_temporary(r));
                } else {
                    if crate::state::local_register(old(self).functions.top.locals@, r) {
                        let i = choose|i: int|
                            0 <= i < old(self).functions.top.locals@.len()
                                && (#[trigger] old(self).functions.top.locals@[i]).1.0 == r;
                        assert(old(self).functions.top.register_allocator.allocated(
                            old(self).functions.top.locals@[i].1.0 as int,
                        ));
                    }
                }
            }
        }
        Ok(register)
    }

    /// Gives the index of a descriptor's value in the constant table, if the
    /// value is known and its index fits eight bits; otherwise changes the
    /// descriptor so that its value is in a register, and returns that.
    pub fn expr_any_register_or_constant<'a>(
        &mut self,
        expr: &mut ExprDescriptor<'a>,
    ) -> (r: Result<
        RegisterOrConstant,
        CompileError,
    >)
        requires
            old(self).owns(*old(expr)),
            old(self).wf(),
            old(self).holds(*old(expr)),
        ensures
            forall|scope: Set<Seq<u8>>|
                #[trigger] closed_descriptor(*old(expr), scope) && old(self).covers(scope)
                    ==> (
                        r.is_ok()
                            ==> old(self).keeps_outermost(*final(self))
                                && closed_descriptor(*final(expr), scope)
                    ),
            *old(expr) matches ExprDescriptor::Register { register, .. } ==> {
                &&& r == Ok::<_, CompileError>(RegisterOrConstant::Register(register))
                &&& *final(expr) == *old(expr)
                &&& *final(self) == *old(self)
            },
            r matches Ok(operand) ==> {
                &&& old(self).steps_to(*final(self))
                &&& old(self).yields(old(expr).temporaries(), *final(expr), *final(self))
                &&& old(self).accounts(
                    old(expr).temporaries(),
                    final(expr).temporaries(),
                    *final(self),
                )
                &&& final(self).functions.top.locals == old(self).functions.top.locals
                &&& final(self).holds(*final(expr))
                &&& final(expr).weight() <= old(expr).weight()
                &&& match operand {
                    RegisterOrConstant::Constant(index) => {
                        &&& *old(expr) matches ExprDescriptor::Value(value)
                        &&& *final(expr) == *old(expr)
                        &&& index.0 < final(self).functions.top.constants@.len()
                        &&& final(self).functions.top.constants@[index.0 as int]@ == value@
                    },
                    RegisterOrConstant::Register(register) => {
                        &&& register.0 < final(self).functions.top.stack_size()
                        &&& *final(expr) matches ExprDescriptor::Register { register: held, .. }
                        &&& held == register
                    },
                }
            },
            forall|fuel: nat|
                agrees(
                    #[trigger] crate::lowering::any_register_or_constant(
                        fuel,
                        old(self)@,
                        operand_view(*old(expr)),
                    ),
                    with_operand(r, *final(expr)),
                    final(self)@,
                ),
        decreases old(expr).weight(), 2nat,
    {
        let ghost origin = *self;
        proof {
            origin.lemma_start();
        }
        if let ExprDescriptor::Value(value) = expr {
            let constant = value.duplicate();
            proof {
                self.lemma_top_wf();
            }
            let index = self.functions.top.get_constant(constant)?;
            proof {
                origin.lemma_top_stepped(*self);
            }
            if let Some(small) = u16_to_u8(index.0) {
                return Ok(RegisterOrConstant::Constant(ConstantIndex8(small)));
            }
        }
        let ghost at = *self;
        proof {
            assert forall|fuel: nat|
                follows(
                    #[trigger] crate::lowering::any_register_or_constant(
                        fuel,
                        origin@,
                        operand_view(*old(expr)),
                    ),
                    crate::lowering::any_register(fuel, at@, operand_view(*old(expr))),
                ) by {}
        }
        let register = self.expr_any_register(expr)?;
        proof {
            origin.lemma_step(at, *self);
        }
        Ok(RegisterOrConstant::Register(register))
    }

    /// Makes a call. The function is put at the top of the stack and the
    /// arguments above it, in order; where the last argument is itself a
    /// call, all its results are passed on. After the call the registers
    /// from that of the function upwards are free again: the results are
    /// there, and it is for the caller to claim them.
    pub fn expr_function_call<'a>(
        &mut self,
        func: ExprDescriptor<'a>,
        args: Vec<ExprDescriptor<'a>>,
        results: VarCount,
    ) -> (r: Result<RegisterIndex, CompileError>)
        requires
            old(self).owns(func),
            old(self).owns_all(args@),
            disjoint_from_all(func, args@),
            old(self).wf(),
            old(self).holds(func),
            old(self).holds_all(args@),
        ensures
            forall|scope: Set<Seq<u8>>|
                #![trigger closed_descriptor(func, scope), closed_descriptors(args@, scope)]
                closed_descriptor(func, scope) && closed_descriptors(args@, scope)
                    && old(self).covers(scope)
                        ==> (r.is_ok() ==> old(self).keeps_outermost(*final(self))),
            args@.len() == 0 ==> (func matches ExprDescriptor::Register {
                register,
                is_temporary: false,
            } ==> called_plainly(*old(self), register, results, r, *final(self))),
            r matches Ok(top) ==> {
                &&& old(self).steps_to(*final(self))
                &&& old(self).keeps_registers(
                    func.temporaries().union(temporaries_of(args@)),
                    *final(self),
                )
                &&& final(self).functions.top.register_allocator.stack_top == top.0
                &&& old(self).accounts(
                    func.temporaries().union(temporaries_of(args@)),
                    Set::empty(),
                    *final(self),
                )
                &&& forall|r: int| #[trigger]
                    old(self).allocated(r) && !func.holds_temporary(r) && !temporaries_of(
                        args@,
                    ).contains(r) ==> r < top.0
                &&& !old(self).allocated(top.0 as int) || func.holds_temporary(top.0 as int)
                    || temporaries_of(args@).contains(top.0 as int)
                &&& final(self).functions.top.locals == old(self).functions.top.locals
                &&& top.0 < final(self).functions.top.stack_size()
                &&& final(self).functions.top.register_allocator.stack_top <= top.0
                &&& final(self).functions.top.opcodes@.len() > old(self).functions.top.opcodes@.len()
                &&& final(self).functions.top.opcodes@.last() matches OpCode::Call {
                    func: called,
                    args: passed,
                    returns: returned,
                }
                &&& called == top
                &&& returned == results
                &&& passed.constant() == if args@.len() > 0 && args@.last() is FunctionCall {
                    None::<nat>
                } else {
                    Some(args@.len())
                }
            },
            forall|fuel: nat|
                agrees(
                    #[trigger] crate::lowering::function_call(
                        fuel,
                        old(self)@,
                        operand_view(func),
                        operands(args@),
                        results,
                    ),
                    r,
                    final(self)@,
                ),
        decreases 1 + func.weight() + weights(args@, args@.len()), 0nat,
    {
        let ghost origin = *self;
        let ghost all_args = args@;
        let ghost callee = func;
        let ghost callee_view = operand_view(func);
        proof {
            origin.lemma_start();
            origin.lemma_top_wf();
        }
        let ghost passed = operands(all_args);
        proof {
            lemma_operand_views(all_args, all_args.len());
            assert forall|fuel: nat|
                follows(
                    #[trigger] crate::lowering::function_call(
                        fuel,
                        origin@,
                        callee_view,
                        passed,
                        results,
                    ),
                    crate::lowering::discharge(
                        (fuel - 1) as nat,
                        origin@,
                        callee_view,
                        ExprDestination::PushNew,
                    ),
                ) by {}
        }
        let placed_in = self.expr_discharge(func, ExprDestination::PushNew)?;
        let top = placed_in.unwrap();
        proof {
            origin.lemma_step(origin, *self);
            assert forall|i: int, r: int|
                0 <= i < all_args.len() && #[trigger] all_args[i].holds_temporary(
                    r,
                ) implies self.allocated(r) && r < top.0 by {
                assert(origin.allocated(r));
                assert(!func.holds_temporary(r));
                assert(!func.temporaries().contains(r));
            }
            assert forall|r: int| #[trigger]
                origin.allocated(r) && !func.holds_temporary(r) implies self.allocated(r) && r
                < top.0 by {
                assert(!func.temporaries().contains(r));
            }
            assert(!origin.allocated(top.0 as int) || func.holds_temporary(top.0 as int)) by {
                if origin.allocated(top.0 as int) {
                    assert(func.temporaries().contains(top.0 as int));
                }
            }
            assert forall|r: int| #[trigger] self.allocated(r) && r < top.0 implies origin.allocated(
                r,
            ) && !func.holds_temporary(r) by {
                assert(self.functions.top.register_allocator.allocated(r));
                assert(!set![top.0 as int].contains(r));
            }
        }
        let arg_count: u8 = match usize_to_u8(args.len()) {
            Some(n) => n,
            None => {
                return Err(CompileError::Limit(CompilerLimit::FixedParameters));
            },
        };
        let ghost pushed = *self;
        let mut rest = args;
        let last_arg = rest.pop();
        let ghost mut taken: int = 0;
        proof {
            assert forall|fuel: nat|
                continues(
                    #[trigger] crate::lowering::function_call(
                        fuel,
                        origin@,
                        callee_view,
                        passed,
                        results,
                    ),
                    crate::lowering::arguments_from(
                        (fuel - 1) as nat,
                        self@,
                        top,
                        passed,
                        0,
                        results,
                    ),
                ) by {}
        }
        proof {
            assert(self.holds_all(rest@)) by {
                assert forall|i: int| 0 <= i < rest@.len() implies (#[trigger] rest@[i]).fits(
                    self.functions.top.stack_size(),
                    self.functions.top.upvalues@.len() as int,
                ) by {
                    assert(rest@[i] == all_args[i]);
                    assert(self.holds_all(all_args));
                }
            }
        }
        while rest.len() > 0
            invariant
                origin.steps_to(*self),
                origin.wf(),
                origin.functions.top.wf(),
                origin.owns(func),
                origin.owns_all(all_args),
                disjoint_from_all(func, all_args),
                self.functions.top.locals == origin.functions.top.locals,
                self.holds_all(rest@),
                all_args == args@,
                forall|scope: Set<Seq<u8>>|
                    #![trigger closed_descriptors(all_args, scope)]
                    closed_descriptor(func, scope) && closed_descriptors(all_args, scope)
                        && origin.covers(scope) ==> origin.keeps_outermost(*self),
                0 <= taken,
                all_args.len() > 0 ==> taken + rest@.len() + 1 == all_args.len(),
                all_args.len() == 0 ==> rest@.len() == 0,
                all_args.len() == 0 ==> *self == pushed,
                all_args.len() <= 255,
                passed == operands(all_args),
                origin == *old(self),
                callee_view == operand_view(func),
                forall|fuel: nat|
                    continues(
                        #[trigger] crate::lowering::function_call(
                            fuel,
                            origin@,
                            callee_view,
                            passed,
                            results,
                        ),
                        crate::lowering::arguments_from(
                            (fuel - 1) as nat,
                            self@,
                            top,
                            passed,
                            taken,
                            results,
                        ),
                    ),
                forall|i: int| 0 <= i < rest@.len() ==> #[trigger] rest@[i] == all_args[taken + i],
                top.0 < self.functions.top.stack_size(),
                self.allocated(top.0 as int),
                forall|i: int, r: int|
                    taken <= i < all_args.len() && #[trigger] all_args[i].holds_temporary(r)
                        ==> self.allocated(r),
                forall|i: int, r: int|
                    0 <= i < all_args.len() && #[trigger] all_args[i].holds_temporary(r) ==> r
                        < top.0,
                forall|r: int| #[trigger]
                    origin.allocated(r) && !func.holds_temporary(r) && !temporaries_of(
                        all_args,
                    ).contains(r) ==> self.allocated(r),
                forall|r: int| #[trigger]
                    origin.allocated(r) && !func.holds_temporary(r) ==> r < top.0,
                forall|r: int| #[trigger]
                    self.allocated(r) && r < top.0 ==> origin.allocated(r) && !func.holds_temporary(
                        r,
                    ),
                forall|r: int, j: int|
                    #![trigger self.allocated(r), all_args[j].holds_temporary(r)]
                    self.allocated(r) && r < top.0 && 0 <= j < taken
                        ==> !all_args[j].holds_temporary(r),
            decreases rest@.len(),
        {
            let ghost before = rest@;
            let arg = rest.remove(0);
            proof {
                assert(arg == all_args[taken]);
                lemma_weights_element(all_args, taken);
                assert forall|i: int| 0 <= i < rest@.len() implies #[trigger] rest@[i]
                    == all_args[taken + 1 + i] by {
                    assert(rest@[i] == before[i + 1]);
                }
                assert(self.holds(arg)) by {
                    assert(before[0].fits(
                        self.functions.top.stack_size(),
                        self.functions.top.upvalues@.len() as int,
                    ));
                }
                assert(self.holds_all(rest@)) by {
                    assert forall|i: int| 0 <= i < rest@.len() implies (#[trigger] rest@[i]).fits(
                        self.functions.top.stack_size(),
                        self.functions.top.upvalues@.len() as int,
                    ) by {
                        assert(rest@[i] == before[i + 1]);
                    }
                }
                assert(self.owns(arg)) by {
                    assert(all_args[taken].exclusive());
                    assert forall|r: int| #[trigger] arg.holds_temporary(r) implies self.allocated(
                        r,
                    ) && !crate::state::local_register(self.functions.top.locals@, r) by {
                        assert(all_args[taken].holds_temporary(r));
                    }
                }
            }
            let ghost at = *self;
            let ghost index = taken;
            proof {
                origin.lemma_covers(at);
                lemma_operand_views(all_args, all_args.len());
                assert(passed[index] == operand_view(arg));
                assert(0 <= index < passed.len() - 1);
                assert forall|fuel: nat|
                    continues(
                        #[trigger] crate::lowering::function_call(
                            fuel,
                            origin@,
                            callee_view,
                            passed,
                            results,
                        ),
                        match crate::lowering::discharge(
                            (fuel - 1) as nat,
                            at@,
                            operand_view(arg),
                            ExprDestination::PushNew,
                        ) {
                            crate::model::Lowered::Done(after, _) => crate::lowering::arguments_from(
                                (fuel - 1) as nat,
                                after,
                                top,
                                passed,
                                index + 1,
                                results,
                            ),
                            crate::model::Lowered::Failed(e) => crate::model::Lowered::Failed(e),
                            crate::model::Lowered::Unknown => crate::model::Lowered::Unknown,
                        },
                    ) by {}
                assert forall|fuel: nat|
                    follows(
                        #[trigger] crate::lowering::function_call(
                            fuel,
                            origin@,
                            callee_view,
                            passed,
                            results,
                        ),
                        crate::lowering::discharge(
                            (fuel - 1) as nat,
                            at@,
                            operand_view(arg),
                            ExprDestination::PushNew,
                        ),
                    ) by {}
            }
            self.expr_discharge(arg, ExprDestination::PushNew)?;
            proof {
                assert forall|fuel: nat|
                    continues(
                        #[trigger] crate::lowering::function_call(
                            fuel,
                            origin@,
                            callee_view,
                            passed,
                            results,
                        ),
                        crate::lowering::arguments_from(
                            (fuel - 1) as nat,
                            self@,
                            top,
                            passed,
                            taken + 1,
                            results,
                        ),
                    ) by {}
                origin.lemma_step(at, *self);
                taken = taken + 1;
                assert forall|scope: Set<Seq<u8>>|
                    #![trigger closed_descriptors(all_args, scope)]
                    closed_descriptor(func, scope) && closed_descriptors(all_args, scope)
                        && origin.covers(scope) implies origin.keeps_outermost(*self) by {
                    assert(closed_descriptor(all_args[index], scope));
                    assert(at.covers(scope));
                }
                assert(self.allocated(top.0 as int)) by {
                    if arg.holds_temporary(top.0 as int) {
                        assert(all_args[index].holds_temporary(top.0 as int));
                    }
                    assert(!arg.temporaries().contains(top.0 as int));
                }
                assert forall|i: int, r: int|
                    taken <= i < all_args.len() && #[trigger] all_args[i].holds_temporary(
                        r,
                    ) implies self.allocated(r) by {
                    assert(at.allocated(r));
                    if arg.holds_temporary(r) {
                        assert(all_args[index].holds_temporary(r));
                    }
                    assert(!arg.temporaries().contains(r));
                }
                assert forall|r: int| #[trigger]
                    origin.allocated(r) && !func.holds_temporary(r) && !temporaries_of(
                        all_args,
                    ).contains(r) implies self.allocated(r) by {
                    assert(at.allocated(r));
                    if arg.holds_temporary(r) {
                        assert(all_args[index].holds_temporary(r));
                    }
                    assert(!arg.temporaries().contains(r));
                }
                assert(at.functions.top.register_allocator.allocated(top.0 as int));
                assert(!arg.temporaries().contains(top.0 as int));
                assert forall|r: int| #[trigger] self.allocated(r) && r < top.0 implies at.allocated(
                    r,
                ) && !arg.holds_temporary(r) by {
                    assert(self.functions.top.register_allocator.allocated(r));
                    if arg.holds_temporary(r) {
                        assert(arg.temporaries().contains(r));
                    }
                }
                assert forall|r: int, j: int|
                    #![trigger self.allocated(r), all_args[j].holds_temporary(r)]
                    self.allocated(r) && r < top.0 && 0 <= j < taken
                    implies !all_args[j].holds_temporary(r) by {
                    assert(at.allocated(r));
                }
            }
        }
        let ghost placed = *self;
        match last_arg {
            Some(ExprDescriptor::FunctionCall { func: inner_func, args: inner_args }) => {
                let ghost last = all_args[all_args.len() - 1];
                proof {
                    lemma_weights_element(all_args, all_args.len() - 1);
                    origin.lemma_step(origin, *self);
                    assert(self.owns(last)) by {
                        assert(last.exclusive());
                        assert forall|r: int| #[trigger] last.holds_temporary(r)
                            implies self.allocated(
                            r,
                        ) && !crate::state::local_register(self.functions.top.locals@, r) by {
                            assert(all_args[all_args.len() - 1].holds_temporary(r));
                        }
                    }
                    self.lemma_owns_call(last);
                }
                let ghost at = *self;
                proof {
                    lemma_operand_views(all_args, all_args.len());
                    assert(passed.last() == operand_view(last));
                    assert forall|fuel: nat|
                        follows(
                            #[trigger] crate::lowering::function_call(
                                fuel,
                                origin@,
                                callee_view,
                                passed,
                                results,
                            ),
                            crate::lowering::function_call(
                                (fuel - 1) as nat,
                                at@,
                                operand_view(*inner_func),
                                operands(inner_args@),
                                VarCount(0),
                            ),
                        ) by {}
                }
                self.expr_function_call(*inner_func, inner_args, VarCount::make_variable())?;
                proof {
                    origin.lemma_step(at, *self);
                    assert forall|scope: Set<Seq<u8>>|
                        #![trigger closed_descriptors(all_args, scope)]
                        closed_descriptor(func, scope) && closed_descriptors(all_args, scope)
                            && origin.covers(scope) implies origin.keeps_outermost(*self) by {
                        assert(closed_descriptor(all_args[all_args.len() - 1], scope));
                        assert(closed_descriptor(*inner_func, scope));
                        assert(closed_descriptors(inner_args@, scope));
                        assert(at.covers(scope));
                    }
                    assert forall|r: int| #[trigger] at.allocated(r) && !last.holds_temporary(
                        r,
                    ) implies self.allocated(r) by {
                        assert(!last.temporaries().contains(r));
                    }
                    assert(!last.holds_temporary(top.0 as int)) by {
                        if last.holds_temporary(top.0 as int) {
                            assert(all_args[all_args.len() - 1].holds_temporary(top.0 as int));
                        }
                    }
                    assert forall|r: int| #[trigger]
                        origin.allocated(r) && !func.holds_temporary(r) && !temporaries_of(
                            all_args,
                        ).contains(r) implies self.allocated(r) by {
                        assert(at.allocated(r));
                        if last.holds_temporary(r) {
                            assert(all_args[all_args.len() - 1].holds_temporary(r));
                        }
                    }
                    assert forall|r: int| #[trigger] self.allocated(r) implies at.allocated(r)
                        && !last.holds_temporary(r) by {
                        assert(self.functions.top.register_allocator.allocated(r));
                        if last.holds_temporary(r) {
                            assert(last.temporaries().contains(r));
                        }
                    }
                }
                let ghost called = *self;
                let ghost at = *self;
                self.emit(
                    OpCode::Call { func: top, args: VarCount::make_variable(), returns: results },
                );
                proof {
                    origin.lemma_step(at, *self);
                    assert forall|r: int, j: int|
                        #![trigger self.allocated(r), all_args[j].holds_temporary(r)]
                        self.allocated(r) && r < top.0 && 0 <= j < all_args.len()
                        implies !all_args[j].holds_temporary(r) by {
                        assert(called.allocated(r));
                        assert(placed.allocated(r));
                    }
                    assert forall|r: int| #[trigger] self.allocated(r) && r < top.0
                        implies origin.allocated(r) && !func.holds_temporary(r) by {
                        assert(called.allocated(r));
                        assert(placed.allocated(r));
                    }
                }
            },
            last_arg => {
                if let Some(last) = last_arg {
                    proof {
                        lemma_weights_element(all_args, all_args.len() - 1);
                        origin.lemma_step(origin, *self);
                        assert(self.owns(last)) by {
                            assert(all_args[all_args.len() - 1].exclusive());
                            assert forall|r: int| #[trigger]
                                last.holds_temporary(r) implies self.allocated(r)
                                && !crate::state::local_register(
                                self.functions.top.locals@,
                                r,
                            ) by {
                                assert(all_args[all_args.len() - 1].holds_temporary(r));
                            }
                        }
                    }
                    let ghost at = *self;
                    proof {
                        lemma_operand_views(all_args, all_args.len());
                        assert(passed.last() == operand_view(last));
                        assert forall|fuel: nat|
                            follows(
                                #[trigger] crate::lowering::function_call(
                                    fuel,
                                    origin@,
                                    callee_view,
                                    passed,
                                    results,
                                ),
                                crate::lowering::discharge(
                                    (fuel - 1) as nat,
                                    at@,
                                    operand_view(last),
                                    ExprDestination::PushNew,
                                ),
                            ) by {}
                    }
                    self.expr_discharge(last, ExprDestination::PushNew)?;
                    proof {
                        origin.lemma_step(at, *self);
                        assert forall|scope: Set<Seq<u8>>|
                            #![trigger closed_descriptors(all_args, scope)]
                            closed_descriptor(func, scope) && closed_descriptors(all_args, scope)
                                && origin.covers(scope) implies origin.keeps_outermost(*self) by {
                            assert(closed_descriptor(all_args[all_args.len() - 1], scope));
                            assert(at.covers(scope));
                        }
                        assert(self.allocated(top.0 as int)) by {
                            if last.holds_temporary(top.0 as int) {
                                assert(all_args[all_args.len() - 1].holds_temporary(top.0 as int));
                            }
                            assert(!last.temporaries().contains(top.0 as int));
                        }
                        assert forall|r: int| #[trigger]
                            origin.allocated(r) && !func.holds_temporary(r) && !temporaries_of(
                                all_args,
                            ).contains(r) implies self.allocated(r) by {
                            assert(at.allocated(r));
                            if last.holds_temporary(r) {
                                assert(all_args[all_args.len() - 1].holds_temporary(r));
                            }
                            assert(!last.temporaries().contains(r));
                        }
                        assert(at.functions.top.register_allocator.allocated(top.0 as int));
                        assert forall|r: int| #[trigger] self.allocated(r) && r < top.0
                            implies at.allocated(r) && !last.holds_temporary(r) by {
                            assert(self.functions.top.register_allocator.allocated(r));
                            if last.holds_temporary(r) {
                                assert(last.temporaries().contains(r));
                            }
                        }
                    }
                }
                let ghost filled = *self;
                let count = match VarCount::make_constant(arg_count) {
                    Some(count) => count,
                    None => {
                        return Err(CompileError::Limit(CompilerLimit::FixedParameters));
                    },
                };
                let ghost at = *self;
                self.emit(OpCode::Call { func: top, args: count, returns: results });
                proof {
                    origin.lemma_step(at, *self);
                    assert forall|r: int, j: int|
                        #![trigger self.allocated(r), all_args[j].holds_temporary(r)]
                        self.allocated(r) && r < top.0 && 0 <= j < all_args.len()
                        implies !all_args[j].holds_temporary(r) by {
                        assert(filled.allocated(r));
                        assert(placed.allocated(r));
                    }
                    assert forall|r: int| #[trigger] self.allocated(r) && r < top.0
                        implies origin.allocated(r) && !func.holds_temporary(r) by {
                        assert(filled.allocated(r));
                        assert(placed.allocated(r));
                    }
                }
            },
        }
        proof {
            self.lemma_top_wf();
            assert forall|i: int| 0 <= i < self.functions.top.locals@.len() implies (
            #[trigger] self.functions.top.locals@[i]).1.0 < top.0 by {
                let l = origin.functions.top.locals@[i].1.0 as int;
                assert(origin.functions.top.register_allocator.allocated(l));
                assert(crate::state::local_register(origin.functions.top.locals@, l));
                assert(!func.holds_temporary(l));
            }
        }
        let ghost at = *self;
        self.functions.top.pop_to(top.0 as u16);
        proof {
            at.lemma_top_stepped(*self);
            origin.lemma_step(at, *self);
            at.functions.top.register_allocator.lemma_allocated_below_top(top.0 as int);
            assert forall|r: int| #[trigger]
                origin.functions.top.register_allocator.allocated(r) && !func.temporaries().union(
                    temporaries_of(all_args),
                ).contains(r) implies self.functions.top.register_allocator.allocated(r) by {
                assert(origin.allocated(r));
                assert(!func.holds_temporary(r));
                assert(!temporaries_of(all_args).contains(r));
                assert(at.allocated(r));
                assert(r < top.0);
            }
            assert forall|r: int| #[trigger]
                origin.allocated(r) && !func.holds_temporary(r) && !temporaries_of(
                    all_args,
                ).contains(r) implies r < top.0 by {}
            if all_args.len() == 0 {
                if callee matches ExprDescriptor::Register { is_temporary: false, .. } {
                    let register = callee->register;
                    assert(origin.functions.top.register_discharged(
                        register,
                        false,
                        ExprDestination::PushNew,
                        Ok(Some(top)),
                        pushed.functions.top,
                    ));
                    origin.functions.top.register_allocator.lemma_first_free_below_top();
                    assert forall|i: int| 0 <= i < 256 implies (
                    #[trigger] self.functions.top.register_allocator.registers@[i])
                        == origin.functions.top.register_allocator.registers@[i] by {
                        if origin.functions.top.register_allocator.registers@[i] {
                            assert(origin.functions.top.register_allocator.allocated(i));
                            origin.functions.top.register_allocator.lemma_allocated_below_top(i);
                        }
                    }
                    assert(self.functions.top.register_allocator.registers@
                        =~= origin.functions.top.register_allocator.registers@);
                    assert(called_plainly(origin, register, results, Ok(top), *self));
                }
            }
            assert forall|r: int| #[trigger]
                self.functions.top.register_allocator.allocated(
                    r,
                ) implies origin.functions.top.register_allocator.allocated(r)
                && !func.temporaries().union(temporaries_of(all_args)).contains(r) by {
                assert(at.allocated(r) && r < top.0);
                assert(origin.allocated(r) && !func.holds_temporary(r));
                assert forall|j: int| 0 <= j < all_args.len() implies !(
                #[trigger] all_args[j]).holds_temporary(r) by {
                    assert(at.allocated(r));
                }
            }
        }
        Ok(top)
    }
}

/// Whether the code emitted from `start` on holds a test that is followed by
/// a jump to the end of the code: the offset of the jump is the number of
/// instructions after it.
pub open spec fn patched_jump(start: int, code: Seq<OpCode>) -> bool {
    exists|jump: int|
        {
            &&& start < jump < code.len()
            &&& (#[trigger] code[jump]) == OpCode::Jump { offset: (code.len() - jump - 1) as i16 }
            &&& code.len() - jump - 1 <= i16::MAX
            &&& code[jump - 1] is Test || code[jump - 1] is TestSet
        }
}

/// Giving a jump its offset, after the code it jumps over has been emitted
/// as a step of the compilation, completes the step.
pub proof fn lemma_patched_steps(origin: Compiler, done: Compiler, patched: Compiler, jump: int)
    requires
        origin.steps_to(done),
        origin.functions.top.opcodes@.len() <= jump < done.functions.top.opcodes@.len(),
        patched.functions.lower == done.functions.lower,
        patched.functions.top.wf(),
        done.functions.top.same_but_code(patched.functions.top),
        patched.functions.top.opcodes@ =~= done.functions.top.opcodes@.update(
            jump,
            patched.functions.top.opcodes@[jump],
        ),
    ensures
        origin.steps_to(patched),
{
    reveal(Compiler::wf);
    reveal(Compiler::extends_to);
    let a = origin.functions@;
    let b = done.functions@;
    let c = patched.functions@;
    let t = a.len() - 1;
    assert(b[t] == done.functions.top);
    assert(c[t] == patched.functions.top);
    assert(a[t] == origin.functions.top);
    assert forall|i: int| 0 <= i < c.len() implies (#[trigger] c[i]).wf() by {
        if i < t {
            assert(c[i] == b[i]);
        }
    }
    assert forall|i: int| 1 <= i < c.len() implies crate::state::captures_from(
        #[trigger] c[i],
        c[i - 1],
    ) by {
        assert(crate::state::captures_from(b[i], b[i - 1]));
        if i < t {
            assert(c[i] == b[i]);
        }
        assert(c[i - 1] == b[i - 1]);
    }
    assert forall|i: int| 0 <= i < a.len() implies (#[trigger] a[i]).grows_to(c[i]) by {
        assert(a[i].grows_to(b[i]));
        if i < t {
            assert(c[i] == b[i]);
        }
    }
}

impl CompilerFunction {
    /// Whether `other` differs from this function in its code alone.
    pub open spec fn same_but_code(self, other: CompilerFunction) -> bool {
        &&& other.constants == self.constants
        &&& other.upvalues == self.upvalues
        &&& other.prototypes == self.prototypes
        &&& other.register_allocator == self.register_allocator
        &&& other.fixed_params == self.fixed_params
        &&& other.locals == self.locals
    }
}

} // verus!
