//! Return statements.

use vstd::prelude::*;
use crate::ast::{
    expression_size, lemma_expressions_size_step, return_size, Expression, ReturnStatement,
};
use crate::cast::{u16_to_u8, usize_to_u8};
use crate::descriptor::{ExprDescriptor, ExprDestination};
use crate::error::{CompileError, CompilerLimit};
use crate::opcode::{OpCode, RegisterIndex, VarCount};
use crate::scope::{
    closed_descriptor, closed_descriptors, closed_expression, closed_expressions,
    lemma_closed_expressions_element,
};
use crate::state::Compiler;

use crate::model::{agrees, continues, follows, operand_view, operands};


verus! {

impl Compiler {
    /// Pushes the last of `count` returned values on the stack, and gives
    /// the count to return: where the value is a call, all its results are
    /// returned.
    fn push_last<'a>(&mut self, last: ExprDescriptor<'a>, count: usize) -> (r: Result<
        VarCount,
        CompileError,
    >)
        requires
            old(self).wf(),
            old(self).owns(last),
            old(self).holds(last),
            count >= 1,
        ensures
            forall|scope: Set<Seq<u8>>|
                #[trigger] closed_descriptor(last, scope) && old(self).covers(scope) ==> (r.is_ok()
                    ==> old(self).keeps_outermost(*final(self))),
            r matches Ok(returned) ==> {
                &&& old(self).steps_to(*final(self))
                &&& final(self).functions.top.locals == old(self).functions.top.locals
                &&& returned.constant() matches Some(n) ==> n == count
            },
            forall|fuel: nat|
                agrees(
                    #[trigger] crate::lowering::last_pushed(
                        fuel,
                        old(self)@,
                        operand_view(last),
                        count as int,
                    ),
                    r,
                    final(self)@,
                ),
        decreases last.weight(), 5nat,
    {
        let ghost origin = *self;
        let ghost whole = last;
        let ghost described = operand_view(last);
        proof {
            origin.lemma_start();
        }
        match last {
            ExprDescriptor::FunctionCall { func, args } => {
                proof {
                    self.lemma_owns_call(whole);
                    assert(self.holds_all(args@));
                    assert forall|scope: Set<Seq<u8>>| #[trigger]
                        closed_descriptor(whole, scope) implies closed_descriptor(*func, scope)
                        && closed_descriptors(args@, scope) by {}
                    assert forall|fuel: nat|
                        follows(
                            #[trigger] crate::lowering::last_pushed(
                                fuel,
                                origin@,
                                described,
                                count as int,
                            ),
                            crate::lowering::function_call(
                                fuel,
                                origin@,
                                operand_view(*func),
                                operands(args@),
                                VarCount(0),
                            ),
                        ) by {}
                }
                self.expr_function_call(*func, args, VarCount::make_variable())?;
                Ok(VarCount::make_variable())
            },
            expr => {
                proof {
                    assert forall|fuel: nat|
                        follows(
                            #[trigger] crate::lowering::last_pushed(
                                fuel,
                                origin@,
                                described,
                                count as int,
                            ),
                            crate::lowering::discharge(
                                fuel,
                                origin@,
                                described,
                                ExprDestination::PushNew,
                            ),
                        ) by {}
                }
                self.expr_discharge(expr, ExprDestination::PushNew)?;
                let narrowed = match usize_to_u8(count) {
                    Some(n) => n,
                    None => {
                        return Err(CompileError::Limit(CompilerLimit::Returns));
                    },
                };
                match VarCount::make_constant(narrowed) {
                    Some(returned) => Ok(returned),
                    None => Err(CompileError::Limit(CompilerLimit::Returns)),
                }
            },
        }
    }

    /// Compiles the last of `count` returned values, pushes it on the
    /// stack, returns the values from `start` upwards and gives their
    /// registers back.
    fn return_last<'a>(&mut self, last: &'a Expression, count: usize, start: u8) -> (r: Result<
        (),
        CompileError,
    >)
        requires
            old(self).wf(),
            count >= 1,
            start <= old(self).functions.top.stack_size(),
            forall|k: int|
                0 <= k < old(self).functions.top.locals@.len() ==> (
                #[trigger] old(self).functions.top.locals@[k]).1.0 < start,
        ensures
            forall|scope: Set<Seq<u8>>|
                #[trigger] closed_expression(*last, scope) && old(self).covers(scope) ==> (
                r.is_ok() ==> old(self).keeps_outermost(*final(self))),
            r matches Ok(()) ==> {
                &&& old(self).steps_to(*final(self))
                &&& final(self).functions.top.opcodes@.len() > old(self).functions.top.opcodes@.len()
                &&& final(self).functions.top.opcodes@.last() matches OpCode::Return {
                    start: from,
                    count: counted,
                }
                &&& from.0 == start
                &&& counted.constant() matches Some(n) ==> n == count
                &&& final(self).functions.top.register_allocator.stack_top <= start
            },
            forall|fuel: nat|
                agrees(
                    #[trigger] crate::lowering::last_returned(
                        fuel,
                        old(self)@,
                        *last,
                        count as int,
                        RegisterIndex(start),
                    ),
                    r,
                    final(self)@,
                ),
        decreases expression_size(*last), 6nat,
    {
        let ghost origin = *self;
        proof {
            origin.lemma_start();
            assert forall|fuel: nat|
                follows(
                    #[trigger] crate::lowering::last_returned(
                        fuel,
                        origin@,
                        *last,
                        count as int,
                        RegisterIndex(start),
                    ),
                    crate::lowering::expression(fuel, origin@, *last),
                ) by {}
        }
        let value = self.expression(last)?;
        let ghost compiled = *self;
        proof {
            assert forall|fuel: nat|
                follows(
                    #[trigger] crate::lowering::last_returned(
                        fuel,
                        origin@,
                        *last,
                        count as int,
                        RegisterIndex(start),
                    ),
                    crate::lowering::last_pushed(
                        fuel,
                        compiled@,
                        operand_view(value),
                        count as int,
                    ),
                ) by {}
        }
        let returned = self.push_last(value, count)?;
        proof {
            origin.lemma_step(compiled, *self);
            origin.lemma_covers(compiled);
        }
        let ghost at = *self;
        self.emit(OpCode::Return { start: RegisterIndex(start), count: returned });
        proof {
            origin.lemma_step(at, *self);
            self.lemma_top_wf();
        }
        let ghost at = *self;
        self.functions.top.pop_to(start as u16);
        proof {
            at.lemma_top_stepped(*self);
            origin.lemma_step(at, *self);
        }
        Ok(())
    }

    /// Pushes the returned values on the stack and returns them: the part of
    /// a return statement that has values.
    fn return_values(&mut self, return_statement: &ReturnStatement, count: usize, start: u8) -> (r:
        Result<(), CompileError>)
        requires
            old(self).wf(),
            count == return_statement.returns@.len(),
            count >= 1,
            start == old(self).functions.top.register_allocator.stack_top,
        ensures
            forall|scope: Set<Seq<u8>>|
                #[trigger] closed_expressions(
                    return_statement.returns@,
                    return_statement.returns@.len(),
                    scope,
                ) && old(self).covers(scope) ==> (r.is_ok() ==> old(self).keeps_outermost(
                    *final(self),
                )),
            r matches Ok(()) ==> {
                &&& old(self).steps_to(*final(self))
                &&& final(self).functions.top.opcodes@.len() > old(self).functions.top.opcodes@.len()
                &&& final(self).functions.top.opcodes@.last() matches OpCode::Return {
                    start: from,
                    count: counted,
                }
                &&& from.0 == start
                &&& counted.constant() matches Some(n) ==> n == count
                &&& final(self).functions.top.register_allocator.stack_top <= start
            },
            forall|fuel: nat|
                agrees(
                    #[trigger] crate::lowering::returned_from(
                        fuel,
                        old(self)@,
                        *return_statement,
                        RegisterIndex(start),
                        0,
                    ),
                    r,
                    final(self)@,
                ),
        decreases return_size(*return_statement), 0nat,
    {
        let ghost origin = *self;
        proof {
            origin.lemma_start();
            origin.lemma_top_wf();
        }
        proof {
            self.lemma_top_wf();
        }
        proof {
            assert forall|fuel: nat|
                continues(
                    #[trigger] crate::lowering::returned_from(
                        fuel,
                        origin@,
                        *return_statement,
                        RegisterIndex(start),
                        0,
                    ),
                    crate::lowering::returned_from(
                        fuel,
                        self@,
                        *return_statement,
                        RegisterIndex(start),
                        0,
                    ),
                ) by {}
        }
        let mut i: usize = 0;
        while i < count - 1
            invariant
                forall|fuel: nat|
                    continues(
                        #[trigger] crate::lowering::returned_from(
                            fuel,
                            origin@,
                            *return_statement,
                            RegisterIndex(start),
                            0,
                        ),
                        crate::lowering::returned_from(
                            fuel,
                            self@,
                            *return_statement,
                            RegisterIndex(start),
                            i as int,
                        ),
                    ),
                i <= count - 1,
                count == return_statement.returns@.len(),
                origin == *old(self),
                i == 0 ==> *self == origin,
                start == origin.functions.top.register_allocator.stack_top,
                self.functions.top.locals == origin.functions.top.locals,
                origin.steps_to(*self),
                forall|scope: Set<Seq<u8>>| #[trigger]
                    closed_expressions(
                        return_statement.returns@,
                        return_statement.returns@.len(),
                        scope,
                    ) && origin.covers(scope) ==> origin.keeps_outermost(*self),
            decreases count - 1 - i,
        {
            proof {
                lemma_expressions_size_step(return_statement.returns@, i as int);
            }
            let ghost entry = *self;
            let ghost at = *self;
            proof {
                assert forall|fuel: nat|
                    follows(
                        #[trigger] crate::lowering::returned_from(
                            fuel,
                            origin@,
                            *return_statement,
                            RegisterIndex(start),
                            0,
                        ),
                        crate::lowering::expression(
                            fuel,
                            self@,
                            return_statement.returns@[i as int],
                        ),
                    ) by {}
            }
            let expr = self.expression(&return_statement.returns[i])?;
            proof {
                origin.lemma_step(at, *self);
            }
            let ghost at = *self;
            proof {
                assert forall|fuel: nat|
                    follows(
                        #[trigger] crate::lowering::returned_from(
                            fuel,
                            origin@,
                            *return_statement,
                            RegisterIndex(start),
                            0,
                        ),
                        crate::lowering::discharge(
                            fuel,
                            self@,
                            operand_view(expr),
                            ExprDestination::PushNew,
                        ),
                    ) by {}
            }
            self.expr_discharge(expr, ExprDestination::PushNew)?;
            proof {
                origin.lemma_step(at, *self);
                assert forall|scope: Set<Seq<u8>>| #[trigger]
                    closed_expressions(
                        return_statement.returns@,
                        return_statement.returns@.len(),
                        scope,
                    ) && origin.covers(scope) implies origin.keeps_outermost(*self) by {
                    lemma_closed_expressions_element(
                        return_statement.returns@,
                        return_statement.returns@.len(),
                        scope,
                        i as int,
                    );
                    origin.lemma_covers(entry);
                    assert(closed_expression(return_statement.returns@[i as int], scope));
                    assert(closed_descriptor(expr, scope));
                    assert(at.covers(scope));
                }
            }
            proof {
                assert forall|fuel: nat|
                    continues(
                        #[trigger] crate::lowering::returned_from(
                            fuel,
                            origin@,
                            *return_statement,
                            RegisterIndex(start),
                            0,
                        ),
                        crate::lowering::returned_from(
                            fuel,
                            self@,
                            *return_statement,
                            RegisterIndex(start),
                            i + 1,
                        ),
                    ) by {}
            }
            i += 1;
        }
        let ghost entry = *self;
        proof {
            origin.lemma_top_wf();
            assert forall|k: int| 0 <= k < self.functions.top.locals@.len() implies (
            #[trigger] self.functions.top.locals@[k]).1.0 < start by {
                let l = origin.functions.top.locals@[k].1.0 as int;
                assert(origin.functions.top.register_allocator.allocated(l));
                origin.functions.top.register_allocator.lemma_allocated_below_top(l);
            }
            assert forall|fuel: nat|
                follows(
                    #[trigger] crate::lowering::returned_from(
                        fuel,
                        origin@,
                        *return_statement,
                        RegisterIndex(start),
                        0,
                    ),
                    crate::lowering::last_returned(
                        fuel,
                        self@,
                        return_statement.returns@[count - 1],
                        count as int,
                        RegisterIndex(start),
                    ),
                ) by {}
        }
        self.return_last(&return_statement.returns[count - 1], count, start)?;
        proof {
            origin.lemma_step(entry, *self);
            assert forall|scope: Set<Seq<u8>>| #[trigger]
                closed_expressions(
                    return_statement.returns@,
                    return_statement.returns@.len(),
                    scope,
                ) && origin.covers(scope) implies origin.keeps_outermost(*self) by {
                lemma_closed_expressions_element(
                    return_statement.returns@,
                    return_statement.returns@.len(),
                    scope,
                    count - 1,
                );
                origin.lemma_covers(entry);
                assert(closed_expression(return_statement.returns@[count - 1], scope));
                assert(entry.covers(scope));
            }
        }
        Ok(())
    }

    /// Compiles a return statement. The values are put at the top of the
    /// stack, in order; where the last one is a call, all its results are
    /// returned. The registers taken for the values are free again after.
    pub fn return_statement(&mut self, return_statement: &ReturnStatement) -> (r: Result<
        (),
        CompileError,
    >)
        requires
            old(self).wf(),
        ensures
            forall|scope: Set<Seq<u8>>|
                #[trigger] closed_expressions(
                    return_statement.returns@,
                    return_statement.returns@.len(),
                    scope,
                ) && old(self).covers(scope) ==> (r.is_ok() ==> old(self).keeps_outermost(
                    *final(self),
                )),
            return_statement.returns@.len() == 0 ==> {
                &&& r.is_ok()
                &&& final(self).functions.lower == old(self).functions.lower
                &&& old(self).functions.top.same_but_code(final(self).functions.top)
            },
            r matches Ok(()) ==> {
                &&& old(self).steps_to(*final(self))
                &&& final(self).functions.top.opcodes@.len() > old(self).functions.top.opcodes@.len()
                &&& final(self).functions.top.opcodes@.last() matches OpCode::Return {
                    start,
                    count,
                }
                &&& if return_statement.returns@.len() == 0 {
                    &&& start.0 == 0
                    &&& count.constant() == Some(0nat)
                    &&& final(self).functions.top.opcodes@ == old(self).functions.top.opcodes@.push(
                        OpCode::Return { start: RegisterIndex(0), count: VarCount(1) },
                    )
                } else {
                    &&& start.0 == old(self).functions.top.register_allocator.stack_top
                    &&& final(self).functions.top.register_allocator.stack_top <= start.0
                    &&& count.constant() matches Some(n) ==> n == return_statement.returns@.len()
                }
            },
            forall|fuel: nat|
                agrees(
                    #[trigger] crate::lowering::return_statement(
                        fuel,
                        old(self)@,
                        *return_statement,
                    ),
                    r,
                    final(self)@,
                ),
            forall|fuel: nat|
                agrees(
                    #[trigger] crate::lowering::return_statement(
                        fuel,
                        old(self)@,
                        *return_statement,
                    ),
                    r,
                    final(self)@,
                ),
        decreases return_size(*return_statement), 1nat,
    {
        let ghost origin = *self;
        proof {
            origin.lemma_start();
            origin.lemma_top_wf();
        }
        let count = return_statement.returns.len();
        if count == 0 {
            self.emit(OpCode::Return { start: RegisterIndex(0), count: VarCount::make_zero() });
            return Ok(());
        }
        let start: u8 = match u16_to_u8(self.functions.top.register_allocator.stack_top) {
            Some(start) => start,
            None => {
                return Err(CompileError::Limit(CompilerLimit::Registers));
            },
        };
        proof {
            self.lemma_top_wf();
            assert forall|fuel: nat|
                follows(
                    #[trigger] crate::lowering::return_statement(
                        fuel,
                        old(self)@,
                        *return_statement,
                    ),
                    crate::lowering::returned_from(
                        fuel,
                        self@,
                        *return_statement,
                        RegisterIndex(start),
                        0,
                    ),
                ) by {}
        }
        self.return_values(return_statement, count, start)?;
        Ok(())
    }
}

} // verus!
