//! The declaration of locals.

use vstd::prelude::*;
use crate::ast::{expressions_size, lemma_expressions_size_step, LocalStatement};
use crate::cast::usize_to_u8;
use crate::descriptor::{ExprDescriptor, ExprDestination};
use crate::error::{CompileError, CompilerLimit};
use crate::opcode::{RegisterIndex, VarCount};
use crate::scope::{
    closed_descriptor, closed_descriptors, closed_expression, closed_expressions,
    lemma_closed_expressions_element, name_set,
};
use crate::resolve::lemma_innermost_local_range;
use crate::walk::expression_name;
use crate::state::{local_register, Compiler};

use crate::model::{
    agrees, continues, follows, lemma_with_top_again, operand_view, operands, with_top,
};

use crate::statement::{
    copy_declared, declares_copy, lemma_local_bound, lemma_locals_cover, lemma_locals_kept,
    local_copy,
};

verus! {

impl Compiler {
    /// Compiles the declaration of locals. Each value goes to a new register
    /// that becomes the local of the same position; where the last value is
    /// a call, its results fill the locals from its position on. Values
    /// without a local are evaluated and dropped; locals without a value
    /// are nil.
    pub fn local_statement(&mut self, local_statement: &LocalStatement) -> (r: Result<
        (),
        CompileError,
    >)
        requires
            old(self).wf(),
        ensures
            forall|scope: Set<Seq<u8>>|
                #[trigger] closed_expressions(
                    local_statement.values@,
                    local_statement.values@.len(),
                    scope,
                ) && old(self).covers(scope) ==> (r.is_ok() ==> {
                    &&& old(self).keeps_outermost(*final(self))
                    &&& final(self).covers(scope.union(name_set(local_statement.names@)))
                }),
            local_copy(*local_statement, *old(self)) matches Some(source) ==> copy_declared(
                *old(self),
                source,
                r,
                *final(self),
            ),
            r matches Ok(()) ==> {
                &&& old(self).steps_to(*final(self))
                &&& final(self).functions.top.locals@.len()
                    == old(self).functions.top.locals@.len() + local_statement.names@.len()
                &&& forall|i: int|
                    0 <= i < local_statement.names@.len() ==> (
                    #[trigger] final(self).functions.top.locals@[old(self).functions.top.locals@.len() + i]).0@ == local_statement.names@[i]@
            },
            forall|fuel: nat|
                agrees(
                    #[trigger] crate::lowering::local_statement(
                        fuel,
                        old(self)@,
                        *local_statement,
                        0,
                    ),
                    r,
                    final(self)@,
                ),
        decreases 1 + expressions_size(local_statement.values@, local_statement.values@.len()),
            0nat,
    {
        let ghost origin = *self;
        proof {
            origin.lemma_start();
        }
        let name_len = local_statement.names.len();
        let val_len = local_statement.values.len();
        let ghost base = self.functions.top.locals@.len();
        let mut i: usize = 0;
        while i < val_len
            invariant
                forall|fuel: nat|
                    continues(
                        #[trigger] crate::lowering::local_statement(
                            fuel,
                            origin@,
                            *local_statement,
                            0,
                        ),
                        crate::lowering::local_statement(fuel, self@, *local_statement, i as int),
                    ),
                i <= val_len,
                name_len == local_statement.names@.len(),
                val_len == local_statement.values@.len(),
                origin == *old(self),
                i == 0 ==> *self == origin,
                i == 1 ==> (local_copy(*local_statement, origin) matches Some(source)
                    ==> declares_copy(origin, source, *self)),
                forall|scope: Set<Seq<u8>>| #[trigger]
                    closed_expressions(
                        local_statement.values@,
                        local_statement.values@.len(),
                        scope,
                    ) && origin.covers(scope) ==> origin.keeps_outermost(*self),
                origin.steps_to(*self),
                base == origin.functions.top.locals@.len(),
                self.functions.top.locals@.len() == base + (if i <= name_len {
                    i
                } else {
                    name_len
                }),
                forall|j: int|
                    0 <= j < i && j < name_len ==> (#[trigger] self.functions.top.locals@[base
                        + j]).0@ == local_statement.names@[j]@,
            decreases val_len - i,
        {
            proof {
                lemma_expressions_size_step(local_statement.values@, i as int);
            }
            let ghost entry = *self;
            let ghost at = *self;
            proof {
                assert forall|fuel: nat|
                    follows(
                        #[trigger] crate::lowering::local_statement(
                            fuel,
                            old(self)@,
                            *local_statement,
                            0,
                        ),
                        crate::lowering::expression(fuel, self@, local_statement.values@[i as int]),
                    ) by {}
            }
            let expr = self.expression(&local_statement.values[i])?;
            proof {
                origin.lemma_step(at, *self);
                lemma_locals_kept(at, *self);
                origin.lemma_covers(entry);
                assert forall|scope: Set<Seq<u8>>| #[trigger]
                    closed_expressions(
                        local_statement.values@,
                        local_statement.values@.len(),
                        scope,
                    ) && origin.covers(scope) implies origin.keeps_outermost(*self)
                    && closed_descriptor(expr, scope) && self.covers(scope) by {
                    lemma_closed_expressions_element(
                        local_statement.values@,
                        local_statement.values@.len(),
                        scope,
                        i as int,
                    );
                    assert(closed_expression(local_statement.values@[i as int], scope));
                    assert(entry.covers(scope));
                }
            }
            let ghost compiled = *self;
            let ghost value = expr;
            if i >= name_len {
                let ghost at = *self;
                proof {
                    assert forall|fuel: nat|
                        follows(
                            #[trigger] crate::lowering::local_statement(
                                fuel,
                                old(self)@,
                                *local_statement,
                                0,
                            ),
                            crate::lowering::discharge(
                                fuel,
                                self@,
                                operand_view(expr),
                                ExprDestination::Nowhere,
                            ),
                        ) by {}
                }
                self.expr_discharge(expr, ExprDestination::Nowhere)?;
                proof {
                    origin.lemma_step(at, *self);
                    lemma_locals_kept(at, *self);
                    assert forall|scope: Set<Seq<u8>>| #[trigger]
                        closed_expressions(
                            local_statement.values@,
                            local_statement.values@.len(),
                            scope,
                        ) && origin.covers(scope) implies origin.keeps_outermost(*self) by {
                        assert(closed_descriptor(value, scope));
                        assert(compiled.covers(scope));
                    }
                }
            } else {
                let last_call = i == val_len - 1;
                match expr {
                    ExprDescriptor::FunctionCall { func, args } if last_call => {
                        proof {
                            self.lemma_owns_call(value);
                            assert(self.holds_all(args@));
                        }
                        let num_returns: u8 = match usize_to_u8(name_len - val_len + 1) {
                            Some(n) => n,
                            None => {
                                return Err(CompileError::Limit(CompilerLimit::Registers));
                            },
                        };
                        let results = match VarCount::make_constant(num_returns) {
                            Some(results) => results,
                            None => {
                                return Err(CompileError::Limit(CompilerLimit::Returns));
                            },
                        };
                        let ghost at = *self;
                        proof {
                            assert forall|fuel: nat|
                                follows(
                                    #[trigger] crate::lowering::local_statement(
                                        fuel,
                                        old(self)@,
                                        *local_statement,
                                        0,
                                    ),
                                    crate::lowering::function_call(
                                        fuel,
                                        self@,
                                        operand_view(*func),
                                        operands(args@),
                                        results,
                                    ),
                                ) by {}
                        }
                        self.expr_function_call(*func, args, results)?;
                        proof {
                            origin.lemma_step(at, *self);
                            lemma_locals_kept(at, *self);
                            self.lemma_top_wf();
                            assert forall|scope: Set<Seq<u8>>| #[trigger]
                                closed_expressions(
                                    local_statement.values@,
                                    local_statement.values@.len(),
                                    scope,
                                ) && origin.covers(scope) implies origin.keeps_outermost(
                                *self,
                            ) by {
                                assert(closed_descriptor(value, scope));
                                assert(closed_descriptor(*func, scope));
                                assert(closed_descriptors(args@, scope));
                                assert(compiled.covers(scope));
                            }
                        }
                        let ghost called = *self;
                        let ghost at = *self;
                        let first = self.functions.top.push(num_returns)?;
                        proof {
                            at.lemma_top_stepped(*self);
                            origin.lemma_step(at, *self);
                            assert forall|k: int|
                                first.0 <= k < first.0 + num_returns implies !local_register(
                                self.functions.top.locals@,
                                k,
                            ) by {
                                if at.allocated(k) {
                                    at.lemma_top_wf();
                                    at.functions.top.register_allocator.lemma_allocated_below_top(k);
                                }
                                at.lemma_free_not_local(k);
                            }
                        }
                        let ghost frame = self.functions.top@;
                        proof {
                            assert(crate::lowering::results_bound(
                                frame,
                                local_statement.names@,
                                i as int,
                                first,
                                0,
                            ).locals =~= frame.locals);
                        }
                        let mut j: u8 = 0;
                        while j < num_returns
                            invariant
                                j <= num_returns,
                                called@.len() >= 1,
                                self@ == with_top(
                                    called@,
                                    crate::lowering::results_bound(
                                        frame,
                                        local_statement.names@,
                                        i as int,
                                        first,
                                        j as int,
                                    ),
                                ),
                                i + num_returns == name_len,
                                name_len == local_statement.names@.len(),
                                origin == *old(self),
                                called.keeps_outermost(*self),
                                forall|k: int|
                                    first.0 <= k < first.0 + num_returns
                                        ==> self.functions.top.register_allocator.allocated(k),
                                forall|k: int|
                                    first.0 + j <= k < first.0 + num_returns ==> !local_register(
                                        self.functions.top.locals@,
                                        k,
                                    ),
                                origin.steps_to(*self),
                                first.0 + num_returns <= self.functions.top.stack_size(),
                                base == origin.functions.top.locals@.len(),
                                self.functions.top.locals@.len() == base + i + j,
                                forall|k: int|
                                    0 <= k < i + j ==> (#[trigger] self.functions.top.locals@[base
                                        + k]).0@ == local_statement.names@[k]@,
                            decreases num_returns - j,
                        {
                            proof {
                                self.lemma_top_wf();
                            }
                            let ghost at = *self;
                            self.functions.top.bind_local(
                                &local_statement.names[i + j as usize],
                                RegisterIndex(first.0 + j),
                            );
                            proof {
                                at.lemma_top_stepped(*self);
                                origin.lemma_step(at, *self);
                                lemma_local_bound(at, *self);
                                let bound = crate::lowering::results_bound(
                                    frame,
                                    local_statement.names@,
                                    i as int,
                                    first,
                                    j as int,
                                );
                                let next = crate::lowering::results_bound(
                                    frame,
                                    local_statement.names@,
                                    i as int,
                                    first,
                                    j + 1,
                                );
                                lemma_with_top_again(called@, bound, next);
                                assert(next.locals =~= bound.locals.push(
                                    (
                                        local_statement.names@[i + j]@,
                                        RegisterIndex((first.0 + j) as u8),
                                    ),
                                ));
                                assert(self.functions.top@ == next);
                                assert forall|k: int|
                                    first.0 + j + 1 <= k < first.0 + num_returns
                                    implies !local_register(self.functions.top.locals@, k) by {
                                    if local_register(self.functions.top.locals@, k) {
                                        let n = choose|n: int|
                                            0 <= n < self.functions.top.locals@.len() && (
                                            #[trigger] self.functions.top.locals@[n]).1.0 == k;
                                        assert(self.functions.top.locals@.last().1.0 == first.0
                                            + j);
                                        assert(n < at.functions.top.locals@.len());
                                        assert(at.functions.top.locals@[n].1.0 == k);
                                        assert(local_register(at.functions.top.locals@, k));
                                    }
                                }
                            }
                            j += 1;
                        }
                        proof {
                            assert forall|scope: Set<Seq<u8>>| #[trigger]
                                closed_expressions(
                                    local_statement.values@,
                                    local_statement.values@.len(),
                                    scope,
                                ) && origin.covers(scope) implies self.covers(
                                scope.union(name_set(local_statement.names@)),
                            ) by {
                                lemma_locals_cover(origin, *self, local_statement.names@, scope);
                            }
                        }
                        return Ok(());
                    },
                    expr => {
                        let ghost at = *self;
                        proof {
                            assert forall|fuel: nat|
                                follows(
                                    #[trigger] crate::lowering::local_statement(
                                        fuel,
                                        old(self)@,
                                        *local_statement,
                                        0,
                                    ),
                                    crate::lowering::discharge(
                                        fuel,
                                        self@,
                                        operand_view(expr),
                                        ExprDestination::AllocateNew,
                                    ),
                                ) by {}
                        }
                        let placed_in = self.expr_discharge(expr, ExprDestination::AllocateNew)?;
                        proof {
                            origin.lemma_step(at, *self);
                            lemma_locals_kept(at, *self);
                            self.lemma_top_wf();
                            assert forall|scope: Set<Seq<u8>>| #[trigger]
                                closed_expressions(
                                    local_statement.values@,
                                    local_statement.values@.len(),
                                    scope,
                                ) && origin.covers(scope) implies origin.keeps_outermost(
                                *self,
                            ) by {
                                assert(closed_descriptor(value, scope));
                                assert(compiled.covers(scope));
                            }
                        }
                        let register = placed_in.unwrap();
                        proof {
                            if at.allocated(register.0 as int) {
                                assert(value.temporaries().contains(register.0 as int));
                                assert(value.holds_temporary(register.0 as int));
                            } else {
                                at.lemma_free_not_local(register.0 as int);
                            }
                        }
                        let ghost placed = *self;
                        let ghost at = *self;
                        self.functions.top.bind_local(&local_statement.names[i], register);
                        proof {
                            at.lemma_top_stepped(*self);
                            origin.lemma_step(at, *self);
                            lemma_local_bound(at, *self);
                            if i == 0 {
                                if let Some(source) = local_copy(*local_statement, origin) {
                                    assert(compiled == origin);
                                    assert(value == (ExprDescriptor::Register {
                                        register: source,
                                        is_temporary: false,
                                    }));
                                    assert(origin.functions.top.register_discharged(
                                        source,
                                        false,
                                        ExprDestination::AllocateNew,
                                        Ok(placed_in),
                                        placed.functions.top,
                                    ));
                                    origin.lemma_top_wf();
                                    lemma_innermost_local_range(
                                        origin.functions.top.locals@,
                                        expression_name(local_statement.values@[0]).unwrap(),
                                        origin.functions.top.locals@.len() as int,
                                    );
                                    assert(origin.functions@[origin.functions@.len() - 1]
                                        == origin.functions.top);
                                    let j = choose|j: int|
                                        0 <= j < origin.functions.top.locals@.len() && (
                                        #[trigger] origin.functions.top.locals@[j]).1 == source;
                                    assert(origin.functions.top.register_allocator.allocated(
                                        origin.functions.top.locals@[j].1.0 as int,
                                    ));
                                    assert(declares_copy(origin, source, *self));
                                }
                            }
                        }
                    },
                }
            }
            proof {
                assert forall|fuel: nat|
                    continues(
                        #[trigger] crate::lowering::local_statement(
                            fuel,
                            origin@,
                            *local_statement,
                            0,
                        ),
                        crate::lowering::local_statement(fuel, self@, *local_statement, i + 1),
                    ) by {}
            }
            i += 1;
        }
        proof {
            assert forall|fuel: nat|
                continues(
                    #[trigger] crate::lowering::local_statement(fuel, origin@, *local_statement, 0),
                    crate::lowering::nils_from(self@, local_statement.names@, i as int),
                ) by {}
        }
        while i < name_len
            invariant
                forall|fuel: nat|
                    continues(
                        #[trigger] crate::lowering::local_statement(
                            fuel,
                            origin@,
                            *local_statement,
                            0,
                        ),
                        crate::lowering::nils_from(self@, local_statement.names@, i as int),
                    ),
                val_len <= i,
                name_len == local_statement.names@.len(),
                val_len == local_statement.values@.len(),
                origin == *old(self),
                i == 1 ==> (local_copy(*local_statement, origin) matches Some(source)
                    ==> declares_copy(origin, source, *self)),
                i <= name_len || val_len > name_len,
                forall|scope: Set<Seq<u8>>| #[trigger]
                    closed_expressions(
                        local_statement.values@,
                        local_statement.values@.len(),
                        scope,
                    ) && origin.covers(scope) ==> origin.keeps_outermost(*self),
                origin.steps_to(*self),
                base == origin.functions.top.locals@.len(),
                self.functions.top.locals@.len() == base + (if i <= name_len {
                    i
                } else {
                    name_len
                }),
                forall|j: int|
                    0 <= j < i && j < name_len ==> (#[trigger] self.functions.top.locals@[base
                        + j]).0@ == local_statement.names@[j]@,
            decreases name_len - i,
        {
            let ghost at = *self;
            let ghost allocated_from = *self;
            let register = self.allocate()?;
            let ghost taken_frame = self.functions.top@;
            proof {
                origin.lemma_step(at, *self);
                self.lemma_top_wf();
                at.lemma_free_not_local(register.0 as int);
            }
            let ghost at = *self;
            self.functions.top.load_nil(register);
            proof {
                at.lemma_top_stepped(*self);
                origin.lemma_step(at, *self);
                self.lemma_top_wf();
            }
            let ghost at = *self;
            self.functions.top.bind_local(&local_statement.names[i], register);
            proof {
                at.lemma_top_stepped(*self);
                origin.lemma_step(at, *self);
                lemma_local_bound(at, *self);
            }
            proof {
                lemma_with_top_again(allocated_from@, taken_frame, taken_frame.store_nil(register));
                lemma_with_top_again(
                    allocated_from@,
                    taken_frame.store_nil(register),
                    taken_frame.store_nil(register).bind_local(
                        local_statement.names@[i as int]@,
                        register,
                    ),
                );
                assert forall|fuel: nat|
                    continues(
                        #[trigger] crate::lowering::local_statement(
                            fuel,
                            origin@,
                            *local_statement,
                            0,
                        ),
                        crate::lowering::nils_from(self@, local_statement.names@, i + 1),
                    ) by {}
            }
            i += 1;
        }
        proof {
            assert forall|scope: Set<Seq<u8>>| #[trigger]
                closed_expressions(
                    local_statement.values@,
                    local_statement.values@.len(),
                    scope,
                ) && origin.covers(scope) implies self.covers(
                scope.union(name_set(local_statement.names@)),
            ) by {
                lemma_locals_cover(origin, *self, local_statement.names@, scope);
            }
        }
        Ok(())
    }
}

} // verus!
