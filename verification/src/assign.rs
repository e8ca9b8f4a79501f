//! Assignments.

use vstd::prelude::*;
use crate::ast::{
    expressions_size, lemma_expressions_size_step, lemma_targets_size_step, target_size,
    targets_size, AssignmentStatement, AssignmentTarget, FieldSuffix,
};
use crate::descriptor::{ExprDescriptor, ExprDestination, VariableDescriptor};
use crate::error::CompileError;
use crate::opcode::OpCode;
use crate::scope::{
    closed_descriptor, closed_expression, closed_expressions, closed_field, closed_suffixed,
    closed_target, closed_targets, lemma_closed_expressions_element, lemma_closed_targets_element,
    named,
};
use crate::resolve::lemma_innermost_local_range;
use crate::state::{local_register, Compiler};
use crate::value::{copy_bytes, Value};

use crate::model::{agrees, continues, follows, operand_view};

use crate::statement::lemma_locals_kept;

verus! {

impl Compiler {
    /// Gives a value to one target: a local by placing the value in the
    /// local's register, an upvalue by `SetUpValue`, a global and a field by
    /// a write to the table.
    #[verifier::rlimit(100)]
    fn assign_to<'a>(&mut self, target: &'a AssignmentTarget, expr: ExprDescriptor<'a>) -> (r: Result<
        (),
        CompileError,
    >)
        requires
            old(self).wf(),
            old(self).owns(expr),
            old(self).holds(expr),
        ensures
            forall|scope: Set<Seq<u8>>|
                #![trigger closed_target(*target, scope), closed_descriptor(expr, scope)]
                closed_target(*target, scope) && closed_descriptor(expr, scope)
                    && old(self).covers(scope) ==> (r.is_ok() ==> old(self).keeps_outermost(
                    *final(self),
                )),
            r.is_ok() ==> old(self).steps_to(*final(self))
                && final(self).functions.top.locals@.len() == old(self).functions.top.locals@.len(),
            forall|fuel: nat|
                agrees(
                    #[trigger] crate::lowering::assigned(
                        fuel,
                        old(self)@,
                        *target,
                        operand_view(expr),
                    ),
                    r,
                    final(self)@,
                ),
        decreases (target_size(*target) + expr.weight() - 1) as nat, 5nat,
    {
        let ghost origin = *self;
        let ghost valued = *self;
        let ghost value = expr;
        let mut expr = expr;
        proof {
            origin.lemma_start();
            expr.lemma_weight_positive();
        }
        match target {
            AssignmentTarget::Name(name) => {
                let ghost at = *self;
                proof {
                    assert forall|fuel: nat|
                        follows(
                            #[trigger] crate::lowering::assigned(
                                fuel,
                                origin@,
                                *target,
                                operand_view(value),
                            ),
                            crate::lowering::assigned(fuel, self@, *target, operand_view(expr)),
                        ) by {}
                }
                let variable = self.find_variable(name)?;
                proof {
                    origin.lemma_step(at, *self);
                    lemma_locals_kept(at, *self);
                }
                let ghost resolved = *self;
                let ghost is_global = variable is Global;
                match variable {
                    VariableDescriptor::Local(dest) => {
                        proof {
                            self.lemma_top_wf();
                            lemma_innermost_local_range(
                                self.functions.top.locals@,
                                name@,
                                self.functions.top.locals@.len() as int,
                            );
                            assert(valued.functions@[valued.functions@.len() - 1]
                                == valued.functions.top);
                            assert(crate::state::local_register(
                                self.functions.top.locals@,
                                dest.0 as int,
                            ));
                            let j = choose|j: int|
                                0 <= j < self.functions.top.locals@.len() && (
                                #[trigger] self.functions.top.locals@[j]).1 == dest;
                            assert(self.functions.top.register_allocator.allocated(
                                self.functions.top.locals@[j].1.0 as int,
                            ));
                        }
                        let ghost at = *self;
                        proof {
                            assert forall|fuel: nat|
                                follows(
                                    #[trigger] crate::lowering::assigned(
                                        fuel,
                                        origin@,
                                        *target,
                                        operand_view(value),
                                    ),
                                    crate::lowering::discharge(
                                        fuel,
                                        self@,
                                        operand_view(expr),
                                        ExprDestination::Register(dest),
                                    ),
                                ) by {}
                        }
                        self.expr_discharge(expr, ExprDestination::Register(dest))?;
                        proof {
                            origin.lemma_step(at, *self);
                            lemma_locals_kept(at, *self);
                            assert forall|scope: Set<Seq<u8>>|
#![trigger closed_target(*target, scope), closed_descriptor(value, scope)]
closed_target(*target, scope) && closed_descriptor(value, scope) && origin.covers(scope) implies origin.keeps_outermost(*self) by {
                                assert(closed_target(*target, scope));
                                assert(closed_descriptor(value, scope));
                                assert(valued.covers(scope));
                                assert(scope.contains((*target)->Name_0@));
                                assert(named(valued.functions@, (*target)->Name_0@));
                                assert(resolved.covers(scope));
                            }
                        }
                    },
                    VariableDescriptor::UpValue(dest) => {
                        let ghost at = *self;
                        proof {
                            assert forall|fuel: nat|
                                follows(
                                    #[trigger] crate::lowering::assigned(
                                        fuel,
                                        origin@,
                                        *target,
                                        operand_view(value),
                                    ),
                                    crate::lowering::any_register(fuel, self@, operand_view(expr)),
                                ) by {}
                        }
                        let source = self.expr_any_register(&mut expr)?;
                        proof {
                            origin.lemma_step(at, *self);
                            lemma_locals_kept(at, *self);
                        }
                        let ghost held = expr;
                        let ghost at = *self;
                        self.emit(OpCode::SetUpValue { source, dest });
                        proof {
                            origin.lemma_step(at, *self);
                        }
                        let ghost at = *self;
                        proof {
                            assert forall|fuel: nat|
                                follows(
                                    #[trigger] crate::lowering::assigned(
                                        fuel,
                                        origin@,
                                        *target,
                                        operand_view(value),
                                    ),
                                    crate::lowering::discharge(
                                        fuel,
                                        self@,
                                        operand_view(expr),
                                        ExprDestination::Nowhere,
                                    ),
                                ) by {}
                        }
                        self.expr_discharge(expr, ExprDestination::Nowhere)?;
                        proof {
                            origin.lemma_step(at, *self);
                            lemma_locals_kept(at, *self);
                            assert forall|scope: Set<Seq<u8>>|
#![trigger closed_target(*target, scope), closed_descriptor(value, scope)]
closed_target(*target, scope) && closed_descriptor(value, scope) && origin.covers(scope) implies origin.keeps_outermost(*self) by {
                                assert(closed_target(*target, scope));
                                assert(closed_descriptor(value, scope));
                                assert(valued.covers(scope));
                                assert(scope.contains((*target)->Name_0@));
                                assert(named(valued.functions@, (*target)->Name_0@));
                                assert(resolved.covers(scope));
                                assert(closed_descriptor(held, scope));
                            }
                        }
                    },
                    VariableDescriptor::Global(name) => {
                        let ghost at = *self;
                        let mut env = self.get_environment()?;
                        proof {
                            origin.lemma_step(at, *self);
                            lemma_locals_kept(at, *self);
                        }
                        let mut key = ExprDescriptor::Value(Value::String(name));
                        let ghost at = *self;
                        let ghost written_table = operand_view(env);
                        let ghost written_key = operand_view(key);
                        let ghost written_value = operand_view(expr);
                        proof {
                            assert forall|fuel: nat|
                                follows(
                                    #[trigger] crate::lowering::assigned(
                                        fuel,
                                        origin@,
                                        *target,
                                        operand_view(value),
                                    ),
                                    crate::lowering::write_field(
                                        fuel,
                                        self@,
                                        written_table,
                                        written_key,
                                        written_value,
                                    ),
                                ) by {}
                        }
                        self.write_field(env, key, expr)?;
                        proof {
                            origin.lemma_step(at, *self);
                            lemma_locals_kept(at, *self);
                            assert forall|scope: Set<Seq<u8>>|
#![trigger closed_target(*target, scope), closed_descriptor(value, scope)]
closed_target(*target, scope) && closed_descriptor(value, scope) && origin.covers(scope) implies origin.keeps_outermost(*self) by {
                                assert(closed_target(*target, scope));
                                assert(closed_descriptor(value, scope));
                                assert(valued.covers(scope));
                                assert(scope.contains((*target)->Name_0@));
                                assert(named(valued.functions@, (*target)->Name_0@));
                                assert(resolved.covers(scope));
                                assert(!is_global);
                            }
                        }
                    },
                }
            },
            AssignmentTarget::Field(table, field) => {
                let ghost at = *self;
                proof {
                    assert forall|fuel: nat|
                        follows(
                            #[trigger] crate::lowering::assigned(
                                fuel,
                                origin@,
                                *target,
                                operand_view(value),
                            ),
                            crate::lowering::suffixed_expression(fuel, self@, *table),
                        ) by {}
                }
                proof {
                    assert forall|fuel: nat|
                        follows(
                            #[trigger] crate::lowering::assigned(
                                fuel,
                                origin@,
                                *target,
                                operand_view(value),
                            ),
                            crate::lowering::assigned(fuel, self@, *target, operand_view(expr)),
                        ) by {}
                }
                let mut table = self.suffixed_expression(table)?;
                proof {
                    origin.lemma_step(at, *self);
                    lemma_locals_kept(at, *self);
                }
                let ghost table_before = table;
                let mut key = match field {
                    FieldSuffix::Named(name) => ExprDescriptor::Value(
                        Value::String(copy_bytes(name)),
                    ),
                    FieldSuffix::Indexed(index) => {
                        let ghost at = *self;
                        proof {
                            assert forall|fuel: nat|
                                follows(
                                    #[trigger] crate::lowering::assigned(
                                        fuel,
                                        origin@,
                                        *target,
                                        operand_view(value),
                                    ),
                                    crate::lowering::expression(fuel, self@, *index),
                                ) by {}
                        }
                        let key = self.expression(index)?;
                        proof {
                            origin.lemma_step(at, *self);
                            lemma_locals_kept(at, *self);
                        }
                        key
                    },
                };
                let ghost key_before = key;
                let ghost at = *self;
                let ghost written_table = operand_view(table);
                let ghost written_key = operand_view(key);
                let ghost written_value = operand_view(expr);
                proof {
                    assert forall|fuel: nat|
                        follows(
                            #[trigger] crate::lowering::assigned(
                                fuel,
                                origin@,
                                *target,
                                operand_view(value),
                            ),
                            crate::lowering::write_field(
                                fuel,
                                self@,
                                written_table,
                                written_key,
                                written_value,
                            ),
                        ) by {}
                }
                self.write_field(table, key, expr)?;
                proof {
                    origin.lemma_step(at, *self);
                    lemma_locals_kept(at, *self);
                    assert forall|scope: Set<Seq<u8>>|
#![trigger closed_target(*target, scope), closed_descriptor(value, scope)]
closed_target(*target, scope) && closed_descriptor(value, scope) && origin.covers(scope) implies origin.keeps_outermost(*self) by {
                        assert(closed_target(*target, scope));
                        assert(closed_descriptor(value, scope));
                        assert(valued.covers(scope));
                        assert(closed_suffixed((*target)->Field_0, scope));
                        assert(closed_field(*field, scope));
                        if let FieldSuffix::Indexed(index) = field {
                            assert(closed_expression(*index, scope));
                        }
                        assert(closed_descriptor(table_before, scope));
                        assert(closed_descriptor(key_before, scope));
                    }
                }
            },
        }
        Ok(())
    }

    /// Compiles an assignment. Each target gets the value of its position,
    /// or nil where there is none: a local by a move into its register, an
    /// upvalue by `SetUpValue`, a global and a field by a write to the table.
    #[verifier::rlimit(50)]
    pub fn assignment(&mut self, assignment: &AssignmentStatement) -> (r: Result<(), CompileError>)
        requires
            old(self).wf(),
        ensures
            forall|scope: Set<Seq<u8>>|
                #![trigger closed_targets(assignment.targets@, assignment.targets@.len(), scope)]
                closed_targets(assignment.targets@, assignment.targets@.len(), scope)
                    && closed_expressions(assignment.values@, assignment.values@.len(), scope)
                    && old(self).covers(scope)
                        ==> (r.is_ok() ==> old(self).keeps_outermost(*final(self))),
            r matches Ok(()) ==> {
                &&& old(self).steps_to(*final(self))
                &&& final(self).functions.top.locals@.len() == old(self).functions.top.locals@.len()
            },
            forall|fuel: nat|
                agrees(
                    #[trigger] crate::lowering::assignment(fuel, old(self)@, *assignment, 0),
                    r,
                    final(self)@,
                ),
        decreases 1 + targets_size(assignment.targets@, assignment.targets@.len())
            + expressions_size(assignment.values@, assignment.values@.len()), 0nat,
    {
        let ghost origin = *self;
        proof {
            origin.lemma_start();
        }
        let mut i: usize = 0;
        while i < assignment.targets.len()
            invariant
                forall|fuel: nat|
                    continues(
                        #[trigger] crate::lowering::assignment(fuel, origin@, *assignment, 0),
                        crate::lowering::assignment(fuel, self@, *assignment, i as int),
                    ),
                i <= assignment.targets@.len(),
                origin.steps_to(*self),
                origin == *old(self),
                i == 0 ==> *self == origin,
                self.functions.top.locals@.len() == origin.functions.top.locals@.len(),
                forall|scope: Set<Seq<u8>>|
                    #![trigger closed_targets(assignment.targets@, assignment.targets@.len(), scope)]
                    closed_targets(assignment.targets@, assignment.targets@.len(), scope)
                        && closed_expressions(
                        assignment.values@,
                        assignment.values@.len(),
                        scope,
                    ) && origin.covers(scope) ==> origin.keeps_outermost(*self),
            decreases assignment.targets@.len() - i,
        {
            proof {
                lemma_targets_size_step(assignment.targets@, i as int);
                if i < assignment.values@.len() {
                    lemma_expressions_size_step(assignment.values@, i as int);
                }
            }
            let ghost entry = *self;
            let mut expr = if i < assignment.values.len() {
                let ghost at = *self;
                proof {
                    assert forall|fuel: nat|
                        follows(
                            #[trigger] crate::lowering::assignment(
                                fuel,
                                old(self)@,
                                *assignment,
                                0,
                            ),
                            crate::lowering::expression(fuel, self@, assignment.values@[i as int]),
                        ) by {}
                }
                let expr = self.expression(&assignment.values[i])?;
                proof {
                    origin.lemma_step(at, *self);
                    lemma_locals_kept(at, *self);
                }
                expr
            } else {
                ExprDescriptor::Value(Value::Nil)
            };
            let ghost value = expr;
            let ghost valued = *self;
            proof {
                origin.lemma_covers(entry);
                origin.lemma_covers(valued);
                assert forall|scope: Set<Seq<u8>>|
                    #![trigger closed_targets(assignment.targets@, assignment.targets@.len(), scope)]
                    closed_targets(assignment.targets@, assignment.targets@.len(), scope)
                        && closed_expressions(
                        assignment.values@,
                        assignment.values@.len(),
                        scope,
                    ) && origin.covers(scope) implies origin.keeps_outermost(valued)
                    && closed_descriptor(value, scope) by {
                    if i < assignment.values@.len() {
                        lemma_closed_expressions_element(
                            assignment.values@,
                            assignment.values@.len(),
                            scope,
                            i as int,
                        );
                        assert(closed_expression(assignment.values@[i as int], scope));
                    }
                    assert(entry.covers(scope));
                }
            }
            let ghost at = *self;
            proof {
                assert forall|fuel: nat|
                    follows(
                        #[trigger] crate::lowering::assignment(fuel, old(self)@, *assignment, 0),
                        crate::lowering::assigned(
                            fuel,
                            self@,
                            assignment.targets@[i as int],
                            operand_view(expr),
                        ),
                    ) by {}
            }
            self.assign_to(&assignment.targets[i], expr)?;
            proof {
                origin.lemma_step(at, *self);
                assert forall|scope: Set<Seq<u8>>|
                    #![trigger closed_targets(assignment.targets@, assignment.targets@.len(), scope)]
                    closed_targets(assignment.targets@, assignment.targets@.len(), scope)
                        && closed_expressions(
                        assignment.values@,
                        assignment.values@.len(),
                        scope,
                    ) && origin.covers(scope) implies origin.keeps_outermost(*self) by {
                    lemma_closed_targets_element(
                        assignment.targets@,
                        assignment.targets@.len(),
                        scope,
                        i as int,
                    );
                    assert(closed_target(assignment.targets@[i as int], scope));
                    assert(closed_descriptor(value, scope));
                    assert(valued.covers(scope));
                }
            }
            proof {
                assert forall|fuel: nat|
                    continues(
                        #[trigger] crate::lowering::assignment(fuel, origin@, *assignment, 0),
                        crate::lowering::assignment(fuel, self@, *assignment, i + 1),
                    ) by {}
            }
            i += 1;
        }
        Ok(())
    }
}

} // verus!
