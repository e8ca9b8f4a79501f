//! Suffixed expressions: a name or a grouped expression followed by field
//! accesses and calls; and reading and writing a field.

use vstd::prelude::*;
use crate::ast::{
    lemma_suffixes_size_step, primary_size, suffixed_size, suffixes_size, CallSuffix, FieldSuffix,
    SuffixPart, SuffixedExpression,
};
use crate::descriptor::{disjoint, ExprDescriptor, ExprDestination};
use crate::error::{CompileError, Unsupported};
use crate::scope::{
    closed_call, closed_descriptor, closed_descriptors, closed_expression, closed_expressions,
    closed_field, closed_primary, closed_suffix, closed_suffixed, lemma_closed_suffixes_element,
};
use crate::state::Compiler;
use crate::value::{copy_bytes, Value};

use crate::model::{agrees, continues, described, follows, operand_view};

use crate::walk::{lemma_accessed, lemma_call_yielded, primary_name, suffixed_name};

verus! {

impl Compiler {
    /// Writes a field of a table, and releases the table, the key and the
    /// value.
    pub(crate) fn write_field<'a>(
        &mut self,
        table: ExprDescriptor<'a>,
        key: ExprDescriptor<'a>,
        value: ExprDescriptor<'a>,
    ) -> (r: Result<(), CompileError>)
        requires
            old(self).wf(),
            old(self).owns(table),
            old(self).owns(key),
            old(self).owns(value),
            disjoint(table, key),
            disjoint(table, value),
            disjoint(key, value),
            old(self).holds(table),
            old(self).holds(key),
            old(self).holds(value),
        ensures
            forall|scope: Set<Seq<u8>>|
                #![trigger closed_descriptor(table, scope), closed_descriptor(key, scope), closed_descriptor(value, scope)]
                closed_descriptor(table, scope) && closed_descriptor(key, scope)
                    && closed_descriptor(value, scope) && old(self).covers(scope) ==> (r.is_ok()
                    ==> old(self).keeps_outermost(*final(self))),
            r.is_ok() ==> old(self).steps_to(*final(self)) && final(self).functions.top.locals
                == old(self).functions.top.locals,
            forall|fuel: nat|
                agrees(
                    #[trigger] crate::lowering::write_field(
                        fuel,
                        old(self)@,
                        operand_view(table),
                        operand_view(key),
                        operand_view(value),
                    ),
                    r,
                    final(self)@,
                ),
        decreases table.weight() + key.weight() + value.weight(), 4nat,
    {
        let ghost origin = *self;
        let ghost table_before = table;
        let ghost key_before = key;
        let ghost value_before = value;
        let mut table = table;
        let mut key = key;
        let mut value = value;
        proof {
            origin.lemma_start();
            assert forall|fuel: nat|
                follows(
                    #[trigger] crate::lowering::write_field(
                        fuel,
                        origin@,
                        operand_view(table_before),
                        operand_view(key_before),
                        operand_view(value_before),
                    ),
                    crate::lowering::set_table(
                        fuel,
                        origin@,
                        operand_view(table_before),
                        operand_view(key_before),
                        operand_view(value_before),
                    ),
                ) by {}
        }
        self.set_table(&mut table, &mut key, &mut value)?;
        let ghost table_after = table;
        let ghost key_after = key;
        let ghost value_after = value;
        let ghost written = *self;
        proof {
            assert forall|fuel: nat|
                follows(
                    #[trigger] crate::lowering::write_field(
                        fuel,
                        origin@,
                        operand_view(table_before),
                        operand_view(key_before),
                        operand_view(value_before),
                    ),
                    crate::lowering::discharge(
                        fuel,
                        written@,
                        operand_view(table_after),
                        ExprDestination::Nowhere,
                    ),
                ) by {}
        }
        self.expr_discharge(table, ExprDestination::Nowhere)?;
        let ghost first = *self;
        proof {
            origin.lemma_step(written, *self);
            assert forall|fuel: nat|
                follows(
                    #[trigger] crate::lowering::write_field(
                        fuel,
                        origin@,
                        operand_view(table_before),
                        operand_view(key_before),
                        operand_view(value_before),
                    ),
                    crate::lowering::discharge(
                        fuel,
                        first@,
                        operand_view(key_after),
                        ExprDestination::Nowhere,
                    ),
                ) by {}
        }
        self.expr_discharge(key, ExprDestination::Nowhere)?;
        let ghost second = *self;
        proof {
            origin.lemma_step(first, *self);
            assert forall|fuel: nat|
                follows(
                    #[trigger] crate::lowering::write_field(
                        fuel,
                        origin@,
                        operand_view(table_before),
                        operand_view(key_before),
                        operand_view(value_before),
                    ),
                    crate::lowering::discharge(
                        fuel,
                        second@,
                        operand_view(value_after),
                        ExprDestination::Nowhere,
                    ),
                ) by {}
        }
        self.expr_discharge(value, ExprDestination::Nowhere)?;
        proof {
            origin.lemma_step(second, *self);
            assert forall|scope: Set<Seq<u8>>|
                #![trigger closed_descriptor(table_before, scope), closed_descriptor(key_before, scope), closed_descriptor(value_before, scope)]
                closed_descriptor(table_before, scope) && closed_descriptor(key_before, scope)
                    && closed_descriptor(value_before, scope) && origin.covers(
                    scope,
                ) implies origin.keeps_outermost(*self) by {
                origin.lemma_covers(written);
                origin.lemma_covers(first);
                origin.lemma_covers(second);
                assert(closed_descriptor(table_after, scope));
                assert(closed_descriptor(key_after, scope));
                assert(closed_descriptor(value_after, scope));
                assert(written.covers(scope));
                assert(first.covers(scope));
                assert(second.covers(scope));
            }
        }
        Ok(())
    }

    /// Reads a field of a table into a new temporary register, and releases
    /// the table and the key.
    pub(crate) fn read_field<'a>(
        &mut self,
        table: ExprDescriptor<'a>,
        key: ExprDescriptor<'a>,
        Ghost(origin): Ghost<Compiler>,
        Ghost(entry): Ghost<Compiler>,
    ) -> (r: Result<ExprDescriptor<'a>, CompileError>)
        requires
            old(self).wf(),
            old(self).owns(table),
            old(self).owns(key),
            disjoint(table, key),
            old(self).holds(table),
            old(self).holds(key),
            origin.yields_only(Set::empty(), table, entry),
            entry.yields_only(Set::empty(), key, *old(self)),
        ensures
            forall|scope: Set<Seq<u8>>|
                #![trigger closed_descriptor(table, scope), closed_descriptor(key, scope)]
                closed_descriptor(table, scope) && closed_descriptor(key, scope)
                    && old(self).covers(scope) ==> (r.is_ok() ==> old(self).keeps_outermost(
                    *final(self),
                ) && closed_descriptor(r.unwrap(), scope)),
            r matches Ok(result) ==> {
                &&& old(self).steps_to(*final(self))
                &&& origin.yields_only(Set::empty(), result, *final(self))
                &&& final(self).functions.top.locals == old(self).functions.top.locals
                &&& final(self).holds(result)
                &&& result.weight() == 1
            },
            forall|fuel: nat|
                agrees(
                    #[trigger] crate::lowering::read_field(
                        fuel,
                        old(self)@,
                        operand_view(table),
                        operand_view(key),
                    ),
                    described(r),
                    final(self)@,
                ),
        decreases table.weight() + key.weight(), 4nat,
    {
        let ghost keyed = *self;
        let ghost table_before = table;
        let ghost key_before = key;
        let mut table = table;
        let mut key = key;
        proof {
            keyed.lemma_start();
            assert forall|fuel: nat|
                follows(
                    #[trigger] crate::lowering::read_field(
                        fuel,
                        keyed@,
                        operand_view(table_before),
                        operand_view(key_before),
                    ),
                    crate::lowering::get_table(
                        fuel,
                        keyed@,
                        operand_view(table_before),
                        operand_view(key_before),
                    ),
                ) by {}
        }
        let result = self.get_table(&mut table, &mut key)?;
        let ghost table_after = table;
        let ghost key_after = key;
        let ghost read = *self;
        proof {
            assert forall|fuel: nat|
                follows(
                    #[trigger] crate::lowering::read_field(
                        fuel,
                        keyed@,
                        operand_view(table_before),
                        operand_view(key_before),
                    ),
                    crate::lowering::discharge(
                        fuel,
                        read@,
                        operand_view(table_after),
                        ExprDestination::Nowhere,
                    ),
                ) by {}
        }
        self.expr_discharge(table, ExprDestination::Nowhere)?;
        let ghost freed = *self;
        proof {
            keyed.lemma_step(read, *self);
            read.lemma_owns_kept(table_after.temporaries(), freed, key_after);
            assert forall|fuel: nat|
                follows(
                    #[trigger] crate::lowering::read_field(
                        fuel,
                        keyed@,
                        operand_view(table_before),
                        operand_view(key_before),
                    ),
                    crate::lowering::discharge(
                        fuel,
                        freed@,
                        operand_view(key_after),
                        ExprDestination::Nowhere,
                    ),
                ) by {}
        }
        self.expr_discharge(key, ExprDestination::Nowhere)?;
        proof {
            keyed.lemma_step(freed, *self);
            lemma_accessed(
                origin,
                entry,
                table_before,
                keyed,
                key_before,
                read,
                table_after,
                key_after,
                result,
                freed,
                *self,
            );
            assert forall|scope: Set<Seq<u8>>|
                #![trigger closed_descriptor(table_before, scope), closed_descriptor(key_before, scope)]
                closed_descriptor(table_before, scope) && closed_descriptor(key_before, scope)
                    && keyed.covers(scope) implies keyed.keeps_outermost(*self)
                && closed_descriptor(result, scope) by {
                keyed.lemma_covers(read);
                keyed.lemma_covers(freed);
                assert(closed_descriptor(table_after, scope));
                assert(closed_descriptor(key_after, scope));
                assert(read.covers(scope));
                assert(freed.covers(scope));
            }
        }
        Ok(result)
    }

    /// Compiles a primary expression followed by field accesses and calls.
    /// A field access is made at once; a call is put off until its results
    /// are asked for.
    pub fn suffixed_expression<'a>(&mut self, suffixed: &'a SuffixedExpression) -> (r: Result<
        ExprDescriptor<'a>,
        CompileError,
    >)
        requires
            old(self).wf(),
        ensures
            forall|scope: Set<Seq<u8>>|
                #[trigger] closed_suffixed(*suffixed, scope) && old(self).covers(scope)
                    ==> (
                        r.is_ok()
                            ==> old(self).keeps_outermost(*final(self))
                                && closed_descriptor(r.unwrap(), scope)
                    ),
            suffixed_name(*suffixed) matches Some(name) ==> (old(self).local_named(name) matches Some(
                local,
            ) ==> {
                &&& r matches Ok(ExprDescriptor::Register { register, is_temporary })
                &&& register == local
                &&& !is_temporary
                &&& *final(self) == *old(self)
            }),
            r matches Ok(result) ==> {
                &&& old(self).steps_to(*final(self))
                &&& old(self).yields_only(Set::empty(), result, *final(self))
                &&& final(self).functions.top.locals == old(self).functions.top.locals
                &&& final(self).holds(result)
                &&& result.weight() < suffixed_size(*suffixed)
            },
            forall|fuel: nat|
                agrees(
                    #[trigger] crate::lowering::suffixed_expression(fuel, old(self)@, *suffixed),
                    described(r),
                    final(self)@,
                ),
        decreases suffixed_size(*suffixed), 0nat,
    {
        let ghost origin = *self;
        proof {
            origin.lemma_start();
        }
        proof {
            assert forall|fuel: nat|
                follows(
                    #[trigger] crate::lowering::suffixed_expression(fuel, old(self)@, *suffixed),
                    crate::lowering::primary_expression(fuel, self@, suffixed.primary),
                ) by {}
        }
        let mut expr = self.primary_expression(&suffixed.primary)?;
        proof {
            origin.lemma_step(origin, *self);
            assert forall|scope: Set<Seq<u8>>| #[trigger]
                closed_suffixed(*suffixed, scope) && origin.covers(
                    scope,
                ) implies origin.keeps_outermost(*self) && closed_descriptor(expr, scope) by {
                assert(closed_primary(suffixed.primary, scope));
            }
        }
        proof {
            assert forall|fuel: nat|
                continues(
                    #[trigger] crate::lowering::suffixed_expression(fuel, origin@, *suffixed),
                    crate::lowering::suffixes_from(
                        fuel,
                        self@,
                        operand_view(expr),
                        suffixed.suffixes@,
                        0,
                    ),
                ) by {}
        }
        let mut i: usize = 0;
        while i < suffixed.suffixes.len()
            invariant
                forall|fuel: nat|
                    continues(
                        #[trigger] crate::lowering::suffixed_expression(fuel, origin@, *suffixed),
                        crate::lowering::suffixes_from(
                            fuel,
                            self@,
                            operand_view(expr),
                            suffixed.suffixes@,
                            i as int,
                        ),
                    ),
                i <= suffixed.suffixes@.len(),
                forall|scope: Set<Seq<u8>>| #[trigger]
                    closed_suffixed(*suffixed, scope) && origin.covers(scope)
                        ==> origin.keeps_outermost(*self) && closed_descriptor(expr, scope),
                origin.steps_to(*self),
                origin.yields_only(Set::empty(), expr, *self),
                self.functions.top.locals == origin.functions.top.locals,
                self.holds(expr),
                expr.weight() <= primary_size(suffixed.primary) + suffixes_size(
                    suffixed.suffixes@,
                    i as nat,
                ),
                origin == *old(self),
                i == 0 ==> (primary_name(suffixed.primary) matches Some(name) ==> (
                origin.local_named(name) matches Some(local) ==> {
                    &&& expr matches ExprDescriptor::Register { register, is_temporary }
                    &&& register == local
                    &&& !is_temporary
                    &&& *self == origin
                })),
            decreases suffixed.suffixes@.len() - i,
        {
            proof {
                lemma_suffixes_size_step(suffixed.suffixes@, i as int);
                expr.lemma_weight_positive();
            }
            let ghost entry = *self;
            let ghost before = expr;
            proof {
                origin.lemma_covers(entry);
            }
            match &suffixed.suffixes[i] {
                SuffixPart::Field(field) => {
                    let mut key = match field {
                        FieldSuffix::Named(name) => ExprDescriptor::Value(
                            Value::String(copy_bytes(name)),
                        ),
                        FieldSuffix::Indexed(index) => {
                            let ghost at = *self;
                            proof {
                                assert forall|fuel: nat|
                                    follows(
                                        #[trigger] crate::lowering::suffixed_expression(
                                            fuel,
                                            old(self)@,
                                            *suffixed,
                                        ),
                                        crate::lowering::expression(
                                            (fuel - 1) as nat,
                                            self@,
                                            *index,
                                        ),
                                    ) by {}
                            }
                            let key = self.expression(index)?;
                            proof {
                                origin.lemma_step(at, *self);
                            }
                            key
                        },
                    };
                    let ghost key_before = key;
                    let ghost keyed = *self;
                    proof {
                        if field is Named {
                            entry.lemma_yields_value(Set::empty(), key);
                        }
                        entry.lemma_operands(before, key, keyed);
                    }
                    let ghost at = *self;
                    proof {
                        assert forall|fuel: nat|
                            follows(
                                #[trigger] crate::lowering::suffixed_expression(
                                    fuel,
                                    old(self)@,
                                    *suffixed,
                                ),
                                crate::lowering::read_field(
                                    fuel,
                                    self@,
                                    operand_view(expr),
                                    operand_view(key),
                                ),
                            ) by {}
                    }
                    let result = self.read_field(expr, key, Ghost(origin), Ghost(entry))?;
                    proof {
                        origin.lemma_step(at, *self);
                        assert forall|scope: Set<Seq<u8>>| #[trigger]
                            closed_suffixed(*suffixed, scope) && origin.covers(
                                scope,
                            ) implies origin.keeps_outermost(*self) && closed_descriptor(
                            result,
                            scope,
                        ) by {
                            lemma_closed_suffixes_element(
                                suffixed.suffixes@,
                                suffixed.suffixes@.len(),
                                scope,
                                i as int,
                            );
                            assert(closed_suffix(suffixed.suffixes@[i as int], scope));
                            assert(closed_field(*field, scope));
                            assert(entry.covers(scope));
                            assert(closed_descriptor(before, scope));
                            if let FieldSuffix::Indexed(index) = field {
                                assert(closed_expression(*index, scope));
                            }
                            assert(closed_descriptor(key_before, scope));
                            assert(keyed.covers(scope));
                        }
                    }
                    expr = result;
                },
                SuffixPart::Call(call) => match call {
                    CallSuffix::Function(args) => {
                        let ghost at = *self;
                        let ghost sources = args@;
                        proof {
                            assert forall|fuel: nat|
                                follows(
                                    #[trigger] crate::lowering::suffixed_expression(
                                        fuel,
                                        old(self)@,
                                        *suffixed,
                                    ),
                                    crate::lowering::expressions_from(
                                        (fuel - 1) as nat,
                                        self@,
                                        args@,
                                        0,
                                        Seq::empty(),
                                    ),
                                ) by {}
                        }
                        let args = self.expressions(args)?;
                        proof {
                            origin.lemma_step(at, *self);
                        }
                        let ghost compiled = args@;
                        expr = ExprDescriptor::FunctionCall { func: Box::new(expr), args };
                        proof {
                            lemma_call_yielded(origin, entry, before, *self, compiled, expr);
                            assert forall|scope: Set<Seq<u8>>| #[trigger]
                                closed_suffixed(*suffixed, scope) && origin.covers(
                                    scope,
                                ) implies origin.keeps_outermost(*self) && closed_descriptor(
                                expr,
                                scope,
                            ) by {
                                lemma_closed_suffixes_element(
                                    suffixed.suffixes@,
                                    suffixed.suffixes@.len(),
                                    scope,
                                    i as int,
                                );
                                assert(closed_suffix(suffixed.suffixes@[i as int], scope));
                                assert(closed_call(*call, scope));
                                assert(closed_expressions(sources, sources.len(), scope));
                                assert(entry.covers(scope));
                                assert(closed_descriptor(before, scope));
                                assert(closed_descriptors(args@, scope));
                            }
                        }
                    },
                    CallSuffix::Method(_, _) => {
                        return Err(CompileError::Unsupported(Unsupported::MethodCall));
                    },
                },
            }
            proof {
                assert forall|fuel: nat|
                    continues(
                        #[trigger] crate::lowering::suffixed_expression(fuel, origin@, *suffixed),
                        crate::lowering::suffixes_from(
                            fuel,
                            self@,
                            operand_view(expr),
                            suffixed.suffixes@,
                            i + 1,
                        ),
                    ) by {}
            }
            i += 1;
        }
        Ok(expr)
    }
}

} // verus!
