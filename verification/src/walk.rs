//! Walking the syntax tree of expressions.

use vstd::prelude::*;
use crate::ast::{
    block_size, Block, definition_size, expression_size, expressions_size, head_size,
    lemma_expressions_size_step, lemma_tail_size_step, primary_size, simple_size, tail_size,
    Expression, FunctionDefinition, HeadExpression, PrimaryExpression, SimpleExpression,
    SuffixedExpression, TableConstructor,
};
use crate::cast::usize_to_u16;
use crate::descriptor::{
    disjoint, lemma_weights_push, temporaries_of, weights, ExprDescriptor, ExprDestination,
    VariableDescriptor,
};
use crate::error::{CompileError, CompilerLimit, RegisterFault, Unsupported};
use crate::function::FunctionProto;
use crate::opcode::{BinOpArgs, OpCode, PrototypeIndex, RegisterIndex, VarCount};
use crate::ast::BinaryOperator;
use crate::operators::{
    binop_category, comparison_binop_folded, simple_binop_folded, simple_binop_in_table,
    simple_binop_instruction, BinOpCategory,
};
use crate::scope::{
    closed_block, closed_definition, closed_descriptor, closed_descriptors, closed_expression,
    closed_expressions, closed_head, closed_primary, closed_simple, closed_suffixed,
    lemma_closed_expressions_element, lemma_closed_tail_element, name_set, named,
};
use crate::state::{captures_from, nest_grows, nest_wf, Compiler, CompilerFunction};
use crate::value::{copy_bytes, Value, ValueView};

use crate::model::{
    agrees, continues, described, follows, lemma_operand_views_push, lemma_proto_views,
    lemma_proto_views_push, listed, operand_view, operands, frame_for, FrameView,
};
verus! {

impl Compiler {
    /// Compiles an expression: its head, and then each binary operator of
    /// its tail, applied to what precedes it.
    pub fn expression<'a>(&mut self, expression: &'a Expression) -> (r: Result<
        ExprDescriptor<'a>,
        CompileError,
    >)
        requires
            old(self).wf(),
        ensures
            forall|scope: Set<Seq<u8>>|
                #[trigger] closed_expression(*expression, scope) && old(self).covers(scope)
                    ==> (
                        r.is_ok()
                            ==> old(self).keeps_outermost(*final(self))
                                && closed_descriptor(r.unwrap(), scope)
                    ),
            expression_literal(*expression) matches Some(literal) ==> {
                &&& r matches Ok(ExprDescriptor::Value(value))
                &&& value@ == literal
                &&& *final(self) == *old(self)
            },
            folded_literals(*expression) matches Some(folded) ==> {
                &&& r matches Ok(ExprDescriptor::Value(value))
                &&& value@ == folded
                &&& *final(self) == *old(self)
            },
            local_operand(*old(self), *expression) matches Some(local) ==> ({
                &&& r matches Ok(ExprDescriptor::Register { register, is_temporary })
                &&& register == local
                &&& !is_temporary
                &&& *final(self) == *old(self)
            }),
            operated_on_locals(*old(self), *expression, r, *final(self)),
            r matches Ok(result) ==> {
                &&& old(self).steps_to(*final(self))
                &&& old(self).yields_only(Set::empty(), result, *final(self))
                &&& final(self).functions.top.locals == old(self).functions.top.locals
                &&& final(self).holds(result)
                &&& result.weight() < expression_size(*expression)
            },
            forall|fuel: nat|
                agrees(
                    #[trigger] crate::lowering::expression(fuel, old(self)@, *expression),
                    described(r),
                    final(self)@,
                ),
        decreases expression_size(*expression), 0nat,
    {
        let ghost origin = *self;
        proof {
            origin.lemma_start();
        }
        proof {
            assert forall|fuel: nat|
                follows(
                    #[trigger] crate::lowering::expression(fuel, old(self)@, *expression),
                    crate::lowering::head_expression(fuel, self@, *expression.head),
                ) by {}
        }
        let mut expr = self.head_expression(&expression.head)?;
        proof {
            origin.lemma_step(origin, *self);
            assert forall|scope: Set<Seq<u8>>| #[trigger]
                closed_expression(*expression, scope) && origin.covers(
                    scope,
                ) implies origin.keeps_outermost(*self) && closed_descriptor(expr, scope) by {
                assert(closed_head(*expression.head, scope));
            }
        }
        proof {
            assert forall|fuel: nat|
                continues(
                    #[trigger] crate::lowering::expression(fuel, origin@, *expression),
                    crate::lowering::tail_from(
                        fuel,
                        self@,
                        operand_view(expr),
                        expression.tail@,
                        0,
                    ),
                ) by {}
        }
        let mut i: usize = 0;
        while i < expression.tail.len()
            invariant
                forall|fuel: nat|
                    continues(
                        #[trigger] crate::lowering::expression(fuel, origin@, *expression),
                        crate::lowering::tail_from(
                            fuel,
                            self@,
                            operand_view(expr),
                            expression.tail@,
                            i as int,
                        ),
                    ),
                i <= expression.tail@.len(),
                forall|scope: Set<Seq<u8>>| #[trigger]
                    closed_expression(*expression, scope) && origin.covers(scope)
                        ==> origin.keeps_outermost(*self) && closed_descriptor(expr, scope),
                origin.yields_only(Set::empty(), expr, *self),
                origin.steps_to(*self),
                self.functions.top.locals == origin.functions.top.locals,
                self.holds(expr),
                expr.weight() <= head_size(*expression.head)
                    + tail_size(expression.tail@, i as nat),
                origin == *old(self),
                i == 0 ==> (head_literal(*expression.head) matches Some(literal) ==> {
                    &&& expr matches ExprDescriptor::Value(value)
                    &&& value@ == literal
                    &&& *self == origin
                }),
                i == 0 ==> (head_name(*expression.head) matches Some(name) ==> (origin.local_named(
                    name,
                ) matches Some(local) ==> {
                    &&& expr matches ExprDescriptor::Register { register, is_temporary }
                    &&& register == local
                    &&& !is_temporary
                    &&& *self == origin
                })),
                i == 1 && expression.tail@.len() == 1 ==> operated_on_locals(
                    origin,
                    *expression,
                    Ok(expr),
                    *self,
                ),
                i == 1 ==> (folded_literals(*expression) matches Some(folded) ==> {
                    &&& expr matches ExprDescriptor::Value(value)
                    &&& value@ == folded
                    &&& *self == origin
                }),
            decreases expression.tail@.len() - i,
        {
            proof {
                lemma_tail_size_step(expression.tail@, i as int);
            }
            let binop = expression.tail[i].0;
            let right = &expression.tail[i].1;
            let ghost at = *self;
            let ghost left = expr;
            proof {
                assert forall|fuel: nat|
                    follows(
                        #[trigger] crate::lowering::expression(fuel, old(self)@, *expression),
                        crate::lowering::binary_operator(
                            fuel,
                            self@,
                            operand_view(expr),
                            binop,
                            *right,
                        ),
                    ) by {}
            }
            expr = self.binary_operator(expr, binop, right)?;
            proof {
                assert forall|fuel: nat|
                    continues(
                        #[trigger] crate::lowering::expression(fuel, origin@, *expression),
                        crate::lowering::tail_from(
                            fuel,
                            self@,
                            operand_view(expr),
                            expression.tail@,
                            i + 1,
                        ),
                    ) by {}
                origin.lemma_step(at, *self);
                origin.lemma_yields_chain(left, at, expr, *self);
                assert forall|scope: Set<Seq<u8>>| #[trigger]
                    closed_expression(*expression, scope) && origin.covers(
                        scope,
                    ) implies origin.keeps_outermost(*self) && closed_descriptor(expr, scope) by {
                    lemma_closed_tail_element(
                        expression.tail@,
                        expression.tail@.len(),
                        scope,
                        i as int,
                    );
                    origin.lemma_covers(at);
                    assert(closed_descriptor(left, scope));
                    assert(closed_expression(*right, scope));
                }
            }
            i += 1;
        }
        Ok(expr)
    }

    pub fn head_expression<'a>(&mut self, head: &'a HeadExpression) -> (r: Result<
        ExprDescriptor<'a>,
        CompileError,
    >)
        requires
            old(self).wf(),
        ensures
            forall|scope: Set<Seq<u8>>|
                #[trigger] closed_head(*head, scope) && old(self).covers(scope)
                    ==> (
                        r.is_ok()
                            ==> old(self).keeps_outermost(*final(self))
                                && closed_descriptor(r.unwrap(), scope)
                    ),
            head_literal(*head) matches Some(literal) ==> {
                &&& r matches Ok(ExprDescriptor::Value(value))
                &&& value@ == literal
                &&& *final(self) == *old(self)
            },
            head_name(*head) matches Some(name) ==> (old(self).local_named(name) matches Some(
                local,
            ) ==> {
                &&& r matches Ok(ExprDescriptor::Register { register, is_temporary })
                &&& register == local
                &&& !is_temporary
                &&& *final(self) == *old(self)
            }),
            r matches Ok(result) ==> {
                &&& old(self).steps_to(*final(self))
                &&& old(self).yields_only(Set::empty(), result, *final(self))
                &&& final(self).functions.top.locals == old(self).functions.top.locals
                &&& final(self).holds(result)
                &&& result.weight() <= head_size(*head)
            },
            forall|fuel: nat|
                agrees(
                    #[trigger] crate::lowering::head_expression(fuel, old(self)@, *head),
                    described(r),
                    final(self)@,
                ),
        decreases head_size(*head), 0nat,
    {
        let ghost origin = *self;
        proof {
            origin.lemma_start();
        }
        match head {
            HeadExpression::Simple(simple) => {
                proof {
                    assert forall|scope: Set<Seq<u8>>| #[trigger]
                        closed_head(*head, scope) implies closed_simple(*simple, scope) by {}
                }
                proof {
                    assert forall|fuel: nat|
                        follows(
                            #[trigger] crate::lowering::head_expression(fuel, old(self)@, *head),
                            crate::lowering::simple_expression(fuel, self@, *simple),
                        ) by {}
                }
                self.simple_expression(simple)
            },
            HeadExpression::UnaryOperator(unop, operand) => {
                proof {
                    assert forall|scope: Set<Seq<u8>>| #[trigger]
                        closed_head(*head, scope) implies closed_expression(*operand, scope) by {}
                }
                proof {
                    assert forall|fuel: nat|
                        follows(
                            #[trigger] crate::lowering::head_expression(fuel, old(self)@, *head),
                            crate::lowering::expression((fuel - 1) as nat, self@, *operand),
                        ) by {}
                }
                let expr = self.expression(operand)?;
                proof {
                    origin.lemma_step(origin, *self);
                }
                let ghost at = *self;
                proof {
                    assert forall|fuel: nat|
                        follows(
                            #[trigger] crate::lowering::head_expression(fuel, old(self)@, *head),
                            crate::lowering::unary_operator(fuel, self@, *unop, operand_view(expr)),
                        ) by {}
                }
                let result = self.unary_operator(*unop, expr)?;
                proof {
                    origin.lemma_step(at, *self);
                    origin.lemma_yields_chain(expr, at, result, *self);
                }
                Ok(result)
            },
        }
    }

    /// Compiles a literal, a table constructor, a function or a suffixed
    /// expression. A literal becomes a value that is known; nothing is
    /// emitted for it.
    pub fn simple_expression<'a>(&mut self, simple: &'a SimpleExpression) -> (r: Result<
        ExprDescriptor<'a>,
        CompileError,
    >)
        requires
            old(self).wf(),
        ensures
            forall|scope: Set<Seq<u8>>|
                #[trigger] closed_simple(*simple, scope) && old(self).covers(scope)
                    ==> (
                        r.is_ok()
                            ==> old(self).keeps_outermost(*final(self))
                                && closed_descriptor(r.unwrap(), scope)
                    ),
            *simple is VarArgs ==> (r matches Err(e) && e == CompileError::Unsupported(
                Unsupported::VarArgsExpression,
            )),
            literal_value(*simple) matches Some(literal) ==> {
                &&& r matches Ok(ExprDescriptor::Value(value))
                &&& value@ == literal
                &&& *final(self) == *old(self)
            },
            simple_name(*simple) matches Some(name) ==> (old(self).local_named(name) matches Some(
                local,
            ) ==> {
                &&& r matches Ok(ExprDescriptor::Register { register, is_temporary })
                &&& register == local
                &&& !is_temporary
                &&& *final(self) == *old(self)
            }),
            r matches Ok(result) ==> {
                &&& old(self).steps_to(*final(self))
                &&& old(self).yields_only(Set::empty(), result, *final(self))
                &&& final(self).functions.top.locals == old(self).functions.top.locals
                &&& final(self).holds(result)
                &&& result.weight() <= simple_size(*simple)
            },
            forall|fuel: nat|
                agrees(
                    #[trigger] crate::lowering::simple_expression(fuel, old(self)@, *simple),
                    described(r),
                    final(self)@,
                ),
        decreases simple_size(*simple), 0nat,
    {
        proof {
            self.lemma_start();
        }
        match simple {
            SimpleExpression::Float(bits) => Ok(ExprDescriptor::Value(Value::Number(*bits))),
            SimpleExpression::Integer(i) => Ok(ExprDescriptor::Value(Value::Integer(*i))),
            SimpleExpression::String(s) => Ok(
                ExprDescriptor::Value(Value::String(copy_bytes(s))),
            ),
            SimpleExpression::Nil => Ok(ExprDescriptor::Value(Value::Nil)),
            SimpleExpression::True => Ok(ExprDescriptor::Value(Value::Boolean(true))),
            SimpleExpression::False => Ok(ExprDescriptor::Value(Value::Boolean(false))),
            SimpleExpression::VarArgs => Err(
                CompileError::Unsupported(Unsupported::VarArgsExpression),
            ),
            SimpleExpression::TableConstructor(table_constructor) => self.table_constructor(
                table_constructor,
            ),
            SimpleExpression::Function(function) => {
                proof {
                    assert forall|scope: Set<Seq<u8>>| #[trigger]
                        closed_simple(*simple, scope) implies closed_definition(
                        *function,
                        scope,
                    ) by {}
                }
                proof {
                    assert forall|fuel: nat|
                        follows(
                            #[trigger] crate::lowering::simple_expression(
                                fuel,
                                old(self)@,
                                *simple,
                            ),
                            crate::lowering::function_expression(fuel, self@, *function),
                        ) by {}
                }
                self.function_expression(function)
            },
            SimpleExpression::Suffixed(suffixed) => {
                proof {
                    assert forall|scope: Set<Seq<u8>>| #[trigger]
                        closed_simple(*simple, scope)
                            implies closed_suffixed(*suffixed, scope) by {}
                }
                proof {
                    assert forall|fuel: nat|
                        follows(
                            #[trigger] crate::lowering::simple_expression(
                                fuel,
                                old(self)@,
                                *simple,
                            ),
                            crate::lowering::suffixed_expression(fuel, self@, *suffixed),
                        ) by {}
                }
                self.suffixed_expression(suffixed)
            },
        }
    }

    /// Makes a new table in a new temporary register. Only the empty
    /// constructor is lowered.
    pub fn table_constructor(&mut self, table_constructor: &TableConstructor) -> (r: Result<
        ExprDescriptor<'static>,
        CompileError,
    >)
        requires
            old(self).wf(),
        ensures
            r.is_ok() ==> old(self).keeps_outermost(*final(self)),
            final(self).functions.lower == old(self).functions.lower,
            old(self).functions.top.same_but_registers_and_code(final(self).functions.top),
            if table_constructor.fields@.len() > 0 {
                &&& r matches Err(e)
                &&& e == CompileError::Unsupported(Unsupported::TableFields)
                &&& *final(self) == *old(self)
            } else if old(self).functions.top.register_allocator.first_free >= 256 {
                r matches Err(e) && e == CompileError::Limit(CompilerLimit::Registers)
            } else {
                &&& r matches Ok(ExprDescriptor::Register { register, is_temporary })
                &&& is_temporary
                &&& register.0 == old(self).functions.top.register_allocator.first_free
                &&& old(self).functions.top.register_allocator.allocates_to(
                    final(self).functions.top.register_allocator,
                )
                &&& final(self).functions.top.opcodes@ == old(self).functions.top.opcodes@.push(
                    OpCode::NewTable { dest: register },
                )
            },
            r matches Ok(result) ==> {
                &&& old(self).steps_to(*final(self))
                &&& old(self).yields_only(Set::empty(), result, *final(self))
                &&& final(self).functions.top.locals == old(self).functions.top.locals
                &&& final(self).holds(result)
                &&& result.weight() == 1
            },
            agrees(
                crate::lowering::table_constructor(old(self)@, *table_constructor),
                described(r),
                final(self)@,
            ),
    {
        let ghost origin = *self;
        proof {
            origin.lemma_start();
        }
        if table_constructor.fields.len() > 0 {
            return Err(CompileError::Unsupported(Unsupported::TableFields));
        }
        let dest = self.allocate()?;
        proof {
            origin.lemma_step(origin, *self);
        }
        let ghost at = *self;
        self.emit(OpCode::NewTable { dest });
        proof {
            origin.lemma_step(at, *self);
            origin.lemma_keeps_own(Set::empty());
            origin.lemma_yields_allocated(origin, *self, dest);
        }
        Ok(ExprDescriptor::Register { register: dest, is_temporary: true })
    }

    /// Compiles a function and makes a closure of it in a new temporary
    /// register.
    pub fn function_expression(&mut self, function: &FunctionDefinition) -> (r: Result<
        ExprDescriptor<'static>,
        CompileError,
    >)
        requires
            old(self).wf(),
        ensures
            forall|scope: Set<Seq<u8>>|
                #[trigger] closed_definition(*function, scope) && old(self).covers(scope)
                    ==> (r.is_ok() ==> old(self).keeps_outermost(*final(self))),
            function.has_varargs ==> (r matches Err(e) && e == CompileError::Unsupported(
                Unsupported::VarArgsFunction,
            )),
            does_nothing(*function) ==> closure_made(*old(self), *function, r, *final(self)),
            r matches Ok(result) ==> {
                &&& old(self).steps_to(*final(self))
                &&& old(self).yields_only(Set::empty(), result, *final(self))
                &&& final(self).functions.top.locals == old(self).functions.top.locals
                &&& final(self).holds(result)
                &&& result.weight() == 1
                &&& result matches ExprDescriptor::Register { register, is_temporary }
                &&& is_temporary
                &&& final(self).functions.top.prototypes@.len()
                    == old(self).functions.top.prototypes@.len() + 1
                &&& final(self).functions.top.opcodes@.len() > 0
                &&& final(self).functions.top.opcodes@.last() == (OpCode::Closure {
                    proto: PrototypeIndex(old(self).functions.top.prototypes@.len() as u16),
                    dest: register,
                })
            },
            forall|fuel: nat|
                agrees(
                    #[trigger] crate::lowering::function_expression(fuel, old(self)@, *function),
                    described(r),
                    final(self)@,
                ),
        decreases definition_size(*function), 1nat,
    {
        let ghost origin = *self;
        proof {
            origin.lemma_start();
        }
        proof {
            assert forall|fuel: nat|
                follows(
                    #[trigger] crate::lowering::function_expression(fuel, old(self)@, *function),
                    crate::lowering::new_prototype((fuel - 1) as nat, self@, *function),
                ) by {}
        }
        let proto = self.new_prototype(function)?;
        proof {
            origin.lemma_step(origin, *self);
        }
        let ghost made = *self;
        let ghost at = *self;
        let dest = self.allocate()?;
        proof {
            origin.lemma_step(at, *self);
        }
        let ghost at = *self;
        self.emit(OpCode::Closure { proto, dest });
        proof {
            origin.lemma_step(at, *self);
            origin.lemma_yields_allocated(made, *self, dest);
        }
        Ok(ExprDescriptor::Register { register: dest, is_temporary: true })
    }

    /// Compiles each of the expressions, in order.
    pub fn expressions<'a>(&mut self, expressions: &'a Vec<Expression>) -> (r: Result<
        Vec<ExprDescriptor<'a>>,
        CompileError,
    >)
        requires
            old(self).wf(),
        ensures
            forall|scope: Set<Seq<u8>>|
                #[trigger] closed_expressions(expressions@, expressions@.len(), scope)
                    && old(self).covers(scope)
                        ==> (
                            r.is_ok()
                                ==> old(self).keeps_outermost(*final(self))
                                    && closed_descriptors(r.unwrap()@, scope)
                        ),
            expressions@.len() == 0 ==> {
                &&& r matches Ok(results)
                &&& results@.len() == 0
                &&& *final(self) == *old(self)
            },
            r matches Ok(results) ==> {
                &&& old(self).steps_to(*final(self))
                &&& old(self).keeps_registers(Set::empty(), *final(self))
                &&& old(self).accounts(Set::empty(), temporaries_of(results@), *final(self))
                &&& final(self).owns_all(results@)
                &&& forall|i: int, r: int|
                    0 <= i < results@.len() && #[trigger] results@[i].holds_temporary(r)
                        ==> !old(self).allocated(r)
                &&& final(self).functions.top.locals == old(self).functions.top.locals
                &&& final(self).holds_all(results@)
                &&& results@.len() == expressions@.len()
                &&& weights(results@, results@.len()) <= expressions_size(
                    expressions@,
                    expressions@.len(),
                )
            },
            forall|fuel: nat|
                agrees(
                    #[trigger] crate::lowering::expressions_from(
                        fuel,
                        old(self)@,
                        expressions@,
                        0,
                        Seq::empty(),
                    ),
                    listed(r),
                    final(self)@,
                ),
        decreases expressions_size(expressions@, expressions@.len()), 1nat,
    {
        let ghost origin = *self;
        proof {
            origin.lemma_start();
        }
        let mut results: Vec<ExprDescriptor<'a>> = Vec::new();
        let mut i: usize = 0;
        proof {
            assert(operands(results@) =~= Seq::empty());
        }
        while i < expressions.len()
            invariant
                origin == *old(self),
                forall|fuel: nat|
                    continues(
                        #[trigger] crate::lowering::expressions_from(
                            fuel,
                            origin@,
                            expressions@,
                            0,
                            Seq::empty(),
                        ),
                        crate::lowering::expressions_from(
                            fuel,
                            self@,
                            expressions@,
                            i as int,
                            operands(results@),
                        ),
                    ),
                i <= expressions@.len(),
                origin.steps_to(*self),
                forall|scope: Set<Seq<u8>>| #[trigger]
                    closed_expressions(expressions@, expressions@.len(), scope) && origin.covers(
                        scope,
                    ) ==> origin.keeps_outermost(*self) && closed_descriptors(results@, scope),
                self.functions.top.locals == origin.functions.top.locals,
                self.holds_all(results@),
                origin.keeps_registers(Set::empty(), *self),
                i == 0 ==> *self == origin,
                origin.accounts(Set::empty(), temporaries_of(results@), *self),
                self.owns_all(results@),
                forall|j: int, r: int|
                    0 <= j < results@.len() && #[trigger] results@[j].holds_temporary(r)
                        ==> !origin.allocated(r),
                results@.len() == i,
                weights(results@, results@.len()) <= expressions_size(expressions@, i as nat),
            decreases expressions@.len() - i,
        {
            proof {
                lemma_expressions_size_step(expressions@, i as int);
            }
            let ghost at = *self;
            let ghost before = results@;
            proof {
                assert forall|fuel: nat|
                    follows(
                        #[trigger] crate::lowering::expressions_from(
                            fuel,
                            old(self)@,
                            expressions@,
                            0,
                            Seq::empty(),
                        ),
                        crate::lowering::expression(fuel, self@, expressions@[i as int]),
                    ) by {}
            }
            let expr = self.expression(&expressions[i])?;
            proof {
                origin.lemma_step(at, *self);
                lemma_weights_push(before, expr);
            }
            results.push(expr);
            proof {
                lemma_operand_views_push(before, expr);
                assert forall|fuel: nat|
                    continues(
                        #[trigger] crate::lowering::expressions_from(
                            fuel,
                            origin@,
                            expressions@,
                            0,
                            Seq::empty(),
                        ),
                        crate::lowering::expressions_from(
                            fuel,
                            self@,
                            expressions@,
                            i + 1,
                            operands(results@),
                        ),
                    ) by {}
                origin.lemma_kept_then(Set::empty(), at, Set::empty(), *self);
                origin.lemma_kept_wider(
                    Set::<int>::empty().union(Set::empty()),
                    *self,
                    Set::empty(),
                );
                lemma_owns_pushed(at, before, expr, *self, results@);
                assert forall|r: int| #[trigger]
                    self.functions.top.register_allocator.allocated(
                        r,
                    ) implies origin.functions.top.register_allocator.allocated(r)
                    || temporaries_of(results@).contains(r) by {
                    if expr.temporaries().contains(r) {
                        assert(results@[before.len() as int].holds_temporary(r));
                    } else {
                        assert(at.functions.top.register_allocator.allocated(r));
                        if temporaries_of(before).contains(r) {
                            let j = choose|j: int|
                                0 <= j < before.len() && (#[trigger] before[j]).holds_temporary(r);
                            assert(results@[j] == before[j]);
                            assert(results@[j].holds_temporary(r));
                        }
                    }
                }
                assert forall|j: int, r: int|
                    0 <= j < results@.len() && #[trigger] results@[j].holds_temporary(
                        r,
                    ) implies !origin.allocated(r) by {
                    if j < before.len() {
                        assert(results@[j] == before[j]);
                        assert(before[j].holds_temporary(r));
                    } else {
                        assert(results@[j] == expr);
                        if origin.allocated(r) {
                            assert(origin.functions.top.register_allocator.allocated(r));
                            assert(at.allocated(r));
                        }
                    }
                }
                assert forall|scope: Set<Seq<u8>>| #[trigger]
                    closed_expressions(expressions@, expressions@.len(), scope) && origin.covers(
                        scope,
                    ) implies origin.keeps_outermost(*self) && closed_descriptors(
                    results@,
                    scope,
                ) by {
                    lemma_closed_expressions_element(
                        expressions@,
                        expressions@.len(),
                        scope,
                        i as int,
                    );
                    origin.lemma_covers(at);
                    assert(closed_descriptors(before, scope));
                    assert(closed_descriptor(expr, scope));
                    assert forall|j: int| 0 <= j < results@.len() implies closed_descriptor(
                        #[trigger] results@[j],
                        scope,
                    ) by {
                        if j < before.len() {
                            assert(results@[j] == before[j]);
                        }
                    }
                }
                assert forall|j: int| 0 <= j < results@.len() implies (#[trigger] results@[j]).fits(
                    self.functions.top.stack_size(),
                    self.functions.top.upvalues@.len() as int,
                ) by {
                    if j < before.len() {
                        assert(results@[j] == before[j]);
                        assert(self.holds_all(before));
                    }
                }
            }
            i += 1;
        }
        Ok(results)
    }


    /// Compiles a name or an expression in parentheses. A name that is a
    /// global is read from the table of the environment.
    pub fn primary_expression<'a>(&mut self, primary: &'a PrimaryExpression) -> (r: Result<
        ExprDescriptor<'a>,
        CompileError,
    >)
        requires
            old(self).wf(),
        ensures
            forall|scope: Set<Seq<u8>>|
                #[trigger] closed_primary(*primary, scope) && old(self).covers(scope)
                    ==> (
                        r.is_ok()
                            ==> old(self).keeps_outermost(*final(self))
                                && closed_descriptor(r.unwrap(), scope)
                    ),
            primary_name(*primary) matches Some(name) ==> (old(self).local_named(name) matches Some(
                local,
            ) ==> {
                &&& r matches Ok(ExprDescriptor::Register { register, is_temporary })
                &&& register == local
                &&& !is_temporary
                &&& *final(self) == *old(self)
            }),
            r matches Ok(result) ==> {
                &&& old(self).steps_to(*final(self))
                &&& old(self).yields_only(Set::empty(), result, *final(self))
                &&& final(self).functions.top.locals == old(self).functions.top.locals
                &&& final(self).holds(result)
                &&& result.weight() <= primary_size(*primary)
            },
            forall|fuel: nat|
                agrees(
                    #[trigger] crate::lowering::primary_expression(fuel, old(self)@, *primary),
                    described(r),
                    final(self)@,
                ),
        decreases primary_size(*primary), 0nat,
    {
        let ghost origin = *self;
        proof {
            origin.lemma_start();
        }
        match primary {
            PrimaryExpression::Name(name) => {
                proof {
                    assert forall|scope: Set<Seq<u8>>| #[trigger]
                        closed_primary(*primary, scope) && origin.covers(scope) implies named(
                        origin.functions@,
                        name@,
                    ) by {
                        assert(scope.contains(name@));
                    }
                }
                let variable = self.find_variable(name)?;
                proof {
                    origin.lemma_step(origin, *self);
                }
                match variable {
                    VariableDescriptor::Local(register) => Ok(
                        ExprDescriptor::Register { register, is_temporary: false },
                    ),
                    VariableDescriptor::UpValue(index) => Ok(ExprDescriptor::UpValue(index)),
                    VariableDescriptor::Global(name) => {
                        let ghost at = *self;
                        let mut env = self.get_environment()?;
                        proof {
                            origin.lemma_step(at, *self);
                        }
                        let mut key = ExprDescriptor::Value(Value::String(name));
                        let ghost at = *self;
                        proof {
                            assert forall|fuel: nat|
                                follows(
                                    #[trigger] crate::lowering::primary_expression(
                                        fuel,
                                        old(self)@,
                                        *primary,
                                    ),
                                    crate::lowering::get_table(
                                        fuel,
                                        self@,
                                        operand_view(env),
                                        operand_view(key),
                                    ),
                                ) by {}
                        }
                        let result = self.get_table(&mut env, &mut key)?;
                        proof {
                            origin.lemma_step(at, *self);
                        }
                        let ghost at = *self;
                        proof {
                            assert forall|fuel: nat|
                                follows(
                                    #[trigger] crate::lowering::primary_expression(
                                        fuel,
                                        old(self)@,
                                        *primary,
                                    ),
                                    crate::lowering::discharge(
                                        fuel,
                                        self@,
                                        operand_view(env),
                                        ExprDestination::Nowhere,
                                    ),
                                ) by {}
                        }
                        self.expr_discharge(env, ExprDestination::Nowhere)?;
                        proof {
                            origin.lemma_step(at, *self);
                        }
                        let ghost at = *self;
                        proof {
                            assert forall|fuel: nat|
                                follows(
                                    #[trigger] crate::lowering::primary_expression(
                                        fuel,
                                        old(self)@,
                                        *primary,
                                    ),
                                    crate::lowering::discharge(
                                        fuel,
                                        self@,
                                        operand_view(key),
                                        ExprDestination::Nowhere,
                                    ),
                                ) by {}
                        }
                        self.expr_discharge(key, ExprDestination::Nowhere)?;
                        proof {
                            origin.lemma_step(at, *self);
                        }
                        Ok(result)
                    },
                }
            },
            PrimaryExpression::GroupedExpression(expression) => {
                proof {
                    assert forall|scope: Set<Seq<u8>>| #[trigger]
                        closed_primary(*primary, scope) implies closed_expression(
                        *expression,
                        scope,
                    ) by {}
                }
                proof {
                    assert forall|fuel: nat|
                        follows(
                            #[trigger] crate::lowering::primary_expression(
                                fuel,
                                old(self)@,
                                *primary,
                            ),
                            crate::lowering::expression((fuel - 1) as nat, self@, *expression),
                        ) by {}
                }
                let result = self.expression(expression)?;
                Ok(result)
            },
        }
    }

    /// Compiles the body of the innermost function. At its end the top of
    /// the register stack is the number of locals, and so every register
    /// that is still allocated holds a local. A body that ends otherwise has
    /// leaked a register, and is rejected.
    pub fn function_body(&mut self, body: &Block) -> (r: Result<(), CompileError>)
        requires
            old(self).wf(),
        ensures
            forall|scope: Set<Seq<u8>>|
                #[trigger] closed_block(*body, scope) && old(self).covers(scope)
                    ==> (r.is_ok() ==> old(self).keeps_outermost(*final(self))),
            r matches Ok(()) ==> {
                &&& old(self).steps_to(*final(self))
                &&& final(self).functions.top.register_allocator.stack_top
                    == final(self).functions.top.locals@.len()
                &&& final(self).tidy()
                &&& final(self).functions.top.opcodes@.len() > old(self).functions.top.opcodes@.len()
                &&& final(self).functions.top.opcodes@.last() is Return
            },
            body.statements@.len() == 0 && body.return_statement.is_none() ==> {
                &&& final(self).functions.lower == old(self).functions.lower
                &&& old(self).functions.top.same_but_code(final(self).functions.top)
                &&& final(self).functions.top.opcodes@ == old(self).functions.top.opcodes@.push(
                    OpCode::Return { start: RegisterIndex(0), count: VarCount(1) },
                )
                &&& r.is_ok()
                    == (
                        old(self).functions.top.register_allocator.stack_top
                            == old(self).functions.top.locals@.len()
                    )
                &&& r matches Err(e) ==> e == CompileError::Register(RegisterFault::Leak)
            },
            forall|fuel: nat|
                agrees(
                    #[trigger] crate::lowering::function_body(fuel, old(self)@, *body),
                    r,
                    final(self)@,
                ),
        decreases block_size(*body), 1nat,
    {
        proof {
            assert forall|fuel: nat|
                follows(
                    #[trigger] crate::lowering::function_body(fuel, old(self)@, *body),
                    crate::lowering::block(fuel, self@, *body),
                ) by {}
        }
        self.block(body)?;
        if self.functions.top.register_allocator.stack_top as usize
            != self.functions.top.locals.len() {
            return Err(CompileError::Register(RegisterFault::Leak));
        }
        proof {
            self.lemma_balanced();
        }
        Ok(())
    }

    /// Compiles a function into a prototype, adds that to the prototypes of
    /// the function around it, and returns its index there. At the end of the
    /// body every register that is still allocated must hold a local.
    #[verifier::rlimit(30)]
    pub fn new_prototype(&mut self, function: &FunctionDefinition) -> (r: Result<
        PrototypeIndex,
        CompileError,
    >)
        requires
            old(self).wf(),
        ensures
            forall|scope: Set<Seq<u8>>|
                #[trigger] closed_definition(*function, scope) && old(self).covers(scope)
                    ==> (r.is_ok() ==> old(self).keeps_outermost(*final(self))),
            function.has_varargs ==> (r matches Err(e) && e == CompileError::Unsupported(
                Unsupported::VarArgsFunction,
            )),
            does_nothing(*function) ==> prototype_added(*old(self), *function, r, *final(self)),
            r matches Ok(index) ==> {
                &&& old(self).steps_to(*final(self))
                &&& index.0 == old(self).functions.top.prototypes@.len()
                &&& final(self).functions.top.prototypes@.len()
                    == old(self).functions.top.prototypes@.len() + 1
                &&& final(self).functions.top.prototypes@.last().fixed_params
                    == function.parameters@.len()
                &&& final(self).functions.top.prototypes@.last().wf()
                &&& final(self).functions.top.constants == old(self).functions.top.constants
                &&& final(self).functions.top.opcodes == old(self).functions.top.opcodes
                &&& final(self).functions.top.locals == old(self).functions.top.locals
                &&& final(self).functions.top.register_allocator
                    == old(self).functions.top.register_allocator
            },
            forall|fuel: nat|
                agrees(
                    #[trigger] crate::lowering::new_prototype(fuel, old(self)@, *function),
                    r,
                    final(self)@,
                ),
        decreases definition_size(*function), 0nat,
    {
        if function.has_varargs {
            return Err(CompileError::Unsupported(Unsupported::VarArgsFunction));
        }
        let inner = CompilerFunction::with_parameters(&function.parameters)?;
        let ghost origin = *self;
        self.functions.push(inner);
        proof {
            lemma_entered(origin, *self);
            assert forall|scope: Set<Seq<u8>>| #[trigger]
                origin.covers(scope) implies self.covers(
                scope.union(name_set(function.parameters@)),
            ) by {
                lemma_entered_covers(origin, *self, function.parameters@, scope);
            }
        }
        let ghost entered = *self;
        proof {
            assert(entered@ =~= origin@.push(frame_for(function.parameters@)));
            assert forall|fuel: nat|
                follows(
                    #[trigger] crate::lowering::new_prototype(fuel, old(self)@, *function),
                    crate::lowering::function_body(fuel, self@, function.body),
                ) by {}
        }
        self.function_body(&function.body)?;
        let ghost compiled = *self;
        proof {
            lemma_leaving(origin, entered, compiled);
            assert(entered.functions@[0] == origin.functions@[0]);
            assert forall|scope: Set<Seq<u8>>| #[trigger]
                closed_definition(*function, scope) && origin.covers(
                    scope,
                ) implies origin.keeps_outermost(compiled) by {
                assert(closed_block(function.body, scope.union(name_set(function.parameters@))));
            }
        }
        let finished = self.functions.pop();
        let proto = finished.to_proto();
        proof {
            assert(self@ =~= compiled@.drop_last());
            assert(finished@ == compiled@.last());
            self.lemma_top_view(*self);
            lemma_proto_views(
                self.functions.top.prototypes@,
                self.functions.top.prototypes@.len(),
            );
        }
        proof {
            if does_nothing(*function) {
                assert(compiled.functions.lower == entered.functions.lower);
                assert(entered.functions.lower@ == origin.functions@);
                assert(self.functions@ == origin.functions@);
                assert(self.functions.lower@ =~= origin.functions.lower@) by {
                    assert(self.functions@.drop_last() =~= self.functions.lower@);
                    assert(origin.functions@.drop_last() =~= origin.functions.lower@);
                }
                assert(self.functions.top == origin.functions.top) by {
                    assert(self.functions@.last() == self.functions.top);
                    assert(origin.functions@.last() == origin.functions.top);
                }
                assert(finished.upvalues@.len() == 0);
                assert(proto.upvalues@.len() == 0);
                assert(proto.opcodes@ =~= seq![
                    OpCode::Return { start: RegisterIndex(0), count: VarCount(1) },
                ]);
            }
        }
        let index = match usize_to_u16(self.functions.top.prototypes.len()) {
            Some(index) => index,
            None => {
                return Err(CompileError::Limit(CompilerLimit::Functions));
            },
        };
        let ghost left = *self;
        self.functions.top.prototypes.push(proto);
        proof {
            lemma_proto_views_push(left.functions.top.prototypes@, proto);
            left.lemma_top_view(*self);
            assert(self.functions.top@ == (FrameView {
                prototypes: left@.last().prototypes.push(compiled@.last().to_proto()),
                ..left@.last()
            }));
            assert(self.functions.top.prototypes@.drop_last() =~= left.functions.top.prototypes@);
            lemma_left(origin, compiled, left, *self);
            assert(left.functions@[0] == compiled.functions@[0]);
            assert(self.functions@[0].upvalues == left.functions@[0].upvalues) by {
                if self.functions@.len() > 1 {
                    assert(self.functions@[0] == self.functions.lower@[0]);
                    assert(left.functions@[0] == left.functions.lower@[0]);
                }
            }
        }
        Ok(PrototypeIndex(index))
    }
}

/// What a field access yields: the result of the read, once the table and
/// the key have been discharged.
pub proof fn lemma_accessed(
    origin: Compiler,
    entry: Compiler,
    table: ExprDescriptor<'_>,
    keyed: Compiler,
    key: ExprDescriptor<'_>,
    read: Compiler,
    table_after: ExprDescriptor<'_>,
    key_after: ExprDescriptor<'_>,
    result: ExprDescriptor<'_>,
    freed: Compiler,
    after: Compiler,
)
    requires
        origin.yields_only(Set::empty(), table, entry),
        entry.yields_only(Set::empty(), key, keyed),
        keyed.yields(table.temporaries().union(key.temporaries()), result, read),
        keyed.yields(table.temporaries().union(key.temporaries()), table_after, read),
        keyed.yields(table.temporaries().union(key.temporaries()), key_after, read),
        keyed.accounts(
            table.temporaries().union(key.temporaries()),
            result.temporaries().union(table_after.temporaries()).union(key_after.temporaries()),
            read,
        ),
        disjoint(table_after, key_after),
        disjoint(table_after, result),
        disjoint(key_after, result),
        read.keeps_registers(table_after.temporaries(), freed),
        read.accounts(table_after.temporaries(), Set::empty(), freed),
        freed.keeps_registers(key_after.temporaries(), after),
        freed.accounts(key_after.temporaries(), Set::empty(), after),
        freed.functions.top.locals == read.functions.top.locals,
        after.functions.top.locals == read.functions.top.locals,
    ensures
        origin.yields_only(Set::empty(), result, after),
{
    assert forall|r: int| #[trigger]
        after.functions.top.register_allocator.allocated(
            r,
        ) implies origin.functions.top.register_allocator.allocated(r)
        || result.temporaries().contains(r) by {
        assert(freed.functions.top.register_allocator.allocated(r));
        assert(!key_after.temporaries().contains(r));
        assert(read.functions.top.register_allocator.allocated(r));
        assert(!table_after.temporaries().contains(r));
        if !result.temporaries().contains(r) {
            assert(keyed.functions.top.register_allocator.allocated(r));
            assert(!table.temporaries().union(key.temporaries()).contains(r));
            assert(!key.temporaries().contains(r));
            assert(entry.functions.top.register_allocator.allocated(r));
            assert(!table.temporaries().contains(r));
        }
    }
    let released = table.temporaries().union(key.temporaries());
    assert forall|r: int| #[trigger] result.holds_temporary(r) implies !table_after.holds_temporary(
        r,
    ) && !key_after.holds_temporary(r) by {}
    read.lemma_owns_kept(table_after.temporaries(), freed, result);
    freed.lemma_owns_kept(key_after.temporaries(), after, result);
    assert forall|r: int| #[trigger]
        origin.functions.top.register_allocator.allocated(r) && !Set::<int>::empty().contains(
            r,
        ) implies after.functions.top.register_allocator.allocated(r) by {
        assert(origin.allocated(r));
        assert(entry.functions.top.register_allocator.allocated(r));
        assert(entry.allocated(r));
        assert(keyed.functions.top.register_allocator.allocated(r));
        assert(keyed.allocated(r));
        assert(!table.holds_temporary(r));
        assert(!key.holds_temporary(r));
        assert(!released.contains(r));
        assert(read.functions.top.register_allocator.allocated(r));
        assert(!table_after.holds_temporary(r));
        assert(!table_after.temporaries().contains(r));
        assert(freed.functions.top.register_allocator.allocated(r));
        assert(!key_after.holds_temporary(r));
        assert(!key_after.temporaries().contains(r));
    }
    assert forall|r: int| #[trigger] result.holds_temporary(r) implies !origin.allocated(r)
        || Set::<int>::empty().contains(r) by {
        if origin.allocated(r) {
            assert(origin.functions.top.register_allocator.allocated(r));
            assert(entry.allocated(r));
            assert(entry.functions.top.register_allocator.allocated(r));
            assert(keyed.allocated(r));
            assert(!table.holds_temporary(r));
            assert(!key.holds_temporary(r));
            assert(!released.contains(r));
        }
    }
}

/// What putting off a call yields: the function, which has been yielded
/// before, together with the arguments, which have just been compiled.
pub proof fn lemma_call_yielded(
    origin: Compiler,
    entry: Compiler,
    func: ExprDescriptor<'_>,
    after: Compiler,
    args: Seq<ExprDescriptor<'_>>,
    call: ExprDescriptor<'_>,
)
    requires
        origin.yields_only(Set::empty(), func, entry),
        entry.keeps_registers(Set::empty(), after),
        entry.accounts(Set::empty(), temporaries_of(args), after),
        after.owns_all(args),
        forall|j: int, r: int|
            0 <= j < args.len() && #[trigger] args[j].holds_temporary(r) ==> !entry.allocated(r),
        after.functions.top.locals == entry.functions.top.locals,
        call matches ExprDescriptor::FunctionCall { func: f, args: a } && *f == func && a@ == args,
    ensures
        origin.yields_only(Set::empty(), call, after),
{
    assert forall|r: int| #[trigger]
        after.functions.top.register_allocator.allocated(
            r,
        ) implies origin.functions.top.register_allocator.allocated(r)
        || call.temporaries().contains(r) by {
        if temporaries_of(args).contains(r) {
            let i = choose|i: int| 0 <= i < args.len() && (#[trigger] args[i]).holds_temporary(r);
            assert(call.holds_temporary(r));
        } else {
            assert(entry.functions.top.register_allocator.allocated(r));
            if func.temporaries().contains(r) {
                assert(func.holds_temporary(r));
                assert(call.holds_temporary(r));
            }
        }
    }
    entry.lemma_owns_kept(Set::empty(), after, func);
    origin.lemma_kept_then(Set::empty(), entry, Set::empty(), after);
    origin.lemma_kept_wider(Set::<int>::empty().union(Set::empty()), after, Set::empty());
    assert forall|i: int, r: int|
        0 <= i < args.len() && #[trigger] args[i].holds_temporary(r) implies !func.holds_temporary(
            r,
        ) by {
        if func.holds_temporary(r) {
            assert(entry.allocated(r));
        }
    }
    assert(call.exclusive());
    assert forall|r: int| #[trigger] call.holds_temporary(r) implies after.allocated(r)
        && !crate::state::local_register(after.functions.top.locals@, r) && (!origin.allocated(r)
        || Set::<int>::empty().contains(r)) by {
        if func.holds_temporary(r) {
        } else {
            let i = choose|i: int| 0 <= i < args.len() && (#[trigger] args[i]).holds_temporary(r);
            assert(args[i].holds_temporary(r));
            if origin.allocated(r) {
                assert(origin.functions.top.register_allocator.allocated(r));
                assert(entry.allocated(r));
            }
        }
    }
}

/// Descriptors that are owned, with one more that has just been yielded,
/// are owned.
pub proof fn lemma_owns_pushed(
    before: Compiler,
    owned: Seq<ExprDescriptor<'_>>,
    fresh: ExprDescriptor<'_>,
    after: Compiler,
    all: Seq<ExprDescriptor<'_>>,
)
    requires
        before.owns_all(owned),
        before.yields(Set::empty(), fresh, after),
        after.functions.top.locals == before.functions.top.locals,
        all == owned.push(fresh),
    ensures
        after.owns_all(all),
{
    assert forall|i: int| 0 <= i < all.len() implies (#[trigger] all[i]).exclusive() by {
        if i < owned.len() {
            assert(all[i] == owned[i]);
        }
    }
    assert forall|i: int, j: int, r: int|
        0 <= i < j < all.len() && #[trigger] all[i].holds_temporary(
            r,
        ) implies !#[trigger] all[j].holds_temporary(r) by {
        assert(all[i] == owned[i]);
        assert(owned[i].holds_temporary(r));
        if j < owned.len() {
            assert(all[j] == owned[j]);
        } else {
            assert(before.allocated(r));
        }
    }
    assert forall|i: int, r: int|
        0 <= i < all.len() && #[trigger] all[i].holds_temporary(r) implies after.allocated(r)
        && !crate::state::local_register(after.functions.top.locals@, r) by {
        if i < owned.len() {
            assert(all[i] == owned[i]);
            assert(owned[i].holds_temporary(r));
            assert(before.allocated(r));
            assert(before.functions.top.register_allocator.allocated(r));
        } else {
            assert(all[i] == fresh);
        }
    }
}

/// Whether a function takes fixed parameters only and has an empty body.
pub open spec fn does_nothing(function: FunctionDefinition) -> bool {
    &&& !function.has_varargs
    &&& function.body.statements@.len() == 0
    &&& function.body.return_statement.is_none()
}

/// Whether `proto` is the prototype of a function that takes `parameters`
/// parameters and has an empty body: it returns nothing, and its frame
/// holds the parameters.
pub open spec fn returns_at_once(proto: FunctionProto, parameters: int) -> bool {
    &&& proto.fixed_params == parameters
    &&& !proto.has_varargs
    &&& proto.stack_size == parameters
    &&& proto.constants@.len() == 0
    &&& proto.upvalues@.len() == 0
    &&& proto.prototypes@.len() == 0
    &&& proto.opcodes@ == seq![OpCode::Return { start: RegisterIndex(0), count: VarCount(1) }]
}

/// What making a prototype of a function with an empty body comes to: it
/// fails if the function has more than 255 parameters, or if there are 65536
/// prototypes already; otherwise the prototype is added, and nothing else
/// changes.
pub open spec fn prototype_added(
    before: Compiler,
    function: FunctionDefinition,
    r: Result<PrototypeIndex, CompileError>,
    after: Compiler,
) -> bool {
    if function.parameters@.len() > 255 {
        r == Err::<PrototypeIndex, _>(CompileError::Limit(CompilerLimit::FixedParameters))
    } else if before.functions.top.prototypes@.len() >= 65536 {
        r == Err::<PrototypeIndex, _>(CompileError::Limit(CompilerLimit::Functions))
    } else {
        &&& r == Ok::<_, CompileError>(
            PrototypeIndex(before.functions.top.prototypes@.len() as u16),
        )
        &&& after.functions.lower@ == before.functions.lower@
        &&& before.functions.top.same_but_prototypes(after.functions.top)
        &&& after.functions.top.prototypes@.drop_last() == before.functions.top.prototypes@
        &&& returns_at_once(
            after.functions.top.prototypes@.last(),
            function.parameters@.len() as int,
        )
    }
}

/// What making a closure of a function with an empty body comes to: once
/// the prototype is there, it fails if no register is free; otherwise the
/// lowest free register is allocated and the closure is made in it.
pub open spec fn closure_made(
    before: Compiler,
    function: FunctionDefinition,
    r: Result<ExprDescriptor<'_>, CompileError>,
    after: Compiler,
) -> bool {
    let prototypes = before.functions.top.prototypes@;
    if function.parameters@.len() > 255 {
        r matches Err(e) && e == CompileError::Limit(CompilerLimit::FixedParameters)
    } else if prototypes.len() >= 65536 {
        r matches Err(e) && e == CompileError::Limit(CompilerLimit::Functions)
    } else if before.functions.top.register_allocator.first_free >= 256 {
        r matches Err(e) && e == CompileError::Limit(CompilerLimit::Registers)
    } else {
        &&& r matches Ok(ExprDescriptor::Register { register, is_temporary })
        &&& register.0 == before.functions.top.register_allocator.first_free
        &&& is_temporary
        &&& after.functions.lower@ == before.functions.lower@
        &&& after.functions.top.constants == before.functions.top.constants
        &&& after.functions.top.upvalues == before.functions.top.upvalues
        &&& after.functions.top.fixed_params == before.functions.top.fixed_params
        &&& after.functions.top.locals == before.functions.top.locals
        &&& before.functions.top.register_allocator.allocates_to(
            after.functions.top.register_allocator,
        )
        &&& after.functions.top.prototypes@.drop_last() == prototypes
        &&& returns_at_once(
            after.functions.top.prototypes@.last(),
            function.parameters@.len() as int,
        )
        &&& after.functions.top.opcodes@ == before.functions.top.opcodes@.push(
            OpCode::Closure { proto: PrototypeIndex(prototypes.len() as u16), dest: register },
        )
    }
}

/// The name that a primary expression is, if it is one.
pub open spec fn primary_name(primary: PrimaryExpression) -> Option<Seq<u8>> {
    match primary {
        PrimaryExpression::Name(name) => Some(name@),
        _ => None,
    }
}

/// The name that a suffixed expression is, if it has no suffix.
pub open spec fn suffixed_name(suffixed: SuffixedExpression) -> Option<Seq<u8>> {
    if suffixed.suffixes@.len() == 0 {
        primary_name(suffixed.primary)
    } else {
        None
    }
}

/// The name that a simple expression is, if it is a name and nothing else.
pub open spec fn simple_name(simple: SimpleExpression) -> Option<Seq<u8>> {
    match simple {
        SimpleExpression::Suffixed(suffixed) => suffixed_name(suffixed),
        _ => None,
    }
}

/// The name that a head expression is, if it is a name and nothing else.
pub open spec fn head_name(head: HeadExpression) -> Option<Seq<u8>> {
    match head {
        HeadExpression::Simple(simple) => simple_name(simple),
        _ => None,
    }
}

/// The name that an expression is, if it is a name and nothing else.
pub open spec fn expression_name(expression: Expression) -> Option<Seq<u8>> {
    if expression.tail@.len() == 0 {
        head_name(*expression.head)
    } else {
        None
    }
}

/// The register of the local that an expression names, if it is the name
/// of a local of the innermost function and nothing else.
pub open spec fn local_operand(state: Compiler, expression: Expression) -> Option<RegisterIndex> {
    match expression_name(expression) {
        Some(name) => state.local_named(name),
        None => None,
    }
}

/// What one binary operator of the table on the values of two locals comes
/// to, if the expression is that and nothing else, and the operator is
/// neither `and` nor `or`: the result is left in a new temporary register.
pub open spec fn operated_on_locals(
    before: Compiler,
    expression: Expression,
    r: Result<ExprDescriptor<'_>, CompileError>,
    after: Compiler,
) -> bool {
    if expression.tail@.len() == 1 {
        let left = match head_name(*expression.head) {
            Some(name) => before.local_named(name),
            None => None,
        };
        match (
            left,
            local_operand(before, expression.tail@[0].1),
            binop_category(expression.tail@[0].0),
        ) {
            (Some(left), Some(right), BinOpCategory::Simple(op)) => simple_binop_in_table(op)
                ==> before.computed_into_new(
                simple_binop_instruction(op, before.next_register(), BinOpArgs::RR(left, right)),
                r,
                after,
            ),
            (Some(left), Some(right), BinOpCategory::Comparison(op)) => before.compared_into_new(
                op,
                BinOpArgs::RR(left, right),
                r,
                after,
            ),
            _ => true,
        }
    } else {
        true
    }
}

/// The value of a head expression that is a literal.
pub open spec fn head_literal(head: HeadExpression) -> Option<ValueView> {
    match head {
        HeadExpression::Simple(simple) => literal_value(simple),
        _ => None,
    }
}

/// The value of an expression that is a literal and nothing else.
pub open spec fn expression_literal(expression: Expression) -> Option<ValueView> {
    if expression.tail@.len() == 0 {
        head_literal(*expression.head)
    } else {
        None
    }
}

/// What a binary operator yields on a left operand that has been compiled
/// and a right operand that is a literal, where that is known at compile
/// time: the left operand is a constant too, the table has the operator, and
/// the types of the two admit it.
pub open spec fn folds_with_literal(
    left: ExprDescriptor<'_>,
    binop: BinaryOperator,
    right: Expression,
) -> Option<ValueView> {
    match (left, binop_category(binop), expression_literal(right)) {
        (ExprDescriptor::Value(a), BinOpCategory::Simple(op), Some(b)) => if simple_binop_in_table(
            op,
        ) {
            simple_binop_folded(op, a@, b)
        } else {
            None
        },
        (
            ExprDescriptor::Value(a),
            BinOpCategory::Comparison(op),
            Some(b),
        ) => comparison_binop_folded(
            op,
            a@,
            b,
        ),
        _ => None,
    }
}

/// What an expression of two literals and one binary operator between them
/// yields, where that is known at compile time.
pub open spec fn folded_literals(expression: Expression) -> Option<ValueView> {
    if expression.tail@.len() == 1 {
        match (
            head_literal(*expression.head),
            binop_category(expression.tail@[0].0),
            expression_literal(expression.tail@[0].1),
        ) {
            (Some(a), BinOpCategory::Simple(op), Some(b)) => if simple_binop_in_table(op) {
                simple_binop_folded(op, a, b)
            } else {
                None
            },
            (Some(a), BinOpCategory::Comparison(op), Some(b)) => comparison_binop_folded(op, a, b),
            _ => None,
        }
    } else {
        None
    }
}

/// The value of a literal.
pub open spec fn literal_value(simple: SimpleExpression) -> Option<ValueView> {
    match simple {
        SimpleExpression::Float(bits) => Some(ValueView::Number(bits)),
        SimpleExpression::Integer(i) => Some(ValueView::Integer(i)),
        SimpleExpression::String(s) => Some(ValueView::String(s@)),
        SimpleExpression::Nil => Some(ValueView::Nil),
        SimpleExpression::True => Some(ValueView::Boolean(true)),
        SimpleExpression::False => Some(ValueView::Boolean(false)),
        _ => None,
    }
}

/// A nest on which the context of a function has been pushed has in scope
/// what was in scope before, and the parameters of the function.
proof fn lemma_entered_covers(
    before: Compiler,
    after: Compiler,
    parameters: Seq<Vec<u8>>,
    scope: Set<Seq<u8>>,
)
    requires
        before.covers(scope),
        after.functions@ == before.functions@.push(after.functions.top),
        after.functions.top.locals@.len() == parameters.len(),
        forall|i: int|
            0 <= i < parameters.len() ==> (#[trigger] after.functions.top.locals@[i]).0@
                == parameters[i]@,
    ensures
        after.covers(scope.union(name_set(parameters))),
{
    let a = before.functions@;
    let b = after.functions@;
    assert forall|name: Seq<u8>| #[trigger]
        scope.union(name_set(parameters)).contains(name) implies named(b, name) by {
        if scope.contains(name) {
            let i = choose|i: int| 0 <= i < a.len()
                && crate::scope::has_name(#[trigger] a[i], name);
            assert(b[i] == a[i]);
            assert(crate::scope::has_name(b[i], name));
        } else {
            let j = choose|j: int| 0 <= j < parameters.len() && (#[trigger] parameters[j])@ == name;
            let top = after.functions.top;
            assert(top.locals@[j].0@ == name);
            crate::scope::lemma_innermost_local_found(
                top.locals@,
                name,
                top.locals@.len() as int,
                j,
            );
            assert(b[b.len() - 1] == top);
            assert(crate::scope::has_name(b[b.len() - 1], name));
        }
    }
}

/// A nest with a fresh function pushed on it is consistent.
proof fn lemma_entered(before: Compiler, after: Compiler)
    requires
        before.wf(),
        after.functions@ == before.functions@.push(after.functions.top),
        after.functions.top.wf(),
        after.functions.top.upvalues@.len() == 0,
    ensures
        after.wf(),
{
    reveal(Compiler::wf);
    let a = before.functions@;
    let b = after.functions@;
    assert forall|i: int| 0 <= i < b.len() implies (#[trigger] b[i]).wf() by {
        if i < a.len() {
            assert(b[i] == a[i]);
        }
    }
    assert forall|i: int| 1 <= i < b.len() implies captures_from(#[trigger] b[i], b[i - 1]) by {
        if i < a.len() {
            assert(b[i] == a[i]);
            assert(b[i - 1] == a[i - 1]);
            assert(captures_from(a[i], a[i - 1]));
        }
    }
    assert(b[0] == a[0]);
}

/// What holds of a nest when the body of its innermost function has been
/// compiled and the function is about to be taken off.
proof fn lemma_leaving(before: Compiler, entered: Compiler, compiled: Compiler)
    requires
        before.wf(),
        entered.functions@ == before.functions@.push(entered.functions.top),
        entered.steps_to(compiled),
    ensures
        compiled.functions@.len() == before.functions@.len() + 1,
        compiled.functions.top.wf(),
        nest_wf(compiled.functions@.drop_last()),
        nest_grows(before.functions@, compiled.functions@.drop_last()),
        captures_from(
            compiled.functions.top,
            compiled.functions@.drop_last()[before.functions@.len() - 1],
        ),
        before.functions.top.same_but_upvalues(
            compiled.functions@.drop_last()[before.functions@.len() - 1],
        ),
{
    reveal(Compiler::wf);
    reveal(Compiler::extends_to);
    let a = before.functions@;
    let e = entered.functions@;
    let c = compiled.functions@;
    let d = c.drop_last();
    assert(c[c.len() - 1] == compiled.functions.top);
    assert(c[c.len() - 1].wf());
    assert forall|i: int| 0 <= i < d.len() implies (#[trigger] d[i]).wf() by {
        assert(c[i].wf());
    }
    assert forall|i: int| 1 <= i < d.len() implies captures_from(#[trigger] d[i], d[i - 1]) by {
        assert(captures_from(c[i], c[i - 1]));
    }
    assert(d[0] == c[0]);
    assert forall|i: int| 0 <= i < a.len() implies (#[trigger] a[i]).grows_to(d[i]) by {
        assert(e[i] == a[i]);
        assert(e[i].grows_to(c[i]));
    }
    assert forall|i: int| 0 <= i < a.len() implies (#[trigger] a[i]).same_but_upvalues(d[i]) by {
        assert(e[i] == a[i]);
        assert(e[i].same_but_upvalues(c[i]));
    }
    assert(a[a.len() - 1] == before.functions.top);
    assert(captures_from(c[c.len() - 1], c[c.len() - 2]));
}

/// Taking the innermost function off the nest and adding its prototype to
/// the function around it is a step of the compilation of that function.
proof fn lemma_left(before: Compiler, compiled: Compiler, left: Compiler, after: Compiler)
    requires
        before.wf(),
        compiled.functions@.len() == before.functions@.len() + 1,
        nest_wf(compiled.functions@.drop_last()),
        nest_grows(before.functions@, compiled.functions@.drop_last()),
        left.functions@ == compiled.functions@.drop_last(),
        before.functions.top.same_but_upvalues(left.functions.top),
        after.functions.lower == left.functions.lower,
        left.functions.top.same_but_prototypes(after.functions.top),
        after.functions.top.prototypes@.len() == left.functions.top.prototypes@.len() + 1,
        after.functions.top.prototypes@.drop_last() == left.functions.top.prototypes@,
        after.functions.top.prototypes@.len() <= 65536,
        after.functions.top.prototypes@.last().wf(),
        after.functions.top.prototypes@.last().captures_from(
            left.functions.top.stack_size(),
            left.functions.top.upvalues@.len() as int,
        ),
    ensures
        before.steps_to(after),
        before.functions.top.same_but_upvalues_and_prototypes(after.functions.top),
        after.functions.top.prototypes@.len() == before.functions.top.prototypes@.len() + 1,
{
    reveal(Compiler::wf);
    reveal(Compiler::extends_to);
    let a = before.functions@;
    let l = left.functions@;
    let b = after.functions@;
    let t = a.len() - 1;
    assert(l[t] == left.functions.top);
    assert(b[t] == after.functions.top);
    assert(a[t] == before.functions.top);
    let f = l[t];
    let g = b[t];
    assert(f.wf());
    assert(a[t].grows_to(f));
    assert forall|m: int| 0 <= m < g.opcodes@.len() implies g.admits(#[trigger] g.opcodes@[m]) by {
        assert(f.admits(f.opcodes@[m]));
    }
    assert forall|m: int| 0 <= m < g.prototypes@.len() implies {
        &&& (#[trigger] g.prototypes@[m]).wf()
        &&& g.prototypes@[m].captures_from(g.stack_size(), g.upvalues@.len() as int)
    } by {
        if m < f.prototypes@.len() {
            assert(g.prototypes@[m] == g.prototypes@.drop_last()[m]);
            assert(f.prototypes@[m].wf());
        }
    }
    assert forall|m: int| 0 <= m < g.locals@.len() implies (#[trigger] g.locals@[m]).1.0
        < g.stack_size() by {
        assert(f.locals@[m].1.0 < f.stack_size());
    }
    assert(g.wf());
    assert forall|i: int| 0 <= i < b.len() implies (#[trigger] b[i]).wf() by {
        if i < t {
            assert(b[i] == l[i]);
            assert(l[i].wf());
        }
    }
    assert forall|i: int| 1 <= i < b.len() implies captures_from(#[trigger] b[i], b[i - 1]) by {
        assert(captures_from(l[i], l[i - 1]));
        if i < t {
            assert(b[i] == l[i]);
        }
        assert(b[i - 1] == l[i - 1]);
    }
    assert(b[0].upvalues == l[0].upvalues);
    assert forall|i: int| 0 <= i < a.len() implies (#[trigger] a[i]).grows_to(b[i]) by {
        assert(a[i].grows_to(l[i]));
        if i < t {
            assert(b[i] == l[i]);
        } else {
            assert(g.prototypes@.drop_last() == f.prototypes@);
            assert forall|m: int| 0 <= m < f.prototypes@.len() implies #[trigger] g.prototypes@[m]
                == f.prototypes@[m] by {
                assert(g.prototypes@[m] == g.prototypes@.drop_last()[m]);
            }
        }
    }
}

impl CompilerFunction {
    /// Whether `other` differs from this function in its prototypes alone.
    pub open spec fn same_but_prototypes(self, other: CompilerFunction) -> bool {
        &&& other.constants == self.constants
        &&& other.upvalues == self.upvalues
        &&& other.register_allocator == self.register_allocator
        &&& other.fixed_params == self.fixed_params
        &&& other.locals == self.locals
        &&& other.opcodes == self.opcodes
    }

    /// Whether `other` differs from this function at most in its upvalues
    /// and its prototypes.
    pub open spec fn same_but_upvalues_and_prototypes(self, other: CompilerFunction) -> bool {
        &&& other.constants == self.constants
        &&& other.register_allocator == self.register_allocator
        &&& other.fixed_params == self.fixed_params
        &&& other.locals == self.locals
        &&& other.opcodes == self.opcodes
    }
}

} // verus!
