//! Lowering statements, blocks and whole chunks.

use vstd::prelude::*;
use crate::ast::{
    block_size, call_size, definition_size, lemma_statements_size_step, statement_size,
    suffixed_size, Block, CallSuffix, Chunk, FunctionCallStatement, FunctionStatement,
    LocalStatement, Statement,
};
use crate::descriptor::ExprDescriptor;
use crate::error::{CompileError, CompilerLimit, Unsupported};
use crate::function::FunctionProto;
use crate::opcode::{OpCode, RegisterIndex, VarCount};
use crate::scope::{
    closed_block, closed_call, closed_definition, closed_descriptor, closed_descriptors,
    closed_expressions, closed_statement, closed_suffixed, closed_targets, declared, has_name,
    lemma_closed_statements_element, lemma_innermost_local_found, name_set, named, scope_after,
};
use crate::expr::{plain_call_made, top_fault};
use crate::walk::{does_nothing, local_operand, returns_at_once, suffixed_name};
use crate::state::Compiler;
use crate::value::{copy_bytes, Value};

use crate::model::{agrees, compiled_as, continues, follows, operand_view, operands};
verus! {

/// The register of the value in a declaration of one local with the value
/// of another.
pub open spec fn local_copy(local_statement: LocalStatement, state: Compiler) -> Option<
    RegisterIndex,
> {
    if local_statement.names@.len() == 1 && local_statement.values@.len() == 1 {
        local_operand(state, local_statement.values@[0])
    } else {
        None
    }
}

/// Whether `after` is `before` once a local has been declared with the
/// value of the register `source`: the local lives in the lowest register
/// that was free, and the value is moved there.
pub open spec fn declares_copy(before: Compiler, source: RegisterIndex, after: Compiler) -> bool {
    let first_free = before.functions.top.register_allocator.first_free;
    &&& first_free < 256
    &&& after.functions.lower == before.functions.lower
    &&& after.functions.top.constants == before.functions.top.constants
    &&& after.functions.top.upvalues == before.functions.top.upvalues
    &&& after.functions.top.prototypes == before.functions.top.prototypes
    &&& after.functions.top.fixed_params == before.functions.top.fixed_params
    &&& before.functions.top.register_allocator.allocates_to(
        after.functions.top.register_allocator,
    )
    &&& after.functions.top.locals@.drop_last() == before.functions.top.locals@
    &&& after.functions.top.locals@.last().1.0 == first_free
    &&& after.functions.top.opcodes@ == before.functions.top.opcodes@.push(
        OpCode::Move { dest: RegisterIndex(first_free as u8), source },
    )
}

/// What declaring a local with the value of the register `source` comes
/// to: it fails if no register is free.
pub open spec fn copy_declared(
    before: Compiler,
    source: RegisterIndex,
    r: Result<(), CompileError>,
    after: Compiler,
) -> bool {
    if before.functions.top.register_allocator.first_free >= 256 {
        r == Err::<(), _>(CompileError::Limit(CompilerLimit::Registers))
    } else {
        r.is_ok() && declares_copy(before, source, after)
    }
}

/// The register of the function in a call of a local without arguments.
pub open spec fn plain_call(function_call: FunctionCallStatement, state: Compiler) -> Option<
    RegisterIndex,
> {
    match (suffixed_name(function_call.head), function_call.call) {
        (Some(name), CallSuffix::Function(args)) => if args@.len() == 0 {
            state.local_named(name)
        } else {
            None
        },
        _ => None,
    }
}

/// The error with which a statement that is not lowered is rejected.
pub open spec fn rejected(statement: Statement) -> Option<Unsupported> {
    match statement {
        Statement::If(_) => Some(Unsupported::IfStatement),
        Statement::While(_) => Some(Unsupported::WhileStatement),
        Statement::Do(_) => Some(Unsupported::DoStatement),
        Statement::For(_) => Some(Unsupported::ForStatement),
        Statement::Repeat(_) => Some(Unsupported::RepeatStatement),
        Statement::Label(_) => Some(Unsupported::LabelStatement),
        Statement::Break => Some(Unsupported::BreakStatement),
        Statement::Goto(_) => Some(Unsupported::GotoStatement),
        _ => None,
    }
}

impl Compiler {
    /// Compiles the statements of a block in order, and then its return
    /// statement. A block without one returns nothing.
    pub fn block(&mut self, block: &Block) -> (r: Result<(), CompileError>)
        requires
            old(self).wf(),
        ensures
            forall|scope: Set<Seq<u8>>|
                #[trigger] closed_block(*block, scope) && old(self).covers(scope)
                    ==> (r.is_ok() ==> old(self).keeps_outermost(*final(self))),
            block.statements@.len() == 0 && block.return_statement.is_none() ==> {
                &&& r.is_ok()
                &&& final(self).functions.lower == old(self).functions.lower
                &&& old(self).functions.top.same_but_code(final(self).functions.top)
                &&& final(self).functions.top.opcodes@ == old(self).functions.top.opcodes@.push(
                    OpCode::Return { start: RegisterIndex(0), count: VarCount(1) },
                )
            },
            r matches Ok(()) ==> {
                &&& old(self).steps_to(*final(self))
                &&& final(self).functions.top.opcodes@.len() > old(self).functions.top.opcodes@.len()
                &&& final(self).functions.top.opcodes@.last() is Return
            },
            forall|fuel: nat|
                agrees(
                    #[trigger] crate::lowering::block(fuel, old(self)@, *block),
                    r,
                    final(self)@,
                ),
        decreases block_size(*block), 0nat,
    {
        let ghost origin = *self;
        proof {
            origin.lemma_start();
        }
        proof {
            assert forall|fuel: nat|
                continues(
                    #[trigger] crate::lowering::block(fuel, origin@, *block),
                    crate::lowering::block_from(fuel, self@, *block, 0),
                ) by {}
        }
        let mut i: usize = 0;
        while i < block.statements.len()
            invariant
                origin == *old(self),
                forall|fuel: nat|
                    continues(
                        #[trigger] crate::lowering::block(fuel, origin@, *block),
                        crate::lowering::block_from(fuel, self@, *block, i as int),
                    ),
                i <= block.statements@.len(),
                origin.steps_to(*self),
                i == 0 ==> *self == origin,
                forall|scope: Set<Seq<u8>>| #[trigger]
                    closed_block(*block, scope) && origin.covers(scope)
                        ==> origin.keeps_outermost(*self) && self.covers(
                        scope_after(block.statements@, i as nat, scope),
                    ),
            decreases block.statements@.len() - i,
        {
            proof {
                lemma_statements_size_step(block.statements@, i as int);
            }
            let ghost at = *self;
            proof {
                assert forall|fuel: nat|
                    follows(
                        #[trigger] crate::lowering::block(fuel, old(self)@, *block),
                        crate::lowering::statement(fuel, self@, block.statements@[i as int]),
                    ) by {}
            }
            self.statement(&block.statements[i])?;
            proof {
                assert forall|fuel: nat|
                    continues(
                        #[trigger] crate::lowering::block(fuel, origin@, *block),
                        crate::lowering::block_from(fuel, self@, *block, i + 1),
                    ) by {}
                origin.lemma_step(at, *self);
                assert forall|scope: Set<Seq<u8>>| #[trigger]
                    closed_block(*block, scope) && origin.covers(
                        scope,
                    ) implies origin.keeps_outermost(*self) && self.covers(
                    scope_after(block.statements@, (i + 1) as nat, scope),
                ) by {
                    lemma_closed_statements_element(
                        block.statements@,
                        block.statements@.len(),
                        scope,
                        i as int,
                    );
                    let inner = scope_after(block.statements@, i as nat, scope);
                    assert(at.covers(inner));
                    assert(closed_statement(block.statements@[i as int], inner));
                }
            }
            i += 1;
        }
        let ghost at = *self;
        match &block.return_statement {
            Some(return_statement) => {
                proof {
                    assert forall|fuel: nat|
                        follows(
                            #[trigger] crate::lowering::block(fuel, old(self)@, *block),
                            crate::lowering::return_statement(fuel, self@, *return_statement),
                        ) by {}
                }
                self.return_statement(return_statement)?;
                proof {
                    assert forall|scope: Set<Seq<u8>>| #[trigger]
                        closed_block(*block, scope) && origin.covers(
                            scope,
                        ) implies origin.keeps_outermost(*self) by {
                        let inner = scope_after(
                            block.statements@,
                            block.statements@.len(),
                            scope,
                        );
                        assert(at.covers(inner));
                        assert(closed_expressions(
                            return_statement.returns@,
                            return_statement.returns@.len(),
                            inner,
                        ));
                    }
                }
            },
            None => {
                self.emit(OpCode::Return { start: RegisterIndex(0), count: VarCount::make_zero() });
            },
        }
        proof {
            origin.lemma_step(at, *self);
        }
        Ok(())
    }

    /// Compiles one statement. Control structures, labels and jumps are not
    /// lowered.
    pub fn statement(&mut self, statement: &Statement) -> (r: Result<(), CompileError>)
        requires
            old(self).wf(),
        ensures
            forall|scope: Set<Seq<u8>>|
                #[trigger] closed_statement(*statement, scope) && old(self).covers(scope)
                    ==> (
                        r.is_ok()
                            ==> old(self).keeps_outermost(*final(self))
                                && final(self).covers(scope.union(declared(*statement)))
                    ),
            rejected(*statement) matches Some(reason) ==> {
                &&& r matches Err(e)
                &&& e == CompileError::Unsupported(reason)
                &&& *final(self) == *old(self)
            },
            r matches Ok(()) ==> old(self).steps_to(*final(self)),
            forall|fuel: nat|
                agrees(
                    #[trigger] crate::lowering::statement(fuel, old(self)@, *statement),
                    r,
                    final(self)@,
                ),
        decreases statement_size(*statement), 1nat,
    {
        match statement {
            Statement::If(_) => Err(CompileError::Unsupported(Unsupported::IfStatement)),
            Statement::While(_) => Err(CompileError::Unsupported(Unsupported::WhileStatement)),
            Statement::Do(_) => Err(CompileError::Unsupported(Unsupported::DoStatement)),
            Statement::For(_) => Err(CompileError::Unsupported(Unsupported::ForStatement)),
            Statement::Repeat(_) => Err(CompileError::Unsupported(Unsupported::RepeatStatement)),
            Statement::Function(function_statement) => {
                proof {
                    assert forall|fuel: nat|
                        follows(
                            #[trigger] crate::lowering::statement(fuel, old(self)@, *statement),
                            crate::lowering::function_statement(
                                fuel,
                                self@,
                                *function_statement,
                            ),
                        ) by {}
                }
                self.function_statement(function_statement)
            },
            Statement::LocalFunction(local_function) => {
                proof {
                    assert forall|scope: Set<Seq<u8>>| #[trigger]
                        closed_statement(*statement, scope) implies closed_definition(
                        local_function.definition,
                        scope,
                    ) by {}
                }
                proof {
                    assert forall|fuel: nat|
                        follows(
                            #[trigger] crate::lowering::statement(fuel, old(self)@, *statement),
                            crate::lowering::local_function(fuel, self@, *local_function),
                        ) by {}
                }
                self.local_function(local_function)
            },
            Statement::LocalStatement(local_statement) => {
                proof {
                    assert forall|scope: Set<Seq<u8>>| #[trigger]
                        closed_statement(*statement, scope) implies closed_expressions(
                        local_statement.values@,
                        local_statement.values@.len(),
                        scope,
                    ) by {}
                }
                proof {
                    assert forall|fuel: nat|
                        follows(
                            #[trigger] crate::lowering::statement(fuel, old(self)@, *statement),
                            crate::lowering::local_statement(fuel, self@, *local_statement, 0),
                        ) by {}
                }
                self.local_statement(local_statement)
            },
            Statement::Label(_) => Err(CompileError::Unsupported(Unsupported::LabelStatement)),
            Statement::Break => Err(CompileError::Unsupported(Unsupported::BreakStatement)),
            Statement::Goto(_) => Err(CompileError::Unsupported(Unsupported::GotoStatement)),
            Statement::FunctionCall(function_call) => {
                let ghost origin = *self;
                proof {
                    assert forall|scope: Set<Seq<u8>>| #[trigger]
                        closed_statement(*statement, scope) implies closed_suffixed(
                        function_call.head,
                        scope,
                    ) && closed_call(function_call.call, scope) by {}
                }
                proof {
                    assert forall|fuel: nat|
                        follows(
                            #[trigger] crate::lowering::statement(fuel, old(self)@, *statement),
                            crate::lowering::call_statement(fuel, self@, *function_call),
                        ) by {}
                }
                let r = self.function_call(function_call);
                proof {
                    if r.is_ok() {
                        origin.lemma_covers(*self);
                        assert forall|scope: Set<Seq<u8>>| #[trigger]
                            origin.covers(scope) implies self.covers(
                            scope.union(declared(*statement)),
                        ) by {
                            assert(scope.union(declared(*statement)) =~= scope);
                        }
                    }
                }
                r
            },
            Statement::Assignment(assignment) => {
                let ghost origin = *self;
                proof {
                    assert forall|scope: Set<Seq<u8>>| #[trigger]
                        closed_statement(*statement, scope) implies closed_targets(
                        assignment.targets@,
                        assignment.targets@.len(),
                        scope,
                    ) && closed_expressions(
                        assignment.values@,
                        assignment.values@.len(),
                        scope,
                    ) by {}
                }
                proof {
                    assert forall|fuel: nat|
                        follows(
                            #[trigger] crate::lowering::statement(fuel, old(self)@, *statement),
                            crate::lowering::assignment(fuel, self@, *assignment, 0),
                        ) by {}
                }
                let r = self.assignment(assignment);
                proof {
                    if r.is_ok() {
                        origin.lemma_covers(*self);
                        assert forall|scope: Set<Seq<u8>>| #[trigger]
                            origin.covers(scope) implies self.covers(
                            scope.union(declared(*statement)),
                        ) by {
                            assert(scope.union(declared(*statement)) =~= scope);
                        }
                    }
                }
                r
            },
        }
    }

    /// Compiles the declaration of a global function: a closure is made of
    /// the function and stored in the environment under the function's
    /// name. A name with fields or a method is not lowered.
    pub fn function_statement(&mut self, function_statement: &FunctionStatement) -> (r: Result<
        (),
        CompileError,
    >)
        requires
            old(self).wf(),
        ensures
            function_statement.name.fields@.len() > 0 ==> {
                &&& r matches Err(e)
                &&& e == CompileError::Unsupported(Unsupported::FunctionNameFields)
                &&& *final(self) == *old(self)
            },
            function_statement.name.fields@.len() == 0 && function_statement.name.method.is_some()
                ==> {
                &&& r matches Err(e)
                &&& e == CompileError::Unsupported(Unsupported::MethodDefinition)
                &&& *final(self) == *old(self)
            },
            r matches Ok(()) ==> old(self).steps_to(*final(self)),
            forall|fuel: nat|
                agrees(
                    #[trigger] crate::lowering::function_statement(
                        fuel,
                        old(self)@,
                        *function_statement,
                    ),
                    r,
                    final(self)@,
                ),
        decreases 5 + definition_size(function_statement.definition), 0nat,
    {
        let ghost origin = *self;
        proof {
            origin.lemma_start();
        }
        if function_statement.name.fields.len() > 0 {
            return Err(CompileError::Unsupported(Unsupported::FunctionNameFields));
        }
        if function_statement.name.method.is_some() {
            return Err(CompileError::Unsupported(Unsupported::MethodDefinition));
        }
        proof {
            assert forall|fuel: nat|
                follows(
                    #[trigger] crate::lowering::function_statement(
                        fuel,
                        old(self)@,
                        *function_statement,
                    ),
                    crate::lowering::new_prototype(
                        (fuel - 1) as nat,
                        self@,
                        function_statement.definition,
                    ),
                ) by {}
        }
        let proto = self.new_prototype(&function_statement.definition)?;
        proof {
            origin.lemma_step(origin, *self);
        }
        let ghost at = *self;
        let mut env = self.get_environment()?;
        proof {
            origin.lemma_step(at, *self);
        }
        let ghost resolved = *self;
        let ghost at = *self;
        let dest = self.allocate()?;
        proof {
            origin.lemma_step(at, *self);
        }
        let ghost at = *self;
        self.emit(OpCode::Closure { proto, dest });
        proof {
            origin.lemma_step(at, *self);
        }
        let mut name = ExprDescriptor::Value(
            Value::String(copy_bytes(&function_statement.name.name)),
        );
        let mut closure = ExprDescriptor::Register { register: dest, is_temporary: true };
        proof {
            resolved.lemma_keeps_own(Set::empty());
            resolved.lemma_yields_allocated(resolved, *self, dest);
            assert forall|r: int| !name.holds_temporary(r) by {}
        }
        let ghost at = *self;
        let ghost written_table = operand_view(env);
        let ghost written_key = operand_view(name);
        let ghost written_value = operand_view(closure);
        proof {
            assert forall|fuel: nat|
                follows(
                    #[trigger] crate::lowering::function_statement(
                        fuel,
                        old(self)@,
                        *function_statement,
                    ),
                    crate::lowering::write_field(
                        fuel,
                        self@,
                        written_table,
                        written_key,
                        written_value,
                    ),
                ) by {}
        }
        self.write_field(env, name, closure)?;
        proof {
            origin.lemma_step(at, *self);
        }
        Ok(())
    }



    /// Compiles a call that stands as a statement: its results are dropped.
    pub fn function_call(&mut self, function_call: &FunctionCallStatement) -> (r: Result<
        (),
        CompileError,
    >)
        requires
            old(self).wf(),
        ensures
            forall|scope: Set<Seq<u8>>|
                #![trigger closed_suffixed(function_call.head, scope), closed_call(function_call.call, scope)]
                closed_suffixed(function_call.head, scope) && closed_call(function_call.call, scope)
                    && old(self).covers(scope)
                        ==> (r.is_ok() ==> old(self).keeps_outermost(*final(self))),
            plain_call(*function_call, *old(self)) matches Some(func) ==> match top_fault(
                *old(self),
            ) {
                Some(e) => r == Err::<(), _>(e),
                None => r.is_ok() && plain_call_made(*old(self), func, VarCount(1), *final(self)),
            },
            r matches Ok(()) ==> {
                &&& old(self).steps_to(*final(self))
                &&& function_call.call is Function
                &&& final(self).functions.top.opcodes@.len() > old(self).functions.top.opcodes@.len()
                &&& final(self).functions.top.opcodes@.last() matches OpCode::Call {
                    returns: results,
                    ..
                }
                &&& results.constant() == Some(0nat)
            },
            forall|fuel: nat|
                agrees(
                    #[trigger] crate::lowering::call_statement(fuel, old(self)@, *function_call),
                    r,
                    final(self)@,
                ),
        decreases 2 + suffixed_size(function_call.head) + call_size(function_call.call), 0nat,
    {
        let ghost origin = *self;
        proof {
            origin.lemma_start();
        }
        proof {
            assert forall|fuel: nat|
                follows(
                    #[trigger] crate::lowering::call_statement(fuel, old(self)@, *function_call),
                    crate::lowering::suffixed_expression(fuel, self@, function_call.head),
                ) by {}
        }
        let func = self.suffixed_expression(&function_call.head)?;
        proof {
            origin.lemma_step(origin, *self);
        }
        match &function_call.call {
            CallSuffix::Function(args) => {
                let ghost sources = args@;
                let ghost at = *self;
                proof {
                    assert forall|fuel: nat|
                        follows(
                            #[trigger] crate::lowering::call_statement(
                                fuel,
                                old(self)@,
                                *function_call,
                            ),
                            crate::lowering::expressions_from(fuel, self@, args@, 0, Seq::empty()),
                        ) by {}
                }
                let args = self.expressions(args)?;
                proof {
                    origin.lemma_step(at, *self);
                }
                let ghost compiled = args@;
                let ghost at = *self;
                proof {
                    assert forall|fuel: nat|
                        follows(
                            #[trigger] crate::lowering::call_statement(
                                fuel,
                                old(self)@,
                                *function_call,
                            ),
                            crate::lowering::function_call(
                                fuel,
                                self@,
                                operand_view(func),
                                operands(args@),
                                VarCount(1),
                            ),
                        ) by {}
                }
                self.expr_function_call(func, args, VarCount::make_zero())?;
                proof {
                    origin.lemma_step(at, *self);
                    assert forall|scope: Set<Seq<u8>>|
                        #![trigger closed_suffixed(function_call.head, scope), closed_call(function_call.call, scope)]
                        closed_suffixed(function_call.head, scope) && closed_call(
                            function_call.call,
                            scope,
                        ) && origin.covers(scope) implies origin.keeps_outermost(*self) by {
                        assert(closed_expressions(sources, sources.len(), scope));
                        assert(closed_descriptor(func, scope));
                        assert(closed_descriptors(compiled, scope));
                        assert(at.covers(scope));
                    }
                }
                Ok(())
            },
            CallSuffix::Method(_, _) => Err(CompileError::Unsupported(Unsupported::MethodCall)),
        }
    }


    /// Compiles the declaration of a local function: a closure is made of
    /// the function in a new register, which becomes the local of the
    /// function's name.
    pub fn local_function(&mut self, local_function: &FunctionStatement) -> (r: Result<
        (),
        CompileError,
    >)
        requires
            old(self).wf(),
        ensures
            forall|scope: Set<Seq<u8>>|
                #[trigger] closed_definition(local_function.definition, scope)
                    && old(self).covers(scope)
                        ==> (
                            r.is_ok()
                                ==> old(self).keeps_outermost(*final(self))
                                    && final(self).covers(
                                        scope.union(set![local_function.name.name@])
                                    )
                        ),
            local_function.name.fields@.len() > 0 ==> {
                &&& r matches Err(e)
                &&& e == CompileError::Unsupported(Unsupported::FunctionNameFields)
                &&& *final(self) == *old(self)
            },
            local_function.name.fields@.len() == 0 && local_function.name.method.is_some() ==> {
                &&& r matches Err(e)
                &&& e == CompileError::Unsupported(Unsupported::MethodDefinition)
                &&& *final(self) == *old(self)
            },
            local_function.name.fields@.len() == 0 && local_function.name.method.is_none()
                && does_nothing(local_function.definition) ==> {
                let definition = local_function.definition;
                if definition.parameters@.len() > 255 {
                    r == Err::<(), _>(CompileError::Limit(CompilerLimit::FixedParameters))
                } else if old(self).functions.top.prototypes@.len() >= 65536 {
                    r == Err::<(), _>(CompileError::Limit(CompilerLimit::Functions))
                } else if old(self).functions.top.register_allocator.first_free >= 256 {
                    r == Err::<(), _>(CompileError::Limit(CompilerLimit::Registers))
                } else {
                    &&& r.is_ok()
                    &&& returns_at_once(
                        final(self).functions.top.prototypes@.last(),
                        definition.parameters@.len() as int,
                    )
                }
            },
            r matches Ok(()) ==> {
                &&& old(self).steps_to(*final(self))
                &&& final(self).functions.top.prototypes@.len()
                    == old(self).functions.top.prototypes@.len() + 1
                &&& final(self).functions.top.locals@.len()
                    == old(self).functions.top.locals@.len() + 1
                &&& final(self).functions.top.locals@.last().0@ == local_function.name.name@
                &&& final(self).functions.top.locals@.last().1.0
                    == old(self).functions.top.register_allocator.first_free
                &&& final(self).functions.top.opcodes@ == old(self).functions.top.opcodes@.push(
                    OpCode::Closure {
                        proto: crate::opcode::PrototypeIndex(
                            old(self).functions.top.prototypes@.len() as u16,
                        ),
                        dest: final(self).functions.top.locals@.last().1,
                    },
                )
            },
            forall|fuel: nat|
                agrees(
                    #[trigger] crate::lowering::local_function(fuel, old(self)@, *local_function),
                    r,
                    final(self)@,
                ),
        decreases 1 + definition_size(local_function.definition), 0nat,
    {
        let ghost origin = *self;
        proof {
            origin.lemma_start();
        }
        if local_function.name.fields.len() > 0 {
            return Err(CompileError::Unsupported(Unsupported::FunctionNameFields));
        }
        if local_function.name.method.is_some() {
            return Err(CompileError::Unsupported(Unsupported::MethodDefinition));
        }
        proof {
            assert forall|fuel: nat|
                follows(
                    #[trigger] crate::lowering::local_function(fuel, old(self)@, *local_function),
                    crate::lowering::new_prototype(
                        (fuel - 1) as nat,
                        self@,
                        local_function.definition,
                    ),
                ) by {}
        }
        let proto = self.new_prototype(&local_function.definition)?;
        proof {
            origin.lemma_step(origin, *self);
        }
        let ghost at = *self;
        let dest = self.allocate()?;
        proof {
            origin.lemma_step(at, *self);
            at.lemma_free_not_local(dest.0 as int);
        }
        let ghost at = *self;
        self.emit(OpCode::Closure { proto, dest });
        proof {
            origin.lemma_step(at, *self);
            self.lemma_top_wf();
        }
        let ghost at = *self;
        self.functions.top.bind_local(&local_function.name.name, dest);
        proof {
            at.lemma_top_stepped(*self);
            origin.lemma_step(at, *self);
            assert forall|scope: Set<Seq<u8>>| #[trigger]
                origin.covers(scope) implies self.covers(
                scope.union(set![local_function.name.name@]),
            ) by {
                lemma_last_local_covers(origin, *self, local_function.name.name@, scope);
            }
        }
        Ok(())
    }

    /// Compiles a chunk into the prototype of its outermost function.
    pub fn compile(chunk: &Chunk) -> (r: Result<FunctionProto, CompileError>)
        ensures
            closed_block(chunk.block, Set::empty())
                ==> (r matches Ok(proto) ==> proto.upvalues@.len()
                == 0),
            chunk.block.statements@.len() == 0 && chunk.block.return_statement.is_none() ==> {
                &&& r matches Ok(proto)
                &&& proto.opcodes@ == seq![
                    OpCode::Return { start: RegisterIndex(0), count: VarCount(1) },
                ]
                &&& proto.constants@.len() == 0
                &&& proto.upvalues@.len() == 0
                &&& proto.prototypes@.len() == 0
                &&& proto.stack_size == 0
            },
            r matches Ok(proto) ==> {
                &&& proto.wf()
                &&& proto.captures_environment_only()
                &&& proto.fixed_params == 0
                &&& proto.opcodes@.len() > 0
                &&& proto.opcodes@.last() is Return
            },
            forall|fuel: nat| compiled_as(#[trigger] crate::lowering::compiled(fuel, *chunk), r),
    {
        let mut compiler = Compiler::new();
        let ghost origin = compiler;
        proof {
            assert(origin.covers(Set::empty()));
        }
        compiler.function_body(&chunk.block)?;
        proof {
            assert(compiler.functions@[0] == compiler.functions.top);
            assert(origin.functions@[0] == origin.functions.top);
            lemma_outermost(origin, compiler);
        }
        let Compiler { functions } = compiler;
        let proto = functions.top.to_proto();
        assert(proto.upvalues@.len() == 1 ==> proto.upvalues@ =~= seq![
            crate::function::UpValueDescriptor::Environment,
        ]);
        Ok(proto)
    }
}

/// Compiles a chunk into the prototype of its outermost function. The
/// prototype is consistent in itself, and captures nothing but, at most, the
/// global environment.
pub fn compile_chunk(chunk: &Chunk) -> (r: Result<FunctionProto, CompileError>)
    ensures
        closed_block(chunk.block, Set::empty()) ==> (r matches Ok(proto) ==> proto.upvalues@.len()
            == 0),
        chunk.block.statements@.len() == 0 && chunk.block.return_statement.is_none() ==> {
            &&& r matches Ok(proto)
            &&& proto.opcodes@ == seq![
                OpCode::Return { start: RegisterIndex(0), count: VarCount(1) },
            ]
            &&& proto.constants@.len() == 0
            &&& proto.upvalues@.len() == 0
            &&& proto.prototypes@.len() == 0
            &&& proto.stack_size == 0
        },
        r matches Ok(proto) ==> {
            &&& proto.wf()
            &&& proto.captures_environment_only()
            &&& proto.fixed_params == 0
            &&& proto.opcodes@.len() > 0
            &&& proto.opcodes@.last() is Return
        },
        forall|fuel: nat| compiled_as(#[trigger] crate::lowering::compiled(fuel, *chunk), r),
{
    Compiler::compile(chunk)
}

/// Once a local has been declared, its name is in scope, with what was in
/// scope before.
pub proof fn lemma_last_local_covers(
    before: Compiler,
    after: Compiler,
    name: Seq<u8>,
    scope: Set<Seq<u8>>,
)
    requires
        before.steps_to(after),
        before.covers(scope),
        after.functions.top.locals@.len() > 0,
        after.functions.top.locals@.last().0@ == name,
    ensures
        after.covers(scope.union(set![name])),
{
    before.lemma_covers(after);
    let top = after.functions.top;
    assert forall|n: Seq<u8>| #[trigger] scope.union(set![name]).contains(n) implies named(
        after.functions@,
        n,
    ) by {
        if !scope.contains(n) {
            assert(n == name);
            lemma_innermost_local_found(
                top.locals@,
                n,
                top.locals@.len() as int,
                top.locals@.len() - 1,
            );
            assert(after.functions@[after.functions@.len() - 1] == top);
            assert(has_name(after.functions@[after.functions@.len() - 1], n));
        }
    }
}

/// Once locals have been declared, their names are in scope, with what
/// was in scope before.
pub proof fn lemma_locals_cover(
    before: Compiler,
    after: Compiler,
    names: Seq<Vec<u8>>,
    scope: Set<Seq<u8>>,
)
    requires
        before.steps_to(after),
        before.covers(scope),
        after.functions.top.locals@.len() == before.functions.top.locals@.len() + names.len(),
        forall|i: int|
            0 <= i < names.len()
                ==> (#[trigger] after.functions.top.locals@[before.functions.top.locals@.len()
                + i]).0@ == names[i]@,
    ensures
        after.covers(scope.union(name_set(names))),
{
    before.lemma_covers(after);
    let top = after.functions.top;
    let base = before.functions.top.locals@.len();
    assert forall|n: Seq<u8>| #[trigger] scope.union(name_set(names)).contains(n) implies named(
        after.functions@,
        n,
    ) by {
        if !scope.contains(n) {
            let i = choose|i: int| 0 <= i < names.len() && (#[trigger] names[i])@ == n;
            assert(top.locals@[base + i].0@ == n);
            lemma_innermost_local_found(top.locals@, n, top.locals@.len() as int, base + i);
            assert(after.functions@[after.functions@.len() - 1] == top);
            assert(has_name(after.functions@[after.functions@.len() - 1], n));
        }
    }
}

/// A step of the compilation keeps the locals that there are.
pub proof fn lemma_locals_kept(before: Compiler, after: Compiler)
    requires
        before.steps_to(after),
    ensures
        forall|i: int|
            0 <= i < before.functions.top.locals@.len()
                ==> #[trigger] after.functions.top.locals@[i]
                == before.functions.top.locals@[i],
{
    reveal(Compiler::extends_to);
    let t = before.functions@.len() - 1;
    assert(before.functions@[t].grows_to(after.functions@[t]));
    assert(before.functions@[t] == before.functions.top);
    assert(after.functions@[t] == after.functions.top);
}

/// Binding a local keeps the locals that there are.
pub proof fn lemma_local_bound(before: Compiler, after: Compiler)
    requires
        after.functions.top.locals@.drop_last() == before.functions.top.locals@,
        after.functions.top.locals@.len() == before.functions.top.locals@.len() + 1,
    ensures
        forall|i: int|
            0 <= i < before.functions.top.locals@.len()
                ==> #[trigger] after.functions.top.locals@[i]
                == before.functions.top.locals@[i],
{
    assert forall|i: int| 0 <= i < before.functions.top.locals@.len() implies
        #[trigger] after.functions.top.locals@[i] == before.functions.top.locals@[i] by {
        assert(after.functions.top.locals@[i] == after.functions.top.locals@.drop_last()[i]);
    }
}

/// The outermost function, when its body has been compiled, is consistent
/// and captures the global environment at most.
proof fn lemma_outermost(origin: Compiler, compiled: Compiler)
    requires
        origin.functions@.len() == 1,
        origin.functions.top.fixed_params == 0,
        origin.steps_to(compiled),
    ensures
        compiled.functions.top.wf(),
        compiled.functions.top.fixed_params == 0,
        crate::state::environment_only(compiled.functions.top.upvalues@),
{
    reveal(Compiler::wf);
    reveal(Compiler::extends_to);
    assert(compiled.functions@[0] == compiled.functions.top);
    assert(origin.functions@[0] == origin.functions.top);
    assert(origin.functions@[0].grows_to(compiled.functions@[0]));
}

} // verus!
