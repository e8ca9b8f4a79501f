//! Operators and table accesses: choosing the operand forms of their
//! instructions.

use vstd::prelude::*;
use crate::ast::{expression_size, BinaryOperator, Expression, UnaryOperator};
use crate::descriptor::{disjoint, ExprDescriptor, ExprDestination, RegisterOrConstant};
use crate::error::{CompileError, CompilerLimit, Unsupported};
use crate::opcode::{BinOpArgs, OpCode, RegisterIndex};
use crate::operators::{
    binop_category, categorize_binop, comparison_binop_folded, comparison_binop_opcodes,
    comparison_instructions, fold_comparison_binop, fold_simple_binop, fold_unop,
    simple_binop_folded, simple_binop_in_table, simple_binop_instruction, simple_binop_opcode,
    unop_folded, unop_in_table, unop_instruction, unop_opcode, BinOpCategory, ComparisonBinOp,
    SimpleBinOp,
};
use crate::scope::{closed_descriptor, closed_expression};
use crate::state::Compiler;
use crate::walk::{folds_with_literal, local_operand};
use crate::value::{Value, ValueView};

use crate::model::{
    agrees, described, follows, operand_view, operands, read_as, with_top, written_as, FrameView,
};
verus! {

/// What a unary operator yields on an operand that has been compiled, where
/// that is known now: the operand is a constant of a type that admits it.
pub open spec fn unop_folds(unop: UnaryOperator, expr: ExprDescriptor<'_>) -> Option<ValueView> {
    match expr {
        ExprDescriptor::Value(operand) => unop_folded(unop, operand@),
        _ => None,
    }
}

/// What a simple binary operator yields on two operands that have been
/// compiled, where that is known now: both are constants of types that
/// admit it.
pub open spec fn simple_binop_folds(
    op: SimpleBinOp,
    left: ExprDescriptor<'_>,
    right: ExprDescriptor<'_>,
) -> Option<ValueView> {
    match (left, right) {
        (ExprDescriptor::Value(a), ExprDescriptor::Value(b)) => simple_binop_folded(op, a@, b@),
        _ => None,
    }
}

/// What a comparison yields on two operands that have been compiled, where
/// that is known now: both are constants of types that admit it.
pub open spec fn comparison_binop_folds(
    op: ComparisonBinOp,
    left: ExprDescriptor<'_>,
    right: ExprDescriptor<'_>,
) -> Option<ValueView> {
    match (left, right) {
        (ExprDescriptor::Value(a), ExprDescriptor::Value(b)) => comparison_binop_folded(
            op,
            a@,
            b@,
        ),
        _ => None,
    }
}

impl Compiler {
    /// The lowest free register of the innermost function.
    pub open spec fn next_register(self) -> RegisterIndex {
        RegisterIndex(self.functions.top.register_allocator.first_free as u8)
    }

    /// Whether `after` is this state once the lowest free register has been
    /// allocated and `op` has been emitted.
    pub open spec fn emitted_with_new(self, op: OpCode, after: Compiler) -> bool {
        &&& after.functions.lower == self.functions.lower
        &&& self.functions.top.same_but_registers_and_code(after.functions.top)
        &&& self.functions.top.register_allocator.allocates_to(
            after.functions.top.register_allocator,
        )
        &&& after.functions.top.opcodes@ == self.functions.top.opcodes@.push(op)
    }

    /// What an instruction that leaves its result in a new temporary
    /// register comes to, where its operands are in registers that stay as
    /// they are: it fails if no register is free, and otherwise the lowest
    /// free register is allocated for the result and `op` is emitted.
    pub open spec fn computed_into_new(
        self,
        op: OpCode,
        r: Result<ExprDescriptor<'_>, CompileError>,
        after: Compiler,
    ) -> bool {
        if self.functions.top.register_allocator.first_free >= 256 {
            r matches Err(e) && e == CompileError::Limit(CompilerLimit::Registers)
        } else {
            &&& r matches Ok(ExprDescriptor::Register { register, is_temporary })
            &&& register == self.next_register()
            &&& is_temporary
            &&& self.emitted_with_new(op, after)
        }
    }

    /// What a comparison that leaves its result in a new temporary register
    /// comes to, where its operands are in registers that stay as they are:
    /// it fails if no register is free, and otherwise the lowest free
    /// register is allocated for the result and the instructions of the
    /// comparison are emitted.
    pub open spec fn compared_into_new(
        self,
        op: ComparisonBinOp,
        args: BinOpArgs,
        r: Result<ExprDescriptor<'_>, CompileError>,
        after: Compiler,
    ) -> bool {
        if self.functions.top.register_allocator.first_free >= 256 {
            r matches Err(e) && e == CompileError::Limit(CompilerLimit::Registers)
        } else {
            &&& r matches Ok(ExprDescriptor::Register { register, is_temporary })
            &&& register == self.next_register()
            &&& is_temporary
            &&& after.functions.lower == self.functions.lower
            &&& self.functions.top.same_but_registers_and_code(after.functions.top)
            &&& self.functions.top.register_allocator.allocates_to(
                after.functions.top.register_allocator,
            )
            &&& after.functions.top.opcodes@ == self.functions.top.opcodes@
                + comparison_instructions(op, register, args)
        }
    }

    /// A value that is known holds no register.
    pub proof fn lemma_yields_value(self, released: Set<int>, value: ExprDescriptor<'_>)
        requires
            value is Value,
            forall|r: int| !released.contains(r),
        ensures
            self.yields_only(released, value, self),
    {
        assert forall|r: int| !value.holds_temporary(r) by {}
    }

    /// A right operand that has just been compiled holds none of the
    /// registers of the left operand, which is owned as before.
    pub proof fn lemma_operands(
        self,
        left: ExprDescriptor<'_>,
        right: ExprDescriptor<'_>,
        after: Compiler,
    )
        requires
            self.owns(left),
            self.yields(Set::empty(), right, after),
            after.functions.top.locals == self.functions.top.locals,
        ensures
            after.owns(left),
            after.owns(right),
            disjoint(left, right),
    {
        self.lemma_owns_kept(Set::empty(), after, left);
        assert forall|r: int| #[trigger] left.holds_temporary(r) implies !right.holds_temporary(
            r,
        ) by {
            assert(self.allocated(r));
        }
    }

    /// What applying an operator to a left operand and a right operand that
    /// has just been compiled yields.
    pub proof fn lemma_operated(
        self,
        left: ExprDescriptor<'_>,
        right: ExprDescriptor<'_>,
        compiled: Compiler,
        result: ExprDescriptor<'_>,
        after: Compiler,
    )
        requires
            self.owns(left),
            self.yields_only(Set::empty(), right, compiled),
            compiled.yields_only(left.temporaries().union(right.temporaries()), result, after),
        ensures
            self.yields_only(left.temporaries(), result, after),
    {
        assert forall|r: int| #[trigger]
            after.functions.top.register_allocator.allocated(r) implies (
        self.functions.top.register_allocator.allocated(r) && !left.temporaries().contains(r))
            || result.temporaries().contains(r) by {
            if !result.temporaries().contains(r) {
                assert(compiled.functions.top.register_allocator.allocated(r));
                assert(!left.temporaries().union(right.temporaries()).contains(r));
                assert(!right.temporaries().contains(r));
            }
        }
        assert forall|r: int| #[trigger]
            self.functions.top.register_allocator.allocated(r) && !left.temporaries().contains(
                r,
            ) implies after.functions.top.register_allocator.allocated(r) by {
            assert(self.allocated(r));
            assert(compiled.functions.top.register_allocator.allocated(r));
            assert(!right.holds_temporary(r));
            assert(!left.temporaries().union(right.temporaries()).contains(r));
        }
        assert forall|r: int| #[trigger] result.holds_temporary(r) implies !self.allocated(r)
            || left.temporaries().contains(r) by {
            if self.allocated(r) && !left.temporaries().contains(r) {
                assert(self.functions.top.register_allocator.allocated(r));
                assert(compiled.allocated(r));
                assert(!right.holds_temporary(r));
                assert(!left.temporaries().union(right.temporaries()).contains(r));
            }
        }
    }

    /// The register allocated for the result of an operator, after its
    /// operands have been consumed, is a temporary that is owned.
    pub proof fn lemma_result_register(
        self,
        left: ExprDescriptor<'_>,
        right: ExprDescriptor<'_>,
        consumed: Compiler,
        after: Compiler,
        dest: RegisterIndex,
    )
        requires
            self.wf(),
            self.owns(left),
            self.owns(right),
            self.keeps_registers(left.temporaries().union(right.temporaries()), consumed),
            self.accounts(left.temporaries().union(right.temporaries()), Set::empty(), consumed),
            consumed.keeps_registers(Set::empty(), after),
            consumed.accounts(Set::empty(), set![dest.0 as int], after),
            !consumed.allocated(dest.0 as int),
            after.allocated(dest.0 as int),
            after.functions.top.locals == self.functions.top.locals,
        ensures
            self.yields_only(
                left.temporaries().union(right.temporaries()),
                ExprDescriptor::Register { register: dest, is_temporary: true },
                after,
            ),
    {
        let released = left.temporaries().union(right.temporaries());
        self.lemma_top_wf();
        self.lemma_owned_not_local(left);
        self.lemma_owned_not_local(right);
        self.lemma_kept_then(released, consumed, Set::empty(), after);
        self.lemma_kept_wider(released.union(Set::empty()), after, released);
        if self.functions.top.register_allocator.allocated(dest.0 as int) && !released.contains(
            dest.0 as int,
        ) {
            assert(consumed.functions.top.register_allocator.allocated(dest.0 as int));
        }
        self.lemma_yields_temporary(released, after, dest);
        let result = ExprDescriptor::Register { register: dest, is_temporary: true };
        assert forall|r: int| #[trigger]
            after.functions.top.register_allocator.allocated(r) implies (
        self.functions.top.register_allocator.allocated(r) && !released.contains(r))
            || result.temporaries().contains(r) by {
            if r != dest.0 {
                assert(!set![dest.0 as int].contains(r));
                assert(consumed.functions.top.register_allocator.allocated(r));
            } else {
                assert(result.holds_temporary(r));
            }
        }
    }

    /// Reads a field of a table into a new temporary register. A table that
    /// is an upvalue is indexed as it is; any other is put in a register. A
    /// key that is a constant with a small index is named by that index; any
    /// other is put in a register.
    pub fn get_table<'a>(
        &mut self,
        table: &mut ExprDescriptor<'a>,
        key: &mut ExprDescriptor<'a>,
    ) -> (r:
        Result<ExprDescriptor<'a>, CompileError>)
        requires
            old(self).owns(*old(table)),
            old(self).owns(*old(key)),
            disjoint(*old(table), *old(key)),
            old(self).wf(),
            old(self).holds(*old(table)),
            old(self).holds(*old(key)),
        ensures
            forall|scope: Set<Seq<u8>>|
                #![trigger closed_descriptor(*old(table), scope), closed_descriptor(*old(key), scope)]
                closed_descriptor(*old(table), scope) && closed_descriptor(*old(key), scope)
                    && old(self).covers(scope)
                        ==> (r.is_ok() ==> old(self).keeps_outermost(*final(self)) && closed_descriptor(
                    *final(table),
                    scope,
                ) && closed_descriptor(*final(key), scope)),
            match (*old(table), *old(key)) {
                (
                    ExprDescriptor::Register { register: table_register, .. },
                    ExprDescriptor::Register { register: key_register, .. },
                ) => old(self).computed_into_new(
                    OpCode::GetTableR {
                        dest: old(self).next_register(),
                        table: table_register,
                        key: key_register,
                    },
                    r,
                    *final(self),
                ),
                (
                    ExprDescriptor::UpValue(index),
                    ExprDescriptor::Register { register: key_register, .. },
                ) => old(self).computed_into_new(
                    OpCode::GetUpTableR {
                        dest: old(self).next_register(),
                        table: index,
                        key: key_register,
                    },
                    r,
                    *final(self),
                ),
                _ => true,
            },
            r matches Ok(result) ==> {
                &&& old(self).steps_to(*final(self))
                &&& old(self).yields(
                    old(table).temporaries().union(old(key).temporaries()),
                    result,
                    *final(self),
                )
                &&& old(self).yields(
                    old(table).temporaries().union(old(key).temporaries()),
                    *final(table),
                    *final(self),
                )
                &&& old(self).yields(
                    old(table).temporaries().union(old(key).temporaries()),
                    *final(key),
                    *final(self),
                )
                &&& old(self).accounts(
                    old(table).temporaries().union(old(key).temporaries()),
                    result.temporaries().union(final(table).temporaries()).union(
                        final(key).temporaries(),
                    ),
                    *final(self),
                )
                &&& disjoint(*final(table), *final(key))
                &&& disjoint(*final(table), result)
                &&& disjoint(*final(key), result)
                &&& final(self).functions.top.locals == old(self).functions.top.locals
                &&& final(self).holds(*final(table))
                &&& final(self).holds(*final(key))
                &&& final(self).holds(result)
                &&& final(table).weight() <= old(table).weight()
                &&& final(key).weight() <= old(key).weight()
                &&& result matches ExprDescriptor::Register { register, is_temporary }
                &&& is_temporary
                &&& register.0 == old(self).functions.top.register_allocator.first_free
                &&& final(self).functions.top.opcodes@.len() > old(self).functions.top.opcodes@.len()
                &&& match final(self).functions.top.opcodes@.last() {
                    OpCode::GetUpTableC { dest, table: index, .. } => dest == register
                        && *old(table) == ExprDescriptor::UpValue(index) && *old(key) is Value,
                    OpCode::GetUpTableR { dest, table: index, key: key_register } => dest
                        == register && *old(table) == ExprDescriptor::UpValue(index)
                            && final(key)->register == key_register,
                    OpCode::GetTableC { dest, table: table_register, .. } => dest == register
                        && !(*old(table) is UpValue) && final(table)->register == table_register
                        && *old(key) is Value,
                    OpCode::GetTableR { dest, table: table_register, key: key_register } => dest
                        == register && !(*old(table) is UpValue) && final(table)->register
                        == table_register && final(key)->register == key_register,
                    _ => false,
                }
            },
            forall|fuel: nat|
                agrees(
                    #[trigger] crate::lowering::get_table(
                        fuel,
                        old(self)@,
                        operand_view(*old(table)),
                        operand_view(*old(key)),
                    ),
                    read_as(r, *final(table), *final(key)),
                    final(self)@,
                ),
        decreases old(table).weight() + old(key).weight(), 3nat,
    {
        let ghost origin = *self;
        proof {
            origin.lemma_start();
            old(table).lemma_weight_positive();
            old(key).lemma_weight_positive();
        }
        let ghost table_before = *table;
        let ghost key_before = *key;
        let dest = self.allocate()?;
        let ghost allocated = *self;
        proof {
            origin.lemma_step(origin, *self);
            origin.lemma_top_wf();
            origin.lemma_owns_kept(Set::empty(), allocated, table_before);
            origin.lemma_owns_kept(Set::empty(), allocated, key_before);
        }
        let ghost mut tabled = allocated;
        let op = if let ExprDescriptor::UpValue(index) = table {
            let index = *index;
            let ghost at = *self;
            proof {
                assert forall|fuel: nat|
                    follows(
                        #[trigger] crate::lowering::get_table(
                            fuel,
                            old(self)@,
                            operand_view(*old(table)),
                            operand_view(*old(key)),
                        ),
                        crate::lowering::any_register_or_constant(fuel, self@, operand_view(*key)),
                    ) by {}
            }
            let operand = self.expr_any_register_or_constant(key)?;
            proof {
                origin.lemma_step(at, *self);
                assert(table_before.temporaries() =~= Set::empty());
            }
            match operand {
                RegisterOrConstant::Constant(
                    key
                ) => OpCode::GetUpTableC { dest, table: index, key },
                RegisterOrConstant::Register(
                    key
                ) => OpCode::GetUpTableR { dest, table: index, key },
            }
        } else {
            let ghost at = *self;
            proof {
                assert forall|fuel: nat|
                    follows(
                        #[trigger] crate::lowering::get_table(
                            fuel,
                            old(self)@,
                            operand_view(*old(table)),
                            operand_view(*old(key)),
                        ),
                        crate::lowering::any_register(fuel, self@, operand_view(*table)),
                    ) by {}
            }
            let table_register = self.expr_any_register(table)?;
            proof {
                origin.lemma_step(at, *self);
                tabled = *self;
                allocated.lemma_owns_kept(table_before.temporaries(), tabled, key_before);
            }
            let ghost at = *self;
            proof {
                assert forall|fuel: nat|
                    follows(
                        #[trigger] crate::lowering::get_table(
                            fuel,
                            old(self)@,
                            operand_view(*old(table)),
                            operand_view(*old(key)),
                        ),
                        crate::lowering::any_register_or_constant(fuel, self@, operand_view(*key)),
                    ) by {}
            }
            let operand = self.expr_any_register_or_constant(key)?;
            proof {
                origin.lemma_step(at, *self);
            }
            match operand {
                RegisterOrConstant::Constant(key) => OpCode::GetTableC {
                    dest,
                    table: table_register,
                    key,
                },
                RegisterOrConstant::Register(key) => OpCode::GetTableR {
                    dest,
                    table: table_register,
                    key,
                },
            }
        };
        let ghost keyed = *self;
        let ghost at = *self;
        self.emit(op);
        proof {
            origin.lemma_step(at, *self);
            let released = table_before.temporaries().union(key_before.temporaries());
            let result = ExprDescriptor::Register { register: dest, is_temporary: true };
            origin.lemma_owned_not_local(table_before);
            origin.lemma_owned_not_local(key_before);
            origin.lemma_kept_then(Set::empty(), allocated, table_before.temporaries(), tabled);
            origin.lemma_kept_then(
                Set::<int>::empty().union(table_before.temporaries()),
                tabled,
                key_before.temporaries(),
                keyed,
            );
            origin.lemma_kept_wider(
                Set::<int>::empty().union(table_before.temporaries()).union(
                    key_before.temporaries(),
                ),
                keyed,
                released,
            );
            assert(origin.keeps_registers(released, *self));
            assert(allocated.allocated(dest.0 as int));
            assert(!table_before.holds_temporary(dest.0 as int));
            assert(!key_before.holds_temporary(dest.0 as int));
            assert(tabled.allocated(dest.0 as int)) by {
                assert(!table_before.temporaries().contains(dest.0 as int));
            }
            assert(keyed.allocated(dest.0 as int)) by {
                assert(!key_before.temporaries().contains(dest.0 as int));
            }
            origin.lemma_yields_temporary(released, *self, dest);
            assert forall|r: int| #[trigger] table.holds_temporary(r) implies tabled.allocated(r)
                && !key_before.holds_temporary(r) && (!origin.allocated(r) || released.contains(
                r,
            )) && r != dest.0 by {
                if table_before.holds_temporary(r) {
                    assert(table_before.temporaries().contains(r));
                } else {
                    assert(!allocated.allocated(r));
                }
            }
            tabled.lemma_owns_kept(key_before.temporaries(), keyed, *table);
            assert(self.owns(*table));
            assert forall|r: int| #[trigger] key.holds_temporary(r) implies (!origin.allocated(r)
                || released.contains(r)) && r != dest.0 && !table.holds_temporary(r) by {
                if key_before.holds_temporary(r) {
                    assert(key_before.temporaries().contains(r));
                } else {
                    assert(!tabled.allocated(r));
                }
            }
            assert(self.owns(*key));
        }
        Ok(ExprDescriptor::Register { register: dest, is_temporary: true })
    }

    /// Writes a field of a table. The table and the key are named as in a
    /// read; the value is named by its index if it is a constant with a
    /// small index, and is put in a register otherwise.
    pub fn set_table<'a>(
        &mut self,
        table: &mut ExprDescriptor<'a>,
        key: &mut ExprDescriptor<'a>,
        value: &mut ExprDescriptor<'a>,
    ) -> (r: Result<(), CompileError>)
        requires
            old(self).owns(*old(table)),
            old(self).owns(*old(key)),
            old(self).owns(*old(value)),
            disjoint(*old(table), *old(key)),
            disjoint(*old(table), *old(value)),
            disjoint(*old(key), *old(value)),
            old(self).wf(),
            old(self).holds(*old(table)),
            old(self).holds(*old(key)),
            old(self).holds(*old(value)),
        ensures
            forall|scope: Set<Seq<u8>>|
                #![trigger closed_descriptor(*old(table), scope), closed_descriptor(*old(key), scope), closed_descriptor(*old(value), scope)]
                closed_descriptor(*old(table), scope) && closed_descriptor(*old(key), scope)
                    && closed_descriptor(*old(value), scope) && old(self).covers(scope) ==> (
                r.is_ok()
                    ==> old(self).keeps_outermost(*final(self))
                        && closed_descriptor(*final(table), scope)
                    && closed_descriptor(*final(key), scope) && closed_descriptor(
                    *final(value),
                    scope,
                )),
            match (*old(table), *old(key), *old(value)) {
                (
                    ExprDescriptor::Register { register: table_register, .. },
                    ExprDescriptor::Register { register: key_register, .. },
                    ExprDescriptor::Register { register: value_register, .. },
                ) => {
                    &&& r.is_ok()
                    &&& final(self).functions.lower == old(self).functions.lower
                    &&& old(self).functions.top.same_but_code(final(self).functions.top)
                    &&& final(self).functions.top.opcodes@ == old(self).functions.top.opcodes@.push(
                        OpCode::SetTableRR {
                            table: table_register,
                            key: key_register,
                            value: value_register,
                        },
                    )
                },
                (
                    ExprDescriptor::UpValue(index),
                    ExprDescriptor::Register { register: key_register, .. },
                    ExprDescriptor::Register { register: value_register, .. },
                ) => {
                    &&& r.is_ok()
                    &&& final(self).functions.lower == old(self).functions.lower
                    &&& old(self).functions.top.same_but_code(final(self).functions.top)
                    &&& final(self).functions.top.opcodes@ == old(self).functions.top.opcodes@.push(
                        OpCode::SetUpTableRR {
                            table: index,
                            key: key_register,
                            value: value_register,
                        },
                    )
                },
                _ => true,
            },
            r matches Ok(()) ==> {
                &&& old(self).steps_to(*final(self))
                &&& old(self).yields(
                    old(table).temporaries().union(
                        old(key).temporaries()
                    ).union(old(value).temporaries()),
                    *final(table),
                    *final(self),
                )
                &&& old(self).yields(
                    old(table).temporaries().union(
                        old(key).temporaries()
                    ).union(old(value).temporaries()),
                    *final(key),
                    *final(self),
                )
                &&& old(self).yields(
                    old(table).temporaries().union(
                        old(key).temporaries()
                    ).union(old(value).temporaries()),
                    *final(value),
                    *final(self),
                )
                &&& old(self).accounts(
                    old(table).temporaries().union(
                        old(key).temporaries()
                    ).union(old(value).temporaries()),
                    final(table).temporaries().union(final(key).temporaries()).union(
                        final(value).temporaries(),
                    ),
                    *final(self),
                )
                &&& disjoint(*final(table), *final(key))
                &&& disjoint(*final(table), *final(value))
                &&& disjoint(*final(key), *final(value))
                &&& final(self).functions.top.locals == old(self).functions.top.locals
                &&& final(self).holds(*final(table))
                &&& final(self).holds(*final(key))
                &&& final(self).holds(*final(value))
                &&& final(table).weight() <= old(table).weight()
                &&& final(key).weight() <= old(key).weight()
                &&& final(value).weight() <= old(value).weight()
                &&& final(self).functions.top.opcodes@.len() > old(self).functions.top.opcodes@.len()
                &&& match final(self).functions.top.opcodes@.last() {
                    OpCode::SetUpTableRR { table: index, key: key_register, value: value_register } => {
                        &&& *old(table) == ExprDescriptor::UpValue(index)
                        &&& final(key)->register == key_register
                        &&& final(value)->register == value_register
                    },
                    OpCode::SetUpTableRC { table: index, key: key_register, .. } => {
                        &&& *old(table) == ExprDescriptor::UpValue(index)
                        &&& final(key)->register == key_register
                        &&& *old(value) is Value
                    },
                    OpCode::SetUpTableCR { table: index, value: value_register, .. } => {
                        &&& *old(table) == ExprDescriptor::UpValue(index)
                        &&& *old(key) is Value
                        &&& final(value)->register == value_register
                    },
                    OpCode::SetUpTableCC { table: index, .. } => {
                        &&& *old(table) == ExprDescriptor::UpValue(index)
                        &&& *old(key) is Value
                        &&& *old(value) is Value
                    },
                    OpCode::SetTableRR {
                        table: table_register,
                        key: key_register,
                        value: value_register,
                    } => {
                        &&& !(*old(table) is UpValue)
                        &&& final(table)->register == table_register
                        &&& final(key)->register == key_register
                        &&& final(value)->register == value_register
                    },
                    OpCode::SetTableRC { table: table_register, key: key_register, .. } => {
                        &&& !(*old(table) is UpValue)
                        &&& final(table)->register == table_register
                        &&& final(key)->register == key_register
                        &&& *old(value) is Value
                    },
                    OpCode::SetTableCR { table: table_register, value: value_register, .. } => {
                        &&& !(*old(table) is UpValue)
                        &&& final(table)->register == table_register
                        &&& *old(key) is Value
                        &&& final(value)->register == value_register
                    },
                    OpCode::SetTableCC { table: table_register, .. } => {
                        &&& !(*old(table) is UpValue)
                        &&& final(table)->register == table_register
                        &&& *old(key) is Value
                        &&& *old(value) is Value
                    },
                    _ => false,
                }
            },
            forall|fuel: nat|
                agrees(
                    #[trigger] crate::lowering::set_table(
                        fuel,
                        old(self)@,
                        operand_view(*old(table)),
                        operand_view(*old(key)),
                        operand_view(*old(value)),
                    ),
                    written_as(r, *final(table), *final(key), *final(value)),
                    final(self)@,
                ),
        decreases old(table).weight() + old(key).weight() + old(value).weight(), 3nat,
    {
        let ghost origin = *self;
        proof {
            origin.lemma_start();
            old(table).lemma_weight_positive();
            old(key).lemma_weight_positive();
            old(value).lemma_weight_positive();
        }
        let op = if let ExprDescriptor::UpValue(index) = table {
            let index = *index;
            let ghost at = *self;
            proof {
                assert forall|fuel: nat|
                    follows(
                        #[trigger] crate::lowering::set_table(
                            fuel,
                            old(self)@,
                            operand_view(*old(table)),
                            operand_view(*old(key)),
                            operand_view(*old(value)),
                        ),
                        crate::lowering::any_register_or_constant(fuel, self@, operand_view(*key)),
                    ) by {}
            }
            let key_operand = self.expr_any_register_or_constant(key)?;
            proof {
                origin.lemma_step(at, *self);
            }
            let ghost at = *self;
            proof {
                assert forall|fuel: nat|
                    follows(
                        #[trigger] crate::lowering::set_table(
                            fuel,
                            old(self)@,
                            operand_view(*old(table)),
                            operand_view(*old(key)),
                            operand_view(*old(value)),
                        ),
                        crate::lowering::any_register_or_constant(
                            fuel,
                            self@,
                            operand_view(*value),
                        ),
                    ) by {}
            }
            let value_operand = self.expr_any_register_or_constant(value)?;
            proof {
                origin.lemma_step(at, *self);
            }
            match (key_operand, value_operand) {
                (RegisterOrConstant::Register(key), RegisterOrConstant::Register(value)) => {
                    OpCode::SetUpTableRR { table: index, key, value }
                },
                (RegisterOrConstant::Register(key), RegisterOrConstant::Constant(value)) => {
                    OpCode::SetUpTableRC { table: index, key, value }
                },
                (RegisterOrConstant::Constant(key), RegisterOrConstant::Register(value)) => {
                    OpCode::SetUpTableCR { table: index, key, value }
                },
                (RegisterOrConstant::Constant(key), RegisterOrConstant::Constant(value)) => {
                    OpCode::SetUpTableCC { table: index, key, value }
                },
            }
        } else {
            let ghost at = *self;
            proof {
                assert forall|fuel: nat|
                    follows(
                        #[trigger] crate::lowering::set_table(
                            fuel,
                            old(self)@,
                            operand_view(*old(table)),
                            operand_view(*old(key)),
                            operand_view(*old(value)),
                        ),
                        crate::lowering::any_register(fuel, self@, operand_view(*table)),
                    ) by {}
            }
            let table_register = self.expr_any_register(table)?;
            proof {
                origin.lemma_step(at, *self);
            }
            let ghost at = *self;
            proof {
                assert forall|fuel: nat|
                    follows(
                        #[trigger] crate::lowering::set_table(
                            fuel,
                            old(self)@,
                            operand_view(*old(table)),
                            operand_view(*old(key)),
                            operand_view(*old(value)),
                        ),
                        crate::lowering::any_register_or_constant(fuel, self@, operand_view(*key)),
                    ) by {}
            }
            let key_operand = self.expr_any_register_or_constant(key)?;
            proof {
                origin.lemma_step(at, *self);
            }
            let ghost at = *self;
            proof {
                assert forall|fuel: nat|
                    follows(
                        #[trigger] crate::lowering::set_table(
                            fuel,
                            old(self)@,
                            operand_view(*old(table)),
                            operand_view(*old(key)),
                            operand_view(*old(value)),
                        ),
                        crate::lowering::any_register_or_constant(
                            fuel,
                            self@,
                            operand_view(*value),
                        ),
                    ) by {}
            }
            let value_operand = self.expr_any_register_or_constant(value)?;
            proof {
                origin.lemma_step(at, *self);
            }
            match (key_operand, value_operand) {
                (RegisterOrConstant::Register(key), RegisterOrConstant::Register(value)) => {
                    OpCode::SetTableRR { table: table_register, key, value }
                },
                (RegisterOrConstant::Register(key), RegisterOrConstant::Constant(value)) => {
                    OpCode::SetTableRC { table: table_register, key, value }
                },
                (RegisterOrConstant::Constant(key), RegisterOrConstant::Register(value)) => {
                    OpCode::SetTableCR { table: table_register, key, value }
                },
                (RegisterOrConstant::Constant(key), RegisterOrConstant::Constant(value)) => {
                    OpCode::SetTableCC { table: table_register, key, value }
                },
            }
        };
        let ghost at = *self;
        self.emit(op);
        proof {
            origin.lemma_step(at, *self);
        }
        Ok(())
    }

    /// Applies a unary operator. On a constant operand of a type that
    /// admits it the result is computed now; otherwise the operand is put in
    /// a register and the operator's instruction leaves the result in a new
    /// temporary register.
    pub fn unary_operator<'a>(
        &mut self,
        unop: UnaryOperator,
        expr: ExprDescriptor<'a>,
    ) -> (r: Result<
        ExprDescriptor<'a>,
        CompileError,
    >)
        requires
            old(self).owns(expr),
            old(self).wf(),
            old(self).holds(expr),
        ensures
            forall|scope: Set<Seq<u8>>|
                #[trigger] closed_descriptor(expr, scope) && old(self).covers(scope)
                    ==> (
                        r.is_ok()
                            ==> old(self).keeps_outermost(*final(self))
                                && closed_descriptor(r.unwrap(), scope)
                    ),
            !unop_in_table(unop) ==> {
                &&& r matches Err(e)
                &&& e == CompileError::Unsupported(Unsupported::UnaryOperator)
                &&& *final(self) == *old(self)
            },
            unop_in_table(unop) ==> (unop_folds(unop, expr) matches Some(folded) ==> {
                &&& r matches Ok(ExprDescriptor::Value(value))
                &&& value@ == folded
                &&& *final(self) == *old(self)
            }),
            unop_in_table(unop) ==> (expr matches ExprDescriptor::Register {
                register: source,
                is_temporary: false,
            } ==> old(self).computed_into_new(
                unop_instruction(unop, old(self).next_register(), source),
                r,
                *final(self),
            )),
            r matches Ok(result) ==> {
                &&& old(self).steps_to(*final(self))
                &&& old(self).yields_only(expr.temporaries(), result, *final(self))
                &&& final(self).functions.top.locals == old(self).functions.top.locals
                &&& final(self).holds(result)
                &&& result.weight() == 1
                &&& unop_folds(unop, expr).is_none() ==> {
                    &&& result matches ExprDescriptor::Register { register, is_temporary }
                    &&& is_temporary
                    &&& final(self).functions.top.opcodes@.len() > old(self).functions.top.opcodes@.len()
                    &&& match final(self).functions.top.opcodes@.last() {
                        OpCode::Not { dest, .. } => unop == UnaryOperator::Not && dest == register,
                        OpCode::Minus { dest, .. } => unop == UnaryOperator::Minus && dest
                            == register,
                        _ => false,
                    }
                }
            },
            forall|fuel: nat|
                agrees(
                    #[trigger] crate::lowering::unary_operator(
                        fuel,
                        old(self)@,
                        unop,
                        operand_view(expr),
                    ),
                    described(r),
                    final(self)@,
                ),
        decreases expr.weight(), 3nat,
    {
        let ghost operand_was = operand_view(expr);
        let ghost origin = *self;
        proof {
            origin.lemma_start();
        }
        if unop_opcode(unop, RegisterIndex(0), RegisterIndex(0)).is_none() {
            return Err(CompileError::Unsupported(Unsupported::UnaryOperator));
        }
        if let ExprDescriptor::Value(operand) = &expr {
            if let Some(folded) = fold_unop(unop, operand) {
                proof {
                    origin.lemma_yields_value(expr.temporaries(), ExprDescriptor::Value(folded));
                }
                return Ok(ExprDescriptor::Value(folded));
            }
        }
        let ghost operand = expr;
        let mut expr = expr;
        proof {
            assert forall|fuel: nat|
                follows(
                    #[trigger] crate::lowering::unary_operator(fuel, old(self)@, unop, operand_was),
                    crate::lowering::any_register(fuel, self@, operand_view(expr)),
                ) by {}
        }
        let source = self.expr_any_register(&mut expr)?;
        let ghost held = expr;
        let ghost coerced = *self;
        proof {
            origin.lemma_step(origin, *self);
        }
        let ghost at = *self;
        proof {
            assert forall|fuel: nat|
                follows(
                    #[trigger] crate::lowering::unary_operator(fuel, old(self)@, unop, operand_was),
                    crate::lowering::discharge(
                        fuel,
                        self@,
                        operand_view(expr),
                        ExprDestination::Nowhere,
                    ),
                ) by {}
        }
        self.expr_discharge(expr, ExprDestination::Nowhere)?;
        let ghost discharged = *self;
        proof {
            origin.lemma_step(at, *self);
            origin.lemma_released_then(operand.temporaries(), held, coerced, discharged);
        }
        let ghost at = *self;
        let dest = self.allocate()?;
        proof {
            origin.lemma_step(at, *self);
        }
        let op = unop_opcode(unop, dest, source).unwrap();
        let ghost at = *self;
        self.emit(op);
        proof {
            origin.lemma_step(at, *self);
            origin.lemma_top_wf();
            origin.lemma_owned_not_local(operand);
            origin.lemma_kept_then(operand.temporaries(), discharged, Set::empty(), *self);
            origin.lemma_kept_wider(
                operand.temporaries().union(Set::empty()),
                *self,
                operand.temporaries(),
            );
            assert(!origin.allocated(dest.0 as int) || operand.temporaries().contains(
                dest.0 as int,
            )) by {
                if origin.functions.top.register_allocator.allocated(dest.0 as int)
                    && !operand.temporaries().contains(dest.0 as int) {
                    assert(discharged.functions.top.register_allocator.allocated(dest.0 as int));
                }
            }
            origin.lemma_yields_temporary(operand.temporaries(), *self, dest);
        }
        Ok(ExprDescriptor::Register { register: dest, is_temporary: true })
    }

    /// Applies a binary operator to a left operand that has been compiled
    /// and a right operand that has not. `and` and `or` are put off, since
    /// their right operand may not be evaluated at all; for every other
    /// operator the right operand is compiled now.
    pub fn binary_operator<'a>(
        &mut self,
        left: ExprDescriptor<'a>,
        binop: BinaryOperator,
        right: &'a Expression,
    ) -> (r: Result<ExprDescriptor<'a>, CompileError>)
        requires
            old(self).owns(left),
            old(self).wf(),
            old(self).holds(left),
        ensures
            forall|scope: Set<Seq<u8>>|
                #![trigger closed_descriptor(left, scope), closed_expression(*right, scope)]
                closed_descriptor(left, scope) && closed_expression(*right, scope)
                    && old(self).covers(scope)
                        ==> (
                            r.is_ok()
                                ==> old(self).keeps_outermost(*final(self))
                                    && closed_descriptor(r.unwrap(), scope)
                        ),
            binop_category(binop) is Concat ==> {
                &&& r matches Err(e)
                &&& e == CompileError::Unsupported(Unsupported::ConcatOperator)
                &&& *final(self) == *old(self)
            },
            binop_category(binop) matches BinOpCategory::Simple(op) && !simple_binop_in_table(op)
                ==> {
                &&& r matches Err(e)
                &&& e == CompileError::Unsupported(Unsupported::BinaryOperator)
                &&& *final(self) == *old(self)
            },
            binop_category(binop) matches BinOpCategory::ShortCircuit(op) ==> {
                &&& r matches Ok(ExprDescriptor::ShortCircuitBinOp { left: l, op: o, right: e })
                &&& *l == left
                &&& o == op
                &&& *e == *right
                &&& *final(self) == *old(self)
            },
            folds_with_literal(left, binop, *right) matches Some(folded) ==> {
                &&& r matches Ok(ExprDescriptor::Value(value))
                &&& value@ == folded
                &&& *final(self) == *old(self)
            },
            left matches ExprDescriptor::Register { register, is_temporary: false } ==> (local_operand(
                *old(self),
                *right,
            ) matches Some(local) ==> match binop_category(binop) {
                BinOpCategory::Simple(op) => simple_binop_in_table(op)
                    ==> old(self).computed_into_new(
                    simple_binop_instruction(
                        op,
                        old(self).next_register(),
                        BinOpArgs::RR(register, local),
                    ),
                    r,
                    *final(self),
                ),
                BinOpCategory::Comparison(op) => old(self).compared_into_new(
                    op,
                    BinOpArgs::RR(register, local),
                    r,
                    *final(self),
                ),
                _ => true,
            }),
            r matches Ok(result) ==> {
                &&& old(self).steps_to(*final(self))
                &&& old(self).yields_only(left.temporaries(), result, *final(self))
                &&& final(self).functions.top.locals == old(self).functions.top.locals
                &&& final(self).holds(result)
                &&& result.weight() <= left.weight() + expression_size(*right) + 1
            },
            forall|fuel: nat|
                agrees(
                    #[trigger] crate::lowering::binary_operator(
                        fuel,
                        old(self)@,
                        operand_view(left),
                        binop,
                        *right,
                    ),
                    described(r),
                    final(self)@,
                ),
        decreases left.weight() + expression_size(*right) + 1, 0nat,
    {
        let ghost left_was = operand_view(left);
        let ghost right_was = *right;
        let ghost origin = *self;
        proof {
            origin.lemma_start();
            left.lemma_weight_positive();
        }
        match categorize_binop(binop) {
            BinOpCategory::Simple(op) => {
                if simple_binop_opcode(
                    op,
                    RegisterIndex(0),
                    BinOpArgs::RR(RegisterIndex(0), RegisterIndex(0)),
                ).is_none() {
                    return Err(CompileError::Unsupported(Unsupported::BinaryOperator));
                }
                proof {
                    assert forall|fuel: nat|
                        follows(
                            #[trigger] crate::lowering::binary_operator(
                                fuel,
                                old(self)@,
                                left_was,
                                binop,
                                right_was,
                            ),
                            crate::lowering::expression((fuel - 1) as nat, self@, right_was),
                        ) by {}
                }
                let right = self.expression(right)?;
                proof {
                    origin.lemma_step(origin, *self);
                    origin.lemma_operands(left, right, *self);
                }
                let ghost at = *self;
                proof {
                    assert forall|fuel: nat|
                        follows(
                            #[trigger] crate::lowering::binary_operator(
                                fuel,
                                old(self)@,
                                left_was,
                                binop,
                                right_was,
                            ),
                            crate::lowering::simple_binary_operation(
                                fuel,
                                self@,
                                op,
                                left_was,
                                operand_view(right),
                            ),
                        ) by {}
                }
                let result = self.simple_binary_operation(op, left, right)?;
                proof {
                    origin.lemma_step(at, *self);
                    origin.lemma_operated(left, right, at, result, *self);
                }
                Ok(result)
            },
            BinOpCategory::Comparison(op) => {
                proof {
                    assert forall|fuel: nat|
                        follows(
                            #[trigger] crate::lowering::binary_operator(
                                fuel,
                                old(self)@,
                                left_was,
                                binop,
                                right_was,
                            ),
                            crate::lowering::expression((fuel - 1) as nat, self@, right_was),
                        ) by {}
                }
                let right = self.expression(right)?;
                proof {
                    origin.lemma_step(origin, *self);
                    origin.lemma_operands(left, right, *self);
                }
                let ghost at = *self;
                proof {
                    assert forall|fuel: nat|
                        follows(
                            #[trigger] crate::lowering::binary_operator(
                                fuel,
                                old(self)@,
                                left_was,
                                binop,
                                right_was,
                            ),
                            crate::lowering::comparison_binary_operation(
                                fuel,
                                self@,
                                op,
                                left_was,
                                operand_view(right),
                            ),
                        ) by {}
                }
                let result = self.comparison_binary_operation(op, left, right)?;
                proof {
                    origin.lemma_step(at, *self);
                    origin.lemma_operated(left, right, at, result, *self);
                }
                Ok(result)
            },
            BinOpCategory::ShortCircuit(op) => {
                let result = ExprDescriptor::ShortCircuitBinOp { left: Box::new(left), op, right };
                proof {
                    assert forall|r: int| #[trigger] result.holds_temporary(r)
                        implies self.allocated(
                        r,
                    ) && !crate::state::local_register(self.functions.top.locals@, r)
                        && left.temporaries().contains(r) by {
                        assert(left.holds_temporary(r));
                    }
                }
                Ok(result)
            },
            BinOpCategory::Concat => Err(CompileError::Unsupported(Unsupported::ConcatOperator)),
        }
    }

    /// Applies a simple binary operator to two operands that have been
    /// compiled. On two constants of types that admit it the result is
    /// computed now, and nothing is emitted; otherwise the operator's
    /// instruction leaves the result in a new temporary register.
    pub fn simple_binary_operation<'a>(
        &mut self,
        op: SimpleBinOp,
        left: ExprDescriptor<'a>,
        right: ExprDescriptor<'a>,
    ) -> (r: Result<ExprDescriptor<'a>, CompileError>)
        requires
            old(self).owns(left),
            old(self).owns(right),
            disjoint(left, right),
            old(self).wf(),
            old(self).holds(left),
            old(self).holds(right),
            simple_binop_in_table(op),
        ensures
            forall|scope: Set<Seq<u8>>|
                #![trigger closed_descriptor(left, scope), closed_descriptor(right, scope)]
                closed_descriptor(left, scope) && closed_descriptor(right, scope)
                    && old(self).covers(scope)
                        ==> (
                            r.is_ok()
                                ==> old(self).keeps_outermost(*final(self))
                                    && closed_descriptor(r.unwrap(), scope)
                        ),
            simple_binop_folds(op, left, right) matches Some(folded) ==> {
                &&& r matches Ok(ExprDescriptor::Value(value))
                &&& value@ == folded
                &&& *final(self) == *old(self)
            },
            (left, right) matches (
                ExprDescriptor::Register { register: left_register, is_temporary: false },
                ExprDescriptor::Register { register: right_register, is_temporary: false },
            ) ==> old(self).computed_into_new(
                simple_binop_instruction(
                    op,
                    old(self).next_register(),
                    BinOpArgs::RR(left_register, right_register),
                ),
                r,
                *final(self),
            ),
            r matches Ok(result) ==> {
                &&& old(self).steps_to(*final(self))
                &&& old(self).yields_only(
                    left.temporaries().union(right.temporaries()),
                    result,
                    *final(self),
                )
                &&& final(self).functions.top.locals == old(self).functions.top.locals
                &&& final(self).holds(result)
                &&& result.weight() == 1
                &&& simple_binop_folds(op, left, right).is_none() ==> {
                    &&& result matches ExprDescriptor::Register { register, is_temporary }
                    &&& is_temporary
                    &&& final(self).functions.top.opcodes@.len() > old(self).functions.top.opcodes@.len()
                }
            },
            forall|fuel: nat|
                agrees(
                    #[trigger] crate::lowering::simple_binary_operation(
                        fuel,
                        old(self)@,
                        op,
                        operand_view(left),
                        operand_view(right),
                    ),
                    described(r),
                    final(self)@,
                ),
        decreases left.weight() + right.weight(), 4nat,
    {
        let ghost left_was = operand_view(left);
        let ghost right_was = operand_view(right);
        let ghost origin = *self;
        proof {
            origin.lemma_start();
        }
        if let ExprDescriptor::Value(a) = &left {
            if let ExprDescriptor::Value(b) = &right {
                if let Some(folded) = fold_simple_binop(op, a, b) {
                    proof {
                        origin.lemma_yields_value(
                            left.temporaries().union(right.temporaries()),
                            ExprDescriptor::Value(folded),
                        );
                    }
                    return Ok(ExprDescriptor::Value(folded));
                }
            }
        }
        proof {
            assert forall|fuel: nat|
                follows(
                    #[trigger] crate::lowering::simple_binary_operation(
                        fuel,
                        old(self)@,
                        op,
                        left_was,
                        right_was,
                    ),
                    crate::lowering::make_binop_args(fuel, self@, left_was, right_was),
                ) by {}
        }
        let args = self.make_binop_args(left, right)?;
        let ghost operands = *self;
        proof {
            origin.lemma_step(origin, *self);
        }
        let ghost at = *self;
        let dest = self.allocate()?;
        proof {
            origin.lemma_step(at, *self);
        }
        let op_code = simple_binop_opcode(op, dest, args).unwrap();
        let ghost at = *self;
        self.emit(op_code);
        proof {
            origin.lemma_step(at, *self);
            assert(self.functions.top.opcodes@.last() == simple_binop_instruction(op, dest, args));
            origin.lemma_result_register(left, right, operands, *self, dest);
        }
        Ok(ExprDescriptor::Register { register: dest, is_temporary: true })
    }

    /// Applies a comparison to two operands that have been compiled. On two
    /// constants of types that admit it the result is computed now, and
    /// nothing is emitted; otherwise the comparison's instructions leave the
    /// result in a new temporary register.
    #[verifier::rlimit(20)]
    pub fn comparison_binary_operation<'a>(
        &mut self,
        op: ComparisonBinOp,
        left: ExprDescriptor<'a>,
        right: ExprDescriptor<'a>,
    ) -> (r: Result<ExprDescriptor<'a>, CompileError>)
        requires
            old(self).owns(left),
            old(self).owns(right),
            disjoint(left, right),
            old(self).wf(),
            old(self).holds(left),
            old(self).holds(right),
        ensures
            forall|scope: Set<Seq<u8>>|
                #![trigger closed_descriptor(left, scope), closed_descriptor(right, scope)]
                closed_descriptor(left, scope) && closed_descriptor(right, scope)
                    && old(self).covers(scope)
                        ==> (
                            r.is_ok()
                                ==> old(self).keeps_outermost(*final(self))
                                    && closed_descriptor(r.unwrap(), scope)
                        ),
            comparison_binop_folds(op, left, right) matches Some(folded) ==> {
                &&& r matches Ok(ExprDescriptor::Value(value))
                &&& value@ == folded
                &&& *final(self) == *old(self)
            },
            (left, right) matches (
                ExprDescriptor::Register { register: left_register, is_temporary: false },
                ExprDescriptor::Register { register: right_register, is_temporary: false },
            ) ==> old(self).compared_into_new(
                op,
                BinOpArgs::RR(left_register, right_register),
                r,
                *final(self),
            ),
            r matches Ok(result) ==> {
                &&& old(self).steps_to(*final(self))
                &&& old(self).yields_only(
                    left.temporaries().union(right.temporaries()),
                    result,
                    *final(self),
                )
                &&& final(self).functions.top.locals == old(self).functions.top.locals
                &&& final(self).holds(result)
                &&& result.weight() == 1
                &&& comparison_binop_folds(op, left, right).is_none() ==> {
                    &&& result matches ExprDescriptor::Register { register, is_temporary }
                    &&& is_temporary
                    &&& final(self).functions.top.opcodes@.len() >= old(self).functions.top.opcodes@.len() + 4
                }
            },
            forall|fuel: nat|
                agrees(
                    #[trigger] crate::lowering::comparison_binary_operation(
                        fuel,
                        old(self)@,
                        op,
                        operand_view(left),
                        operand_view(right),
                    ),
                    described(r),
                    final(self)@,
                ),
        decreases left.weight() + right.weight(), 4nat,
    {
        let ghost left_was = operand_view(left);
        let ghost right_was = operand_view(right);
        let ghost origin = *self;
        proof {
            origin.lemma_start();
        }
        if let ExprDescriptor::Value(a) = &left {
            if let ExprDescriptor::Value(b) = &right {
                if let Some(folded) = fold_comparison_binop(op, a, b) {
                    proof {
                        origin.lemma_yields_value(
                            left.temporaries().union(right.temporaries()),
                            ExprDescriptor::Value(folded),
                        );
                    }
                    return Ok(ExprDescriptor::Value(folded));
                }
            }
        }
        proof {
            assert forall|fuel: nat|
                follows(
                    #[trigger] crate::lowering::comparison_binary_operation(
                        fuel,
                        old(self)@,
                        op,
                        left_was,
                        right_was,
                    ),
                    crate::lowering::make_binop_args(fuel, self@, left_was, right_was),
                ) by {}
        }
        let args = self.make_binop_args(left, right)?;
        let ghost operands = *self;
        proof {
            origin.lemma_step(origin, *self);
        }
        let ghost at = *self;
        let dest = self.allocate()?;
        proof {
            origin.lemma_step(at, *self);
        }
        let ghost emitted = comparison_instructions(op, dest, args);
        let ghost start = self.functions.top.opcodes@;
        let ghost allocated = *self;
        self.emit_comparison(op, dest, args);
        proof {
            origin.lemma_step(allocated, *self);
        }
        proof {
            origin.lemma_result_register(left, right, operands, *self, dest);
        }
        Ok(ExprDescriptor::Register { register: dest, is_temporary: true })
    }

    /// Emits the instructions of a comparison that leaves its outcome in
    /// `dest`.
    fn emit_comparison(&mut self, op: ComparisonBinOp, dest: RegisterIndex, args: BinOpArgs)
        requires
            old(self).wf(),
            args.fits(
                old(self).functions.top.stack_size(),
                old(self).functions.top.constants@.len() as int,
            ),
            dest.0 < old(self).functions.top.stack_size(),
        ensures
            old(self).steps_to(*final(self)),
            old(self).keeps_outermost(*final(self)),
            final(self).functions.lower == old(self).functions.lower,
            old(self).functions.top.same_but_code(final(self).functions.top),
            final(self).functions.top.opcodes@ == old(self).functions.top.opcodes@
                + comparison_instructions(op, dest, args),
            final(self)@ == with_top(
                old(self)@,
                FrameView {
                    opcodes: old(self)@.last().opcodes + comparison_instructions(op, dest, args),
                    ..old(self)@.last()
                },
            ),
    {
        let ghost origin = *self;
        proof {
            origin.lemma_start();
        }
        let op_codes = comparison_binop_opcodes(op, dest, args);
        let ghost emitted = comparison_instructions(op, dest, args);
        let ghost start = self.functions.top.opcodes@;
        let ghost allocated = *self;
        let mut i: usize = 0;
        while i < 4
            invariant
                i <= 4,
                allocated.keeps_outermost(*self),
                self.functions.lower == allocated.functions.lower,
                allocated.functions.top.same_but_code(self.functions.top),
                origin.steps_to(*self),
                op_codes@ == emitted,
                emitted == comparison_instructions(op, dest, args),
                args.fits(
                    self.functions.top.stack_size(),
                    self.functions.top.constants@.len() as int,
                ),
                dest.0 < self.functions.top.stack_size(),
                self.functions.top.opcodes@ == start + emitted.take(i as int),
            decreases 4 - i,
        {
            let ghost at = *self;
            let op_code = op_codes[i];
            proof {
                assert(op_code == emitted[i as int]);
            }
            self.emit(op_code);
            proof {
                origin.lemma_step(at, *self);
                assert(emitted.take(i as int).push(emitted[i as int]) =~= emitted.take(i + 1));
            }
            i += 1;
        }
        proof {
            assert(emitted.take(4) =~= emitted);
            allocated.lemma_top_view(*self);
            let frame = allocated.functions.top@;
            assert(self.functions.top@ == (FrameView {
                opcodes: frame.opcodes + emitted,
                ..frame
            }));
        }
    }

    /// Chooses the operand forms of a binary operator's instruction and
    /// consumes the operands. An operand that is a constant with a small
    /// index is named by that index, unless the other one is too: then the
    /// left operand is put in a register, as is every other operand.
    pub fn make_binop_args<'a>(
        &mut self,
        left: ExprDescriptor<'a>,
        right: ExprDescriptor<'a>,
    ) -> (r:
        Result<BinOpArgs, CompileError>)
        requires
            old(self).owns(left),
            old(self).owns(right),
            disjoint(left, right),
            old(self).wf(),
            old(self).holds(left),
            old(self).holds(right),
        ensures
            forall|scope: Set<Seq<u8>>|
                #![trigger closed_descriptor(left, scope), closed_descriptor(right, scope)]
                closed_descriptor(left, scope) && closed_descriptor(right, scope)
                    && old(self).covers(scope)
                        ==> (r.is_ok() ==> old(self).keeps_outermost(*final(self))),
            (left, right) matches (
                ExprDescriptor::Register { register: left_register, is_temporary: false },
                ExprDescriptor::Register { register: right_register, is_temporary: false },
            ) ==> {
                &&& r == Ok::<_, CompileError>(BinOpArgs::RR(left_register, right_register))
                &&& *final(self) == *old(self)
            },
            r matches Ok(args) ==> {
                &&& old(self).steps_to(*final(self))
                &&& old(self).keeps_registers(
                    left.temporaries().union(right.temporaries()),
                    *final(self),
                )
                &&& old(self).accounts(
                    left.temporaries().union(right.temporaries()),
                    Set::empty(),
                    *final(self),
                )
                &&& final(self).functions.top.locals == old(self).functions.top.locals
                &&& args.fits(
                    final(self).functions.top.stack_size(),
                    final(self).functions.top.constants@.len() as int,
                )
                &&& args is CR ==> left is Value
                &&& args is RC ==> right is Value
            },
            forall|fuel: nat|
                agrees(
                    #[trigger] crate::lowering::make_binop_args(
                        fuel,
                        old(self)@,
                        operand_view(left),
                        operand_view(right),
                    ),
                    r,
                    final(self)@,
                ),
        decreases left.weight() + right.weight(), 3nat,
    {
        let ghost left_was = operand_view(left);
        let ghost right_was = operand_view(right);
        let ghost origin = *self;
        proof {
            origin.lemma_start();
            left.lemma_weight_positive();
            right.lemma_weight_positive();
        }
        let mut left = left;
        let mut right = right;
        proof {
            assert forall|fuel: nat|
                follows(
                    #[trigger] crate::lowering::make_binop_args(
                        fuel,
                        old(self)@,
                        left_was,
                        right_was,
                    ),
                    crate::lowering::any_register_or_constant(fuel, self@, operand_view(left)),
                ) by {}
        }
        let left_operand = self.expr_any_register_or_constant(&mut left)?;
        proof {
            origin.lemma_step(origin, *self);
        }
        let ghost at = *self;
        proof {
            assert forall|fuel: nat|
                follows(
                    #[trigger] crate::lowering::make_binop_args(
                        fuel,
                        old(self)@,
                        left_was,
                        right_was,
                    ),
                    crate::lowering::any_register_or_constant(fuel, self@, operand_view(right)),
                ) by {}
        }
        let right_operand = self.expr_any_register_or_constant(&mut right)?;
        proof {
            origin.lemma_step(at, *self);
        }
        let args = match (left_operand, right_operand) {
            (RegisterOrConstant::Constant(left), RegisterOrConstant::Register(right)) => {
                BinOpArgs::CR(left, right)
            },
            (RegisterOrConstant::Register(left), RegisterOrConstant::Constant(right)) => {
                BinOpArgs::RC(left, right)
            },
            (RegisterOrConstant::Register(left), RegisterOrConstant::Register(right)) => {
                BinOpArgs::RR(left, right)
            },
            (RegisterOrConstant::Constant(_), RegisterOrConstant::Constant(right_constant)) => {
                let ghost at = *self;
                proof {
                    assert forall|fuel: nat|
                        follows(
                            #[trigger] crate::lowering::make_binop_args(
                                fuel,
                                old(self)@,
                                left_was,
                                right_was,
                            ),
                            crate::lowering::any_register(fuel, self@, operand_view(left)),
                        ) by {}
                }
                let left_register = self.expr_any_register(&mut left)?;
                proof {
                    origin.lemma_step(at, *self);
                }
                BinOpArgs::RC(left_register, right_constant)
            },
        };
        let ghost at = *self;
        let ghost left_operand = left;
        proof {
            assert forall|fuel: nat|
                follows(
                    #[trigger] crate::lowering::make_binop_args(
                        fuel,
                        old(self)@,
                        left_was,
                        right_was,
                    ),
                    crate::lowering::discharge(
                        fuel,
                        self@,
                        operand_view(left),
                        ExprDestination::Nowhere,
                    ),
                ) by {}
        }
        self.expr_discharge(left, ExprDestination::Nowhere)?;
        proof {
            origin.lemma_step(at, *self);
            if left_operand matches ExprDescriptor::Register { is_temporary: false, .. } {
                assert(self.functions.top.register_allocator
                    == at.functions.top.register_allocator);
                assert(self.functions.top == at.functions.top);
                assert(self.functions == at.functions);
            }
        }
        let ghost at = *self;
        let ghost right_operand = right;
        proof {
            assert forall|fuel: nat|
                follows(
                    #[trigger] crate::lowering::make_binop_args(
                        fuel,
                        old(self)@,
                        left_was,
                        right_was,
                    ),
                    crate::lowering::discharge(
                        fuel,
                        self@,
                        operand_view(right),
                        ExprDestination::Nowhere,
                    ),
                ) by {}
        }
        self.expr_discharge(right, ExprDestination::Nowhere)?;
        proof {
            origin.lemma_step(at, *self);
            if right_operand matches ExprDescriptor::Register { is_temporary: false, .. } {
                assert(self.functions.top.register_allocator
                    == at.functions.top.register_allocator);
                assert(self.functions.top == at.functions.top);
                assert(self.functions == at.functions);
            }
        }
        Ok(args)
    }
}

} // verus!
