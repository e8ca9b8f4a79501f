//! The compilation state as plain mathematical values, and the steps of the
//! code generator as functions on them. The executable code is proved to do
//! what these functions say.

use vstd::prelude::*;
use crate::ast::Expression;
use crate::descriptor::{ExprDescriptor, ExprDestination};
use crate::error::{CompileError, CompilerLimit, RegisterFault};
use crate::function::{FunctionProto, UpValueDescriptor};
use crate::opcode::{ConstantIndex16, OpCode, RegisterIndex, UpValueIndex};
use crate::operators::ShortCircuitBinOp;
use crate::register_allocator::RegisterAllocator;
use crate::state::{nil_stored, Compiler, CompilerFunction};
use crate::value::{value_views, Value, ValueView};

verus! {

/// What a prototype holds.
pub struct ProtoView {
    pub fixed_params: int,
    pub has_varargs: bool,
    pub stack_size: int,
    pub constants: Seq<ValueView>,
    pub opcodes: Seq<OpCode>,
    pub upvalues: Seq<UpValueDescriptor>,
    pub prototypes: Seq<ProtoView>,
}

/// What is known of one function while its body is compiled.
pub struct FrameView {
    pub constants: Seq<ValueView>,
    pub upvalues: Seq<(Seq<u8>, UpValueDescriptor)>,
    pub prototypes: Seq<ProtoView>,
    pub registers: Seq<bool>,
    pub first_free: int,
    pub stack_top: int,
    pub stack_size: int,
    pub fixed_params: int,
    pub locals: Seq<(Seq<u8>, RegisterIndex)>,
    pub opcodes: Seq<OpCode>,
}

/// What a descriptor holds.
pub enum OperandView {
    Register { register: RegisterIndex, is_temporary: bool },
    UpValue(UpValueIndex),
    Value(ValueView),
    FunctionCall { func: Box<OperandView>, args: Seq<OperandView> },
    ShortCircuit { left: Box<OperandView>, op: ShortCircuitBinOp, right: Expression },
}

/// The outcome of a step of the code generator, as the functions of this
/// module give it: the nest of functions after the step with what the step
/// yields, or the error with which it fails. `Unknown` is given where the
/// depth allowed to the description is used up.
pub enum Lowered<T> {
    Done(Seq<FrameView>, T),
    Failed(CompileError),
    Unknown,
}

/// Whether the outcome `r` of a step that has left the nest `after` is the
/// one described.
pub open spec fn agrees<T>(described: Lowered<T>, r: Result<T, CompileError>, after: Seq<FrameView>) -> bool {
    match described {
        Lowered::Done(nest, value) => r == Ok::<T, CompileError>(value) && after == nest,
        Lowered::Failed(e) => r == Err::<T, CompileError>(e),
        Lowered::Unknown => true,
    }
}

/// What the first `n` prototypes hold.
pub open spec fn proto_views(prototypes: Seq<FunctionProto>, n: nat) -> Seq<ProtoView>
    decreases prototypes, n,
{
    if n == 0 || n > prototypes.len() {
        Seq::empty()
    } else {
        proto_views(prototypes, (n - 1) as nat).push(proto_view(prototypes[n - 1]))
    }
}

/// What a prototype holds.
pub open spec fn proto_view(proto: FunctionProto) -> ProtoView
    decreases proto, 0nat,
{
    ProtoView {
        fixed_params: proto.fixed_params as int,
        has_varargs: proto.has_varargs,
        stack_size: proto.stack_size as int,
        constants: value_views(proto.constants@),
        opcodes: proto.opcodes@,
        upvalues: proto.upvalues@,
        prototypes: proto_views(proto.prototypes@, proto.prototypes@.len()),
    }
}

pub proof fn lemma_proto_views(prototypes: Seq<FunctionProto>, n: nat)
    requires
        n <= prototypes.len(),
    ensures
        proto_views(prototypes, n).len() == n,
        forall|i: int| 0 <= i < n ==> #[trigger] proto_views(prototypes, n)[i] == proto_view(
            prototypes[i],
        ),
    decreases n,
{
    if n > 0 {
        lemma_proto_views(prototypes, (n - 1) as nat);
    }
}

/// Adding a prototype adds what it holds.
pub proof fn lemma_proto_views_push(prototypes: Seq<FunctionProto>, proto: FunctionProto)
    ensures
        proto_views(prototypes.push(proto), prototypes.len() + 1) == proto_views(
            prototypes,
            prototypes.len(),
        ).push(proto_view(proto)),
{
    let all = prototypes.push(proto);
    lemma_proto_views(all, all.len());
    lemma_proto_views(prototypes, prototypes.len());
    assert(proto_views(all, all.len()) =~= proto_views(prototypes, prototypes.len()).push(
        proto_view(proto),
    ));
}

/// What the first `n` descriptors hold.
pub open spec fn operand_views(descriptors: Seq<ExprDescriptor<'_>>, n: nat) -> Seq<OperandView>
    decreases descriptors, n,
{
    if n == 0 || n > descriptors.len() {
        Seq::empty()
    } else {
        operand_views(descriptors, (n - 1) as nat).push(operand_view(descriptors[n - 1]))
    }
}

/// What a descriptor holds.
pub open spec fn operand_view(descriptor: ExprDescriptor<'_>) -> OperandView
    decreases descriptor, 0nat,
{
    match descriptor {
        ExprDescriptor::Register { register, is_temporary } => OperandView::Register {
            register,
            is_temporary,
        },
        ExprDescriptor::UpValue(index) => OperandView::UpValue(index),
        ExprDescriptor::Value(value) => OperandView::Value(value@),
        ExprDescriptor::FunctionCall { func, args } => OperandView::FunctionCall {
            func: Box::new(operand_view(*func)),
            args: operand_views(args@, args@.len()),
        },
        ExprDescriptor::ShortCircuitBinOp { left, op, right } => OperandView::ShortCircuit {
            left: Box::new(operand_view(*left)),
            op,
            right: *right,
        },
    }
}

pub proof fn lemma_operand_views(descriptors: Seq<ExprDescriptor<'_>>, n: nat)
    requires
        n <= descriptors.len(),
    ensures
        operand_views(descriptors, n).len() == n,
        forall|i: int| 0 <= i < n ==> #[trigger] operand_views(descriptors, n)[i] == operand_view(
            descriptors[i],
        ),
    decreases n,
{
    if n > 0 {
        lemma_operand_views(descriptors, (n - 1) as nat);
    }
}

/// Adding a descriptor adds what it holds.
pub proof fn lemma_operand_views_push(descriptors: Seq<ExprDescriptor<'_>>, last: ExprDescriptor<'_>)
    ensures
        operands(descriptors.push(last)) == operands(descriptors).push(operand_view(last)),
{
    let all = descriptors.push(last);
    lemma_operand_views(all, all.len());
    lemma_operand_views(descriptors, descriptors.len());
    assert(operands(all) =~= operands(descriptors).push(operand_view(last)));
}

/// What the descriptors hold, in order.
pub open spec fn operands(descriptors: Seq<ExprDescriptor<'_>>) -> Seq<OperandView> {
    operand_views(descriptors, descriptors.len())
}

/// The names and registers of locals, or the names and kinds of upvalues.
pub open spec fn named_views<T>(entries: Seq<(Vec<u8>, T)>) -> Seq<(Seq<u8>, T)> {
    Seq::new(entries.len(), |i: int| (entries[i].0@, entries[i].1))
}

impl View for CompilerFunction {
    type V = FrameView;

    open spec fn view(&self) -> FrameView {
        FrameView {
            constants: value_views(self.constants@),
            upvalues: named_views(self.upvalues@),
            prototypes: proto_views(self.prototypes@, self.prototypes@.len()),
            registers: self.register_allocator.registers@,
            first_free: self.register_allocator.first_free as int,
            stack_top: self.register_allocator.stack_top as int,
            stack_size: self.register_allocator.stack_size as int,
            fixed_params: self.fixed_params as int,
            locals: named_views(self.locals@),
            opcodes: self.opcodes@,
        }
    }
}

impl View for Compiler {
    type V = Seq<FrameView>;

    /// The functions of the nest, the innermost last.
    open spec fn view(&self) -> Seq<FrameView> {
        Seq::new(self.functions@.len(), |i: int| self.functions@[i]@)
    }
}

/// The nest with `frame` for its innermost function.
pub open spec fn with_top(nest: Seq<FrameView>, frame: FrameView) -> Seq<FrameView> {
    nest.update(nest.len() - 1, frame)
}

/// Changing the innermost function twice is changing it once.
pub proof fn lemma_with_top_again(nest: Seq<FrameView>, first: FrameView, second: FrameView)
    requires
        nest.len() >= 1,
    ensures
        with_top(with_top(nest, first), second) == with_top(nest, second),
        with_top(nest, first).last() == first,
        with_top(nest, first).len() == nest.len(),
{
    assert(with_top(with_top(nest, first), second) =~= with_top(nest, second));
}

/// The lowest free register from `from` upwards, or 256.
pub open spec fn next_free(registers: Seq<bool>, from: int) -> int
    decreases 256 - from,
{
    if from >= 256 || from < 0 {
        256
    } else if !registers[from] {
        from
    } else {
        next_free(registers, from + 1)
    }
}

/// The index of the first constant at or after `from` that is `value`, or
/// the number of constants.
pub open spec fn constant_index(constants: Seq<ValueView>, value: ValueView, from: int) -> int
    decreases constants.len() - from,
{
    if from < 0 || from >= constants.len() {
        constants.len() as int
    } else if constants[from] == value {
        from
    } else {
        constant_index(constants, value, from + 1)
    }
}

/// A function with nothing in it.
pub open spec fn empty_frame() -> FrameView {
    FrameView {
        constants: Seq::empty(),
        upvalues: Seq::empty(),
        prototypes: Seq::empty(),
        registers: Seq::new(256, |i: int| false),
        first_free: 0,
        stack_top: 0,
        stack_size: 0,
        fixed_params: 0,
        locals: Seq::empty(),
        opcodes: Seq::empty(),
    }
}

/// The first `n` parameters as locals, each in the register of its
/// position.
pub open spec fn parameter_locals(parameters: Seq<Vec<u8>>, n: int) -> Seq<(Seq<u8>, RegisterIndex)> {
    Seq::new(n as nat, |i: int| (parameters[i]@, RegisterIndex(i as u8)))
}

/// The context of a function with the given parameters, before anything of
/// its body is compiled.
pub open spec fn frame_for(parameters: Seq<Vec<u8>>) -> FrameView {
    let base = if parameters.len() > 0 {
        empty_frame().push(parameters.len() as int)
    } else {
        empty_frame()
    };
    FrameView {
        fixed_params: parameters.len() as int,
        locals: parameter_locals(parameters, parameters.len() as int),
        ..base
    }
}

impl FrameView {
    /// With the `Jump` at `jump` leading to the end of the code.
    pub open spec fn patch_jump(self, jump: int) -> Result<(FrameView, ()), CompileError> {
        if self.opcodes.len() - jump - 1 > i16::MAX {
            Err(CompileError::Limit(CompilerLimit::OpCodes))
        } else {
            Ok(
                (
                    FrameView {
                        opcodes: self.opcodes.update(
                            jump,
                            OpCode::Jump { offset: (self.opcodes.len() - jump - 1) as i16 },
                        ),
                        ..self
                    },
                    (),
                ),
            )
        }
    }

    /// With `op` at the end of the code.
    pub open spec fn emit(self, op: OpCode) -> FrameView {
        FrameView { opcodes: self.opcodes.push(op), ..self }
    }

    /// With the lowest free register allocated.
    pub open spec fn allocate(self) -> FrameView {
        let stack_top = if self.first_free == self.stack_top {
            self.stack_top + 1
        } else {
            self.stack_top
        };
        let registers = self.registers.update(self.first_free, true);
        FrameView {
            registers,
            first_free: next_free(registers, self.first_free + 1),
            stack_top,
            stack_size: if stack_top > self.stack_size {
                stack_top
            } else {
                self.stack_size
            },
            ..self
        }
    }

    /// With `register` freed.
    pub open spec fn free(self, register: RegisterIndex) -> FrameView {
        FrameView {
            registers: self.registers.update(register.0 as int, false),
            first_free: if register.0 < self.first_free {
                register.0 as int
            } else {
                self.first_free
            },
            stack_top: if register.0 + 1 == self.stack_top {
                self.stack_top - 1
            } else {
                self.stack_top
            },
            ..self
        }
    }

    /// With `size` more registers allocated at the top of the stack.
    pub open spec fn push(self, size: int) -> FrameView {
        let stack_top = self.stack_top + size;
        FrameView {
            registers: Seq::new(
                256,
                |i: int| self.registers[i] || (self.stack_top <= i < self.stack_top + size),
            ),
            first_free: if self.first_free == self.stack_top {
                self.first_free + size
            } else {
                self.first_free
            },
            stack_top,
            stack_size: if stack_top > self.stack_size {
                stack_top
            } else {
                self.stack_size
            },
            ..self
        }
    }

    /// With every register from `new_top` upwards freed.
    pub open spec fn pop_to(self, new_top: int) -> FrameView {
        if self.stack_top > new_top {
            FrameView {
                registers: Seq::new(256, |i: int| self.registers[i] && i < new_top),
                first_free: if new_top < self.first_free {
                    new_top
                } else {
                    self.first_free
                },
                stack_top: new_top,
                ..self
            }
        } else {
            self
        }
    }

    /// With one more local, named `name`, in `register`.
    pub open spec fn bind_local(self, name: Seq<u8>, register: RegisterIndex) -> FrameView {
        FrameView { locals: self.locals.push((name, register)), ..self }
    }

    /// With nil stored in `dest`.
    pub open spec fn store_nil(self, dest: RegisterIndex) -> FrameView {
        FrameView { opcodes: nil_stored(self.opcodes, dest), ..self }
    }

    /// The index that `value` has in the constant table, once it is there.
    pub open spec fn index_of(self, value: ValueView) -> int {
        constant_index(self.constants, value, 0)
    }

    /// With `value` in the constant table: at its end, if it was not there.
    pub open spec fn intern(self, value: ValueView) -> FrameView {
        if self.index_of(value) < self.constants.len() {
            self
        } else {
            FrameView { constants: self.constants.push(value), ..self }
        }
    }

    /// Whether the constant table has `value` or has room for it.
    pub open spec fn can_intern(self, value: ValueView) -> bool {
        self.index_of(value) < self.constants.len() || self.constants.len() < 65536
    }

    /// The lowest free register, allocated.
    pub open spec fn take_register(self) -> Result<(FrameView, RegisterIndex), CompileError> {
        if self.first_free >= 256 {
            Err(CompileError::Limit(CompilerLimit::Registers))
        } else {
            Ok((self.allocate(), RegisterIndex(self.first_free as u8)))
        }
    }

    /// The first of `size` registers allocated at the top of the stack.
    pub open spec fn take_top(self, size: int) -> Result<(FrameView, RegisterIndex), CompileError> {
        if size <= 0 || size > 256 - self.stack_top {
            Err(CompileError::Limit(CompilerLimit::Registers))
        } else {
            Ok((self.push(size), RegisterIndex(self.stack_top as u8)))
        }
    }

    /// The index of `value` in the constant table, where it is entered if
    /// it is not there and the table has room.
    pub open spec fn interned(self, value: ValueView) -> Result<
        (FrameView, ConstantIndex16),
        CompileError,
    > {
        if self.can_intern(value) {
            Ok((self.intern(value), ConstantIndex16(self.index_of(value) as u16)))
        } else {
            Err(CompileError::Limit(CompilerLimit::Constants))
        }
    }

    /// The prototype that the function makes.
    pub open spec fn to_proto(self) -> ProtoView {
        ProtoView {
            fixed_params: self.fixed_params,
            has_varargs: false,
            stack_size: self.stack_size,
            constants: self.constants,
            opcodes: self.opcodes,
            upvalues: Seq::new(self.upvalues.len(), |i: int| self.upvalues[i].1),
            prototypes: self.prototypes,
        }
    }

    /// The register for a destination, allocated where the destination asks
    /// for a new one. A register cannot be pushed above a free one.
    pub open spec fn new_destination(self, dest: ExprDestination) -> Result<
        (FrameView, Option<RegisterIndex>),
        CompileError,
    > {
        match dest {
            ExprDestination::Register(register) => Ok((self, Some(register))),
            ExprDestination::AllocateNew => if self.first_free >= 256 {
                Err(CompileError::Limit(CompilerLimit::Registers))
            } else {
                Ok((self.allocate(), Some(RegisterIndex(self.first_free as u8))))
            },
            ExprDestination::PushNew => if self.stack_top >= 256 {
                Err(CompileError::Limit(CompilerLimit::Registers))
            } else if self.stack_top > 0 && !self.registers[self.stack_top - 1] {
                Err(CompileError::Register(RegisterFault::PushBelowGap))
            } else {
                Ok((self.push(1), Some(RegisterIndex(self.stack_top as u8))))
            },
            ExprDestination::Nowhere => Ok((self, None)),
        }
    }

    /// The value of the register `source` placed in the destination. A
    /// temporary register is taken over where any new register will do, and
    /// is freed otherwise before the destination is allocated; the value is
    /// moved unless it is in place.
    pub open spec fn discharge_register(
        self,
        source: RegisterIndex,
        is_temporary: bool,
        dest: ExprDestination,
    ) -> Result<(FrameView, Option<RegisterIndex>), CompileError> {
        if dest == ExprDestination::AllocateNew && is_temporary {
            Ok((self, Some(source)))
        } else {
            let freed = if is_temporary {
                self.free(source)
            } else {
                self
            };
            match freed.new_destination(dest) {
                Err(e) => Err(e),
                Ok((placed, Some(register))) => if register != source {
                    Ok((placed.emit(OpCode::Move { dest: register, source }), Some(register)))
                } else {
                    Ok((placed, Some(register)))
                },
                Ok((placed, None)) => Ok((placed, None)),
            }
        }
    }

    /// The upvalue `source` fetched into the destination, if there is one.
    pub open spec fn discharge_upvalue(self, source: UpValueIndex, dest: ExprDestination) -> Result<
        (FrameView, Option<RegisterIndex>),
        CompileError,
    > {
        match self.new_destination(dest) {
            Err(e) => Err(e),
            Ok((placed, Some(register))) => Ok(
                (placed.emit(OpCode::GetUpValue { source, dest: register }), Some(register)),
            ),
            Ok((placed, None)) => Ok((placed, None)),
        }
    }

    /// The known value `value` loaded into `dest`: nil by a `LoadNil`, which
    /// the one before takes in where it can; a boolean by a `LoadBool`;
    /// anything else from the constant table.
    pub open spec fn load(self, value: ValueView, dest: RegisterIndex) -> Result<
        FrameView,
        CompileError,
    > {
        match value {
            ValueView::Nil => Ok(self.store_nil(dest)),
            ValueView::Boolean(value) => Ok(
                self.emit(OpCode::LoadBool { dest, value, skip_next: false }),
            ),
            _ => if self.can_intern(value) {
                Ok(
                    self.intern(value).emit(
                        OpCode::LoadConstant {
                            dest,
                            constant: ConstantIndex16(self.index_of(value) as u16),
                        },
                    ),
                )
            } else {
                Err(CompileError::Limit(CompilerLimit::Constants))
            },
        }
    }

    /// The known value `value` loaded into the destination, if there is one.
    pub open spec fn discharge_value(self, value: ValueView, dest: ExprDestination) -> Result<
        (FrameView, Option<RegisterIndex>),
        CompileError,
    > {
        match self.new_destination(dest) {
            Err(e) => Err(e),
            Ok((placed, Some(register))) => match placed.load(value, register) {
                Ok(loaded) => Ok((loaded, Some(register))),
                Err(e) => Err(e),
            },
            Ok((placed, None)) => Ok((placed, None)),
        }
    }
}

/// Whether the outcome `r` of a step on one function, which has left it as
/// `after`, is the one described.
pub open spec fn frame_agrees<T>(
    described: Result<(FrameView, T), CompileError>,
    r: Result<T, CompileError>,
    after: FrameView,
) -> bool {
    match described {
        Ok((frame, value)) => r == Ok::<T, CompileError>(value) && after == frame,
        Err(e) => r == Err::<T, CompileError>(e),
    }
}

/// The index of a constant is that of its first occurrence.
pub proof fn lemma_constant_index(constants: Seq<ValueView>, value: ValueView, from: int)
    requires
        0 <= from <= constants.len(),
    ensures
        from <= constant_index(constants, value, from) <= constants.len(),
        constant_index(constants, value, from) < constants.len() ==> constants[constant_index(
            constants,
            value,
            from,
        )] == value,
        forall|j: int|
            from <= j < constant_index(constants, value, from) ==> #[trigger] constants[j] != value,
    decreases constants.len() - from,
{
    if from < constants.len() && constants[from] != value {
        lemma_constant_index(constants, value, from + 1);
    }
}

impl RegisterAllocator {
    /// The lowest free register of an allocator is the first one that is
    /// free.
    pub proof fn lemma_first_free(self, from: int)
        requires
            self.wf(),
            0 <= from <= self.first_free,
        ensures
            next_free(self.registers@, from) == self.first_free,
        decreases self.first_free - from,
    {
        if from < self.first_free {
            assert(self.registers@[from]);
            self.lemma_first_free(from + 1);
        }
    }
}

impl CompilerFunction {
    /// What the four changes of the registers in use come to.
    pub proof fn lemma_registers_changed(self, after: CompilerFunction)
        requires
            self.wf(),
            self.same_but_registers_and_code(after),
            after.opcodes == self.opcodes,
        ensures
            self.register_allocator.allocates_to(after.register_allocator) ==> after@
                == self@.allocate(),
            forall|register: RegisterIndex| #[trigger]
                self.register_allocator.frees_to(register, after.register_allocator) ==> after@
                    == self@.free(register),
            forall|size: u8| #[trigger]
                self.register_allocator.pushes_to(size, after.register_allocator) ==> after@
                    == self@.push(size as int),
            forall|new_top: u16| #[trigger]
                self.register_allocator.pops_to(new_top, after.register_allocator)
                    && self.register_allocator.stack_top > new_top ==> after@ == self@.pop_to(
                    new_top as int,
                ),
            after.register_allocator == self.register_allocator ==> after@ == self@,
    {
        let a = self.register_allocator;
        let b = after.register_allocator;
        if a.allocates_to(b) {
            b.lemma_first_free(a.first_free + 1);
            assert(after@.registers =~= self@.allocate().registers);
        }
        assert forall|register: RegisterIndex| #[trigger] a.frees_to(register, b) implies after@
            == self@.free(register) by {
            assert(after@.registers =~= self@.free(register).registers);
        }
        assert forall|size: u8| #[trigger] a.pushes_to(size, b) implies after@ == self@.push(
            size as int,
        ) by {
            assert(after@.registers =~= self@.push(size as int).registers);
        }
        assert forall|new_top: u16| #[trigger] a.pops_to(new_top, b) && a.stack_top
            > new_top implies after@ == self@.pop_to(new_top as int) by {
            assert(after@.registers =~= self@.pop_to(new_top as int).registers);
        }
    }
}

impl Compiler {
    /// A change of the innermost function changes the last entry of the
    /// nest.
    pub proof fn lemma_top_view(self, after: Compiler)
        requires
            after.functions.lower == self.functions.lower,
        ensures
            after@ == with_top(self@, after.functions.top@),
            self@.len() >= 1,
            self@.last() == self.functions.top@,
            after@.last() == after.functions.top@,
    {
        assert(after@ =~= with_top(self@, after.functions.top@));
    }
}

/// What a name refers to.
pub enum VariableView {
    Local(RegisterIndex),
    UpValue(UpValueIndex),
    Global(Seq<u8>),
}

/// The register of the local named `name` that was declared last among the
/// first `n` locals.
pub open spec fn local_in(locals: Seq<(Seq<u8>, RegisterIndex)>, name: Seq<u8>, n: int) -> Option<
    RegisterIndex,
>
    decreases n,
{
    if n <= 0 {
        None
    } else if locals[n - 1].0 == name {
        Some(locals[n - 1].1)
    } else {
        local_in(locals, name, n - 1)
    }
}

/// The index of the first upvalue named `name` at or after `from`.
pub open spec fn upvalue_in(
    upvalues: Seq<(Seq<u8>, UpValueDescriptor)>,
    name: Seq<u8>,
    from: int,
) -> Option<int>
    decreases upvalues.len() - from,
{
    if from < 0 || from >= upvalues.len() {
        None
    } else if upvalues[from].0 == name {
        Some(from)
    } else {
        upvalue_in(upvalues, name, from + 1)
    }
}

/// The local of function `i` that `name` refers to, if it has one.
pub open spec fn frame_local(nest: Seq<FrameView>, name: Seq<u8>, i: int) -> Option<RegisterIndex> {
    local_in(nest[i].locals, name, nest[i].locals.len() as int)
}

/// The upvalue of function `i` that `name` refers to, if it has one. The
/// outermost function has the upvalue `_ENV` from the moment it is asked for.
pub open spec fn frame_upvalue(nest: Seq<FrameView>, name: Seq<u8>, i: int) -> Option<int> {
    if i == 0 && name == crate::state::env_name() && nest[0].upvalues.len() == 0 {
        Some(0)
    } else {
        upvalue_in(nest[i].upvalues, name, 0)
    }
}

/// The innermost function among those up to `i` that has a local or an
/// upvalue named `name`, or -1 if none has.
pub open spec fn binding_frame(nest: Seq<FrameView>, name: Seq<u8>, i: int) -> int
    decreases i + 1,
{
    if i < 0 {
        -1
    } else if frame_local(nest, name, i).is_some() || frame_upvalue(nest, name, i).is_some() {
        i
    } else {
        binding_frame(nest, name, i - 1)
    }
}

/// How function `k`, which lies inside the function `d` that binds `name`,
/// captures the variable: the function just inside takes the local or the
/// upvalue of `d`, and each further one takes the upvalue that the function
/// around it gets.
pub open spec fn captured_as(nest: Seq<FrameView>, name: Seq<u8>, d: int, k: int) -> UpValueDescriptor {
    if k == d + 1 {
        match frame_local(nest, name, d) {
            Some(register) => UpValueDescriptor::ParentLocal(register),
            None => UpValueDescriptor::Outer(
                UpValueIndex(frame_upvalue(nest, name, d).unwrap() as u8),
            ),
        }
    } else {
        UpValueDescriptor::Outer(UpValueIndex(nest[k - 1].upvalues.len() as u8))
    }
}

/// Function `k` of the nest once `name` has been resolved: the outermost
/// function captures the global environment when `_ENV` is first asked of
/// it, and each function inside the one that binds the name captures the
/// variable from the function around it.
pub open spec fn resolved_frame(nest: Seq<FrameView>, name: Seq<u8>, k: int) -> FrameView {
    let d = binding_frame(nest, name, nest.len() - 1);
    if k == 0 && d == 0 && name == crate::state::env_name() && nest[0].upvalues.len() == 0
        && frame_local(nest, name, 0).is_none() {
        FrameView {
            upvalues: seq![(crate::state::env_name(), UpValueDescriptor::Environment)],
            ..nest[k]
        }
    } else if 0 <= d < k {
        FrameView {
            upvalues: nest[k].upvalues.push((name, captured_as(nest, name, d, k))),
            ..nest[k]
        }
    } else {
        nest[k]
    }
}

/// What a name refers to, seen from the innermost function, and the nest
/// once the name has been resolved. A local of the innermost function is
/// the answer as it is; what another function binds becomes an upvalue of
/// every function inside that one, which fails if one of them has 256
/// upvalues already; a name that nothing binds is a global.
pub open spec fn find_variable(nest: Seq<FrameView>, name: Seq<u8>) -> Lowered<VariableView> {
    let t = nest.len() - 1;
    let d = binding_frame(nest, name, t);
    if d < 0 {
        Lowered::Done(nest, VariableView::Global(name))
    } else if frame_local(nest, name, t).is_some() {
        Lowered::Done(nest, VariableView::Local(frame_local(nest, name, t).unwrap()))
    } else if exists|k: int| d < k < nest.len() && (#[trigger] nest[k]).upvalues.len() >= 256 {
        Lowered::Failed(CompileError::Limit(CompilerLimit::UpValues))
    } else {
        Lowered::Done(
            Seq::new(nest.len(), |k: int| resolved_frame(nest, name, k)),
            VariableView::UpValue(
                UpValueIndex(
                    (if d == t {
                        frame_upvalue(nest, name, t).unwrap()
                    } else {
                        nest[t].upvalues.len() as int
                    }) as u8,
                ),
            ),
        )
    }
}

/// The variable `_ENV` that is in scope, as a descriptor.
pub open spec fn get_environment(nest: Seq<FrameView>) -> Lowered<OperandView> {
    match find_variable(nest, crate::state::env_name()) {
        Lowered::Done(after, VariableView::Local(register)) => Lowered::Done(
            after,
            OperandView::Register { register, is_temporary: false },
        ),
        Lowered::Done(after, VariableView::UpValue(index)) => Lowered::Done(
            after,
            OperandView::UpValue(index),
        ),
        Lowered::Done(after, VariableView::Global(_)) => Lowered::Done(
            after,
            OperandView::UpValue(UpValueIndex(0)),
        ),
        Lowered::Failed(e) => Lowered::Failed(e),
        Lowered::Unknown => Lowered::Unknown,
    }
}

/// What a variable descriptor holds.
pub open spec fn variable_view(variable: crate::descriptor::VariableDescriptor) -> VariableView {
    match variable {
        crate::descriptor::VariableDescriptor::Local(register) => VariableView::Local(register),
        crate::descriptor::VariableDescriptor::UpValue(index) => VariableView::UpValue(index),
        crate::descriptor::VariableDescriptor::Global(name) => VariableView::Global(name@),
    }
}

/// The outcome of resolving a name, with what the descriptor holds.
pub open spec fn resolved_as(r: Result<crate::descriptor::VariableDescriptor, CompileError>) -> Result<
    VariableView,
    CompileError,
> {
    match r {
        Ok(variable) => Ok(variable_view(variable)),
        Err(e) => Err(e),
    }
}

/// The outcome of a step that yields a descriptor, with what the descriptor
/// holds.
pub open spec fn described(r: Result<ExprDescriptor<'_>, CompileError>) -> Result<
    OperandView,
    CompileError,
> {
    match r {
        Ok(descriptor) => Ok(operand_view(descriptor)),
        Err(e) => Err(e),
    }
}

/// The outcome of a step that changes a descriptor in place, with what the
/// descriptor holds after.
pub open spec fn with_operand<T>(r: Result<T, CompileError>, operand: ExprDescriptor<'_>) -> Result<
    (OperandView, T),
    CompileError,
> {
    match r {
        Ok(value) => Ok((operand_view(operand), value)),
        Err(e) => Err(e),
    }
}

/// The outcome of a field read, with what the descriptors of the table and
/// the key hold after.
pub open spec fn read_as(
    r: Result<ExprDescriptor<'_>, CompileError>,
    table: ExprDescriptor<'_>,
    key: ExprDescriptor<'_>,
) -> Result<(OperandView, OperandView, OperandView), CompileError> {
    match r {
        Ok(result) => Ok((operand_view(table), operand_view(key), operand_view(result))),
        Err(e) => Err(e),
    }
}

/// The outcome of a field write, with what the descriptors of the table,
/// the key and the value hold after.
pub open spec fn written_as(
    r: Result<(), CompileError>,
    table: ExprDescriptor<'_>,
    key: ExprDescriptor<'_>,
    value: ExprDescriptor<'_>,
) -> Result<(OperandView, OperandView, OperandView), CompileError> {
    match r {
        Ok(_) => Ok((operand_view(table), operand_view(key), operand_view(value))),
        Err(e) => Err(e),
    }
}

/// The outcome of a step that yields descriptors, with what they hold.
pub open spec fn listed(r: Result<Vec<ExprDescriptor<'_>>, CompileError>) -> Result<
    Seq<OperandView>,
    CompileError,
> {
    match r {
        Ok(descriptors) => Ok(operands(descriptors@)),
        Err(e) => Err(e),
    }
}

/// The outcome of compiling a chunk, with what the prototype holds.
pub open spec fn compiled_as(described: Lowered<ProtoView>, r: Result<FunctionProto, CompileError>) -> bool {
    match described {
        Lowered::Done(_, proto) => r matches Ok(made) && proto_view(made) == proto,
        Lowered::Failed(e) => r == Err::<FunctionProto, CompileError>(e),
        Lowered::Unknown => true,
    }
}

/// Holds of any two outcomes: it is stated of a step and a step that is
/// part of it, to bring the part to the prover's notice.
pub open spec fn follows<A, B>(step: Lowered<A>, part: Lowered<B>) -> bool {
    true
}

/// Whether the outcome `step` is what `rest` gives, where it is known.
pub open spec fn continues<T>(step: Lowered<T>, rest: Lowered<T>) -> bool {
    step is Unknown || step == rest
}

} // verus!
