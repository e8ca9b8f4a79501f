//! Placing a value that is at hand (in a register, in an upvalue, or known
//! at compile time) where it is wanted.

use vstd::prelude::*;
use crate::cast::{usize_to_i16, usize_to_u8};
use crate::descriptor::ExprDestination;
use crate::error::{CompileError, CompilerLimit, RegisterFault};
use crate::opcode::{ConstantIndex16, OpCode, RegisterIndex, UpValueIndex};
use crate::register_allocator::RegisterAllocator;
use crate::model::{frame_agrees, frame_for, parameter_locals, FrameView};
use crate::state::{local_register, CompilerFunction};
use crate::value::{Value, ValueView};

verus! {

impl RegisterAllocator {
    /// Whether a register can be had for the destination.
    pub open spec fn can_place(self, dest: ExprDestination) -> bool {
        match dest {
            ExprDestination::AllocateNew => self.first_free < 256,
            ExprDestination::PushNew => self.stack_top < 256,
            _ => true,
        }
    }

    /// The register that the destination stands for, if any.
    pub open spec fn place(self, dest: ExprDestination) -> Option<RegisterIndex> {
        match dest {
            ExprDestination::Register(register) => Some(register),
            ExprDestination::AllocateNew => Some(RegisterIndex(self.first_free as u8)),
            ExprDestination::PushNew => Some(RegisterIndex(self.stack_top as u8)),
            ExprDestination::Nowhere => None,
        }
    }

    /// Whether `after` is this allocator once the register of the
    /// destination has been allocated.
    pub open spec fn placed(self, dest: ExprDestination, after: RegisterAllocator) -> bool {
        match dest {
            ExprDestination::AllocateNew => self.allocates_to(after),
            ExprDestination::PushNew => self.pushes_to(1, after),
            _ => after == self,
        }
    }

    /// Whether `after` is this allocator once the register at the top of the
    /// stack has been taken and given back: the frame has grown to hold it.
    pub open spec fn used_top(self, after: RegisterAllocator) -> bool {
        &&& after.registers@ == self.registers@
        &&& after.first_free == self.first_free
        &&& after.stack_top == self.stack_top
        &&& after.stack_size == if self.stack_size > self.stack_top {
            self.stack_size as int
        } else {
            self.stack_top + 1
        }
    }

    /// Whether a register pushed now would lie above a free one.
    pub open spec fn gap_below_top(self) -> bool {
        self.stack_top > 0 && !self.registers@[self.stack_top - 1]
    }
}

impl CompilerFunction {
    /// Whether `other` is this function with other registers and code.
    pub open spec fn same_but_registers_and_code(self, other: CompilerFunction) -> bool {
        &&& other.constants == self.constants
        &&& other.upvalues == self.upvalues
        &&& other.prototypes == self.prototypes
        &&& other.fixed_params == self.fixed_params
        &&& other.locals == self.locals
    }

    /// Whether `after` has every register of this function that is allocated
    /// and not among `released`.
    pub open spec fn keeps_registers(self, released: Set<int>, after: CompilerFunction) -> bool {
        forall|r: int| #[trigger]
            self.register_allocator.allocated(r) && !released.contains(r)
                ==> after.register_allocator.allocated(r)
    }

    /// Whether every register that is allocated in `after` was allocated in
    /// this function and is not among `released`, or is among `taken`.
    pub open spec fn accounts(
        self,
        released: Set<int>,
        taken: Set<int>,
        after: CompilerFunction,
    ) -> bool {
        forall|r: int| #[trigger]
            after.register_allocator.allocated(r) ==> (self.register_allocator.allocated(r)
                && !released.contains(r)) || taken.contains(r)
    }

    /// Whether a value has been placed in keeping with the registers in
    /// use: every register that was allocated and has not been released is
    /// allocated still, and no other is but the one in which the value is,
    /// if any; that one is allocated; it is the one asked for, or else one
    /// that was free or has been released; and one that has been pushed
    /// lies above every other that is in use.
    pub open spec fn placed_from(
        self,
        released: Set<int>,
        dest: ExprDestination,
        placed_in: Option<RegisterIndex>,
        after: CompilerFunction,
    ) -> bool {
        &&& self.keeps_registers(released, after)
        &&& self.accounts(
            released,
            match placed_in {
                Some(register) => set![register.0 as int],
                None => Set::empty(),
            },
            after,
        )
        &&& placed_in.is_some() == (dest != ExprDestination::Nowhere)
        &&& placed_in matches Some(register) ==> {
            &&& after.register_allocator.allocated(register.0 as int)
            &&& dest matches ExprDestination::Register(asked) ==> register == asked
            &&& !(dest is Register) ==> !self.register_allocator.allocated(register.0 as int)
                || released.contains(register.0 as int)
            &&& dest is PushNew ==> forall|r: int| #[trigger]
                self.register_allocator.allocated(r) && !released.contains(r) ==> r < register.0
        }
    }

    /// Allocates the register of a destination. For `PushNew` the register
    /// just below the new one must be allocated.
    pub fn new_destination(&mut self, dest: ExprDestination) -> (r: Result<
        Option<RegisterIndex>,
        CompileError,
    >)
        requires
            old(self).wf(),
            dest matches ExprDestination::Register(d) ==> old(self).register_allocator.allocated(
                d.0 as int,
            ),
        ensures
            old(self).same_but_registers(*final(self)),
            r matches Ok(Some(register)) ==> register.0 < final(self).stack_size(),
            r matches Ok(placed_in) ==> old(self).placed_from(
                Set::empty(),
                dest,
                placed_in,
                *final(self),
            ),
            if !old(self).register_allocator.can_place(dest) {
                &&& r == Err::<Option<RegisterIndex>, _>(
                    CompileError::Limit(CompilerLimit::Registers),
                )
                &&& final(self).register_allocator == old(self).register_allocator
            } else if dest == ExprDestination::PushNew && old(self).register_allocator.gap_below_top() {
                r == Err::<Option<RegisterIndex>, _>(
                    CompileError::Register(RegisterFault::PushBelowGap),
                )
            } else {
                &&& r == Ok::<_, CompileError>(old(self).register_allocator.place(dest))
                &&& old(self).register_allocator.placed(dest, final(self).register_allocator)
            },
            frame_agrees(old(self)@.new_destination(dest), r, final(self)@),
    {
        match dest {
            ExprDestination::Register(register) => Ok(Some(register)),
            ExprDestination::AllocateNew => {
                let register = self.allocate()?;
                Ok(Some(register))
            },
            ExprDestination::PushNew => {
                let register = self.push(1)?;
                if register.0 > 0 && !self.register_allocator.is_allocated(
                    RegisterIndex(register.0 - 1),
                ) {
                    return Err(CompileError::Register(RegisterFault::PushBelowGap));
                }
                Ok(Some(register))
            },
            ExprDestination::Nowhere => Ok(None),
        }
    }

    /// Whether `after` is this function once the value of `source` has been
    /// placed in `placed_in`: but for the registers, the same with a `Move`
    /// emitted unless the value was in place.
    pub open spec fn moved_to(
        self,
        source: RegisterIndex,
        placed_in: Option<RegisterIndex>,
        after: CompilerFunction,
    ) -> bool {
        &&& self.same_but_registers_and_code(after)
        &&& if placed_in.is_some() && placed_in.unwrap() != source {
            after.opcodes@ == self.opcodes@.push(
                OpCode::Move { dest: placed_in.unwrap(), source },
            )
        } else {
            after.opcodes == self.opcodes
        }
    }

    /// What discharging a register does. A temporary register is taken over
    /// as it is where any new register will do. Otherwise a temporary
    /// register is freed; then the destination is allocated, which fails if
    /// no register is free, or if the register pushed lies above a free one;
    /// then the value is moved, unless it is in place.
    pub open spec fn register_discharged(
        self,
        source: RegisterIndex,
        is_temporary: bool,
        dest: ExprDestination,
        r: Result<Option<RegisterIndex>, CompileError>,
        after: CompilerFunction,
    ) -> bool {
        if dest == ExprDestination::AllocateNew && is_temporary {
            r == Ok::<_, CompileError>(Some(source)) && after == self
        } else {
            exists|mid: RegisterAllocator|
                #![trigger mid.can_place(dest)]
                {
                    &&& if is_temporary {
                        self.register_allocator.frees_to(source, mid)
                    } else {
                        mid == self.register_allocator
                    }
                    &&& if !mid.can_place(dest) {
                        r == Err::<Option<RegisterIndex>, _>(
                            CompileError::Limit(CompilerLimit::Registers),
                        )
                    } else if dest == ExprDestination::PushNew && mid.gap_below_top() {
                        r == Err::<Option<RegisterIndex>, _>(
                            CompileError::Register(RegisterFault::PushBelowGap),
                        )
                    } else {
                        &&& r == Ok::<_, CompileError>(mid.place(dest))
                        &&& mid.placed(dest, after.register_allocator)
                        &&& self.moved_to(source, mid.place(dest), after)
                    }
                }
        }
    }

    /// Places the value of a register where it is wanted. A temporary
    /// register is taken over as it is where any new register will do;
    /// otherwise it is freed before the destination is allocated, and the
    /// value is moved unless it is in place.
    pub fn discharge_register(
        &mut self,
        source: RegisterIndex,
        is_temporary: bool,
        dest: ExprDestination,
    ) -> (r: Result<Option<RegisterIndex>, CompileError>)
        requires
            old(self).wf(),
            source.0 < old(self).stack_size(),
            is_temporary ==> old(self).register_allocator.allocated(source.0 as int)
                && !local_register(old(self).locals@, source.0 as int),
            dest matches ExprDestination::Register(d) ==> old(self).register_allocator.allocated(
                d.0 as int,
            ) && !(is_temporary && d == source),
        ensures
            final(self).upvalues == old(self).upvalues,
            final(self).locals == old(self).locals,
            r.is_ok() ==> final(self).wf() && old(self).grows_to(*final(self)),
            r matches Ok(Some(register)) ==> register.0 < final(self).stack_size(),
            r matches Ok(placed_in) ==> old(self).placed_from(
                if is_temporary {
                    set![source.0 as int]
                } else {
                    Set::empty()
                },
                dest,
                placed_in,
                *final(self),
            ),
            old(self).register_discharged(source, is_temporary, dest, r, *final(self)),
            frame_agrees(
                old(self)@.discharge_register(source, is_temporary, dest),
                r,
                final(self)@,
            ),
    {
        if dest == ExprDestination::AllocateNew && is_temporary {
            return Ok(Some(source));
        }
        if is_temporary {
            self.free(source);
        }
        let ghost mid = self.register_allocator;
        let placed_in = match self.new_destination(dest) {
            Ok(placed_in) => placed_in,
            Err(e) => {
                assert(!mid.can_place(dest) || dest == ExprDestination::PushNew);
                return Err(e);
            },
        };
        if let Some(dest_register) = placed_in {
            if dest_register.0 != source.0 {
                self.emit(OpCode::Move { dest: dest_register, source });
            }
        }
        assert(mid.can_place(dest));
        Ok(placed_in)
    }

    /// Whether `after` is this function, or this function with the one
    /// instruction `op` emitted where a destination register was given.
    pub open spec fn emitted_if_placed(
        self,
        placed_in: Option<RegisterIndex>,
        op: OpCode,
        after: CompilerFunction,
    ) -> bool {
        &&& self.same_but_registers_and_code(after)
        &&& after.opcodes@ == if placed_in.is_some() {
            self.opcodes@.push(op)
        } else {
            self.opcodes@
        }
    }

    /// What discharging an upvalue does: the destination is allocated, which
    /// fails if no register is free, or if the register pushed lies above a
    /// free one; then the upvalue is fetched into it, if there is one.
    pub open spec fn upvalue_discharged(
        self,
        source: UpValueIndex,
        dest: ExprDestination,
        r: Result<Option<RegisterIndex>, CompileError>,
        after: CompilerFunction,
    ) -> bool {
        if !self.register_allocator.can_place(dest) {
            r == Err::<Option<RegisterIndex>, _>(CompileError::Limit(CompilerLimit::Registers))
        } else if dest == ExprDestination::PushNew && self.register_allocator.gap_below_top() {
            r == Err::<Option<RegisterIndex>, _>(
                CompileError::Register(RegisterFault::PushBelowGap),
            )
        } else {
            &&& r == Ok::<_, CompileError>(self.register_allocator.place(dest))
            &&& self.register_allocator.placed(dest, after.register_allocator)
            &&& self.emitted_if_placed(
                self.register_allocator.place(dest),
                OpCode::GetUpValue { source, dest: self.register_allocator.place(dest).unwrap() },
                after,
            )
        }
    }

    /// Fetches an upvalue into the destination, if there is one.
    pub fn discharge_upvalue(&mut self, source: UpValueIndex, dest: ExprDestination) -> (r: Result<
        Option<RegisterIndex>,
        CompileError,
    >)
        requires
            old(self).wf(),
            source.0 < old(self).upvalues@.len(),
            dest matches ExprDestination::Register(d) ==> old(self).register_allocator.allocated(
                d.0 as int,
            ),
        ensures
            final(self).upvalues == old(self).upvalues,
            final(self).locals == old(self).locals,
            r.is_ok() ==> final(self).wf() && old(self).grows_to(*final(self)),
            r matches Ok(Some(register)) ==> register.0 < final(self).stack_size(),
            r matches Ok(placed_in) ==> old(self).placed_from(
                Set::empty(),
                dest,
                placed_in,
                *final(self),
            ),
            old(self).upvalue_discharged(source, dest, r, *final(self)),
            frame_agrees(old(self)@.discharge_upvalue(source, dest), r, final(self)@),
    {
        let placed_in = self.new_destination(dest)?;
        if let Some(dest_register) = placed_in {
            self.emit(OpCode::GetUpValue { source, dest: dest_register });
        }
        Ok(placed_in)
    }

    /// Whether `after` is this function once `value` has been loaded into
    /// `dest`: nil by a `LoadNil`, which the one emitted last may take in; a
    /// boolean by a `LoadBool`; anything else by a `LoadConstant` of its
    /// entry in the constant table, which is made if the table lacks it.
    pub open spec fn loaded(
        self,
        value: ValueView,
        dest: RegisterIndex,
        after: CompilerFunction,
    ) -> bool {
        &&& after.upvalues == self.upvalues
        &&& after.prototypes == self.prototypes
        &&& after.fixed_params == self.fixed_params
        &&& after.locals == self.locals
        &&& match value {
            ValueView::Nil => {
                &&& after.constants == self.constants
                &&& after.opcodes@ == self.code_with_nil(dest)
            },
            ValueView::Boolean(value) => {
                &&& after.constants == self.constants
                &&& after.opcodes@ == self.opcodes@.push(
                    OpCode::LoadBool { dest, value, skip_next: false },
                )
            },
            _ => {
                &&& if self.has_constant(value) {
                    after.constants == self.constants
                } else {
                    &&& after.constants@.len() == self.constants@.len() + 1
                    &&& after.constants@.drop_last() == self.constants@
                    &&& after.constants@.last()@ == value
                }
                &&& exists|index: int|
                    {
                        &&& 0 <= index < after.constants@.len()
                        &&& (#[trigger] after.constants@[index])@ == value
                        &&& after.opcodes@ == self.opcodes@.push(
                            OpCode::LoadConstant {
                                dest,
                                constant: ConstantIndex16(index as u16),
                            },
                        )
                    }
            },
        }
    }

    /// Whether the constant table has room for `value`: it holds the value
    /// already, or is not full, or the value is none that it would hold.
    pub open spec fn can_load(self, value: ValueView) -> bool {
        ||| value is Nil
        ||| value is Boolean
        ||| self.has_constant(value)
        ||| self.constants@.len() < 65536
    }

    /// What discharging a value that is known does: the destination is
    /// allocated, which fails if no register is free, or if the register
    /// pushed lies above a free one; then the value is loaded into it, if
    /// there is one, which fails if the value needs an entry in a constant
    /// table that is full.
    pub open spec fn value_discharged(
        self,
        value: ValueView,
        dest: ExprDestination,
        r: Result<Option<RegisterIndex>, CompileError>,
        after: CompilerFunction,
    ) -> bool {
        if !self.register_allocator.can_place(dest) {
            r == Err::<Option<RegisterIndex>, _>(CompileError::Limit(CompilerLimit::Registers))
        } else if dest == ExprDestination::PushNew && self.register_allocator.gap_below_top() {
            r == Err::<Option<RegisterIndex>, _>(
                CompileError::Register(RegisterFault::PushBelowGap),
            )
        } else if dest == ExprDestination::Nowhere {
            r == Ok::<Option<RegisterIndex>, CompileError>(None) && after == self
        } else if !self.can_load(value) {
            r == Err::<Option<RegisterIndex>, _>(CompileError::Limit(CompilerLimit::Constants))
        } else {
            &&& r == Ok::<_, CompileError>(self.register_allocator.place(dest))
            &&& self.register_allocator.placed(dest, after.register_allocator)
            &&& self.loaded(value, self.register_allocator.place(dest).unwrap(), after)
        }
    }

    /// Loads a value that is known at compile time into the destination, if
    /// there is one.
    pub fn discharge_value(&mut self, value: Value, dest: ExprDestination) -> (r: Result<
        Option<RegisterIndex>,
        CompileError,
    >)
        requires
            old(self).wf(),
            dest matches ExprDestination::Register(d) ==> old(self).register_allocator.allocated(
                d.0 as int,
            ),
        ensures
            final(self).upvalues == old(self).upvalues,
            final(self).locals == old(self).locals,
            r.is_ok() ==> final(self).wf() && old(self).grows_to(*final(self)),
            r matches Ok(Some(register)) ==> register.0 < final(self).stack_size(),
            r matches Ok(placed_in) ==> old(self).placed_from(
                Set::empty(),
                dest,
                placed_in,
                *final(self),
            ),
            old(self).value_discharged(value@, dest, r, *final(self)),
            frame_agrees(old(self)@.discharge_value(value@, dest), r, final(self)@),
    {
        let placed_in = self.new_destination(dest)?;
        if let Some(dest_register) = placed_in {
            match value {
                Value::Nil => {
                    self.load_nil(dest_register);
                },
                Value::Boolean(value) => {
                    self.emit(OpCode::LoadBool { dest: dest_register, value, skip_next: false });
                },
                value => {
                    let ghost before = *self;
                    let constant = self.get_constant(value)?;
                    let ghost interned = *self;
                    self.emit(OpCode::LoadConstant { dest: dest_register, constant });
                    proof {
                        assert(self.constants@[constant.0 as int]@ == value@);
                        if !before.has_constant(value@) {
                            assert(self.constants@.drop_last() =~= before.constants@);
                        }
                        old(self).lemma_grows_transitive(before, interned);
                        old(self).lemma_grows_transitive(interned, *self);
                    }
                },
            }
        }
        Ok(placed_in)
    }

    /// Makes the `Jump` at `jump` lead to the end of the code as it is now:
    /// its offset becomes the number of instructions after it.
    pub fn patch_jump(&mut self, jump: usize) -> (r: Result<(), CompileError>)
        requires
            old(self).wf(),
            jump < old(self).opcodes@.len(),
            old(self).opcodes@[jump as int] is Jump,
        ensures
            final(self).constants == old(self).constants,
            final(self).upvalues == old(self).upvalues,
            final(self).prototypes == old(self).prototypes,
            final(self).register_allocator == old(self).register_allocator,
            final(self).fixed_params == old(self).fixed_params,
            final(self).locals == old(self).locals,
            match r {
                Ok(()) => {
                    &&& final(self).wf()
                    &&& old(self).opcodes@.len() - jump - 1 <= i16::MAX
                    &&& final(self).opcodes@ == old(self).opcodes@.update(
                        jump as int,
                        OpCode::Jump { offset: (old(self).opcodes@.len() - jump - 1) as i16 },
                    )
                },
                Err(e) => {
                    &&& e == CompileError::Limit(CompilerLimit::OpCodes)
                    &&& old(self).opcodes@.len() - jump - 1 > i16::MAX
                    &&& final(self).opcodes == old(self).opcodes
                },
            },
            frame_agrees(old(self)@.patch_jump(jump as int), r, final(self)@),
    {
        match usize_to_i16(self.opcodes.len() - jump - 1) {
            Some(offset) => {
                let patched = OpCode::Jump { offset };
                self.opcodes.set(jump, patched);
                assert(self.admits(patched));
                Ok(())
            },
            None => Err(CompileError::Limit(CompilerLimit::OpCodes)),
        }
    }

    /// The context of a function with the given parameters: each parameter
    /// is a local, in the register of its position.
    pub fn with_parameters(parameters: &Vec<Vec<u8>>) -> (r: Result<CompilerFunction, CompileError>)
        ensures
            r matches Ok(function) ==> function@ == frame_for(parameters@),
            match r {
                Ok(function) => {
                    &&& parameters@.len() <= 255
                    &&& function.wf()
                    &&& function.fixed_params == parameters@.len()
                    &&& function.register_allocator.stack_top == parameters@.len()
                    &&& function.register_allocator.stack_size == parameters@.len()
                    &&& function.locals@.len() == parameters@.len()
                    &&& forall|i: int|
                        0 <= i < parameters@.len() ==> (#[trigger] function.locals@[i]).0@
                            == parameters@[i]@ && function.locals@[i].1 == RegisterIndex(i as u8)
                    &&& function.constants@.len() == 0
                    &&& function.upvalues@.len() == 0
                    &&& function.prototypes@.len() == 0
                    &&& function.opcodes@.len() == 0
                },
                Err(e) => {
                    &&& e == CompileError::Limit(CompilerLimit::FixedParameters)
                    &&& parameters@.len() > 255
                },
            },
    {
        let mut function = CompilerFunction::new();
        let fixed_params: u8 = match usize_to_u8(parameters.len()) {
            Some(n) => n,
            None => {
                return Err(CompileError::Limit(CompilerLimit::FixedParameters));
            },
        };
        if fixed_params > 0 {
            let pushed = function.push(fixed_params);
            assert(pushed.is_ok());
        }
        function.fixed_params = fixed_params;
        proof {
            assert(function@.locals =~= parameter_locals(parameters@, 0));
        }
        let mut i: u8 = 0;
        while i < fixed_params
            invariant
                i <= fixed_params,
                fixed_params == parameters@.len(),
                function.wf(),
                function.fixed_params == fixed_params,
                function.register_allocator.stack_top == fixed_params,
                function.register_allocator.stack_size == fixed_params,
                forall|j: int| 0 <= j < fixed_params ==> function.register_allocator.allocated(j),
                function.locals@.len() == i,
                forall|j: int|
                    0 <= j < i ==> (#[trigger] function.locals@[j]).0@ == parameters@[j]@
                        && function.locals@[j].1 == RegisterIndex(j as u8),
                function.constants@.len() == 0,
                function.upvalues@.len() == 0,
                function.prototypes@.len() == 0,
                function.opcodes@.len() == 0,
                function@ == (FrameView {
                    locals: parameter_locals(parameters@, i as int),
                    ..frame_for(parameters@)
                }),
            decreases fixed_params - i,
        {
            let ghost before = function.locals@;
            function.bind_local(&parameters[i as usize], RegisterIndex(i));
            proof {
                assert forall|j: int| 0 <= j < i + 1 implies (#[trigger] function.locals@[j]).0@
                    == parameters@[j]@ && function.locals@[j].1 == RegisterIndex(j as u8) by {
                    if j < i {
                        assert(function.locals@[j] == function.locals@.drop_last()[j]);
                        assert(function.locals@[j] == before[j]);
                    }
                }
                assert(function@.locals =~= parameter_locals(parameters@, i + 1));
            }
            i += 1;
        }
        Ok(function)
    }
}

} // verus!
