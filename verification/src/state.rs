//! The state of a compilation: one context for each function of the nest
//! that is being compiled, the innermost on top.

use vstd::prelude::*;
use crate::cast::usize_to_u16;
use crate::descriptor::{all_fit, exclusive_all, ExprDescriptor, ExprDestination};
use crate::error::{CompileError, CompilerLimit};
use crate::function::{distinct, FunctionProto, UpValueDescriptor};
use crate::lowering::{emitted, on_top};
use crate::model::{
    agrees, constant_index, empty_frame, frame_agrees, lemma_constant_index, proto_view, with_top,
};
use crate::opcode::{ConstantIndex16, OpCode, RegisterIndex};
use crate::register_allocator::RegisterAllocator;
use crate::scope::lemma_named_grows;
use crate::top_stack::TopStack;
use crate::value::{copy_bytes, value_views, ConstantValue, Value, ValueView};

verus! {

/// The bytes of the name `_ENV`, under which the global environment is
/// captured.
pub open spec fn env_name() -> Seq<u8> {
    seq![0x5Fu8, 0x45u8, 0x4Eu8, 0x56u8]
}

/// The name `_ENV`.
pub fn make_env_name() -> (r: Vec<u8>)
    ensures
        r@ == env_name(),
{
    let mut r: Vec<u8> = Vec::new();
    r.push(0x5F);
    r.push(0x45);
    r.push(0x4E);
    r.push(0x56);
    assert(r@ =~= env_name());
    r
}

/// Whether `a` is the start of `b`.
pub open spec fn prefix<T>(a: Seq<T>, b: Seq<T>) -> bool {
    &&& a.len() <= b.len()
    &&& forall|i: int| 0 <= i < a.len() ==> #[trigger] b[i] == a[i]
}

/// Whether the code `b` can come of the code `a` by emitting instructions:
/// `b` starts with `a`, except that a `LoadNil` at the end of `a` may have
/// taken in the registers above its own.
pub open spec fn code_grows(a: Seq<OpCode>, b: Seq<OpCode>) -> bool {
    &&& a.len() <= b.len()
    &&& forall|i: int|
        0 <= i < a.len() ==> #[trigger] b[i] == a[i] || {
            &&& i == a.len() - 1
            &&& a[i] matches OpCode::LoadNil { dest, count }
            &&& b[i] matches OpCode::LoadNil { dest: wider_dest, count: wider_count }
            &&& dest == wider_dest
            &&& count <= wider_count
        }
}

/// Whether a `LoadNil` for `dest` is taken in by the last instruction of
/// `code`: that is a `LoadNil` whose registers end just below `dest`, and
/// whose count can still grow.
pub open spec fn fuses_nil(code: Seq<OpCode>, dest: RegisterIndex) -> bool {
    &&& code.len() > 0
    &&& code.last() matches OpCode::LoadNil { dest: prev_dest, count: prev_count }
    &&& prev_dest.0 + prev_count == dest.0
    &&& prev_count < 255
}

/// The code after a nil has been stored in `dest`: the last instruction
/// takes the register in where it can, and a `LoadNil` of one register is
/// emitted otherwise.
pub open spec fn nil_stored(code: Seq<OpCode>, dest: RegisterIndex) -> Seq<OpCode> {
    if fuses_nil(code, dest) {
        code.update(
            code.len() - 1,
            OpCode::LoadNil {
                dest: code.last()->LoadNil_dest,
                count: (code.last()->LoadNil_count + 1) as u8,
            },
        )
    } else {
        code.push(OpCode::LoadNil { dest, count: 1 })
    }
}

/// The code after a nil has been stored in each of the `count` registers
/// from `dest` upwards, one after the other.
pub open spec fn nils_stored(code: Seq<OpCode>, dest: RegisterIndex, count: nat) -> Seq<OpCode>
    decreases count,
{
    if count == 0 {
        code
    } else {
        nil_stored(
            nils_stored(code, dest, (count - 1) as nat),
            RegisterIndex((dest.0 + count - 1) as u8),
        )
    }
}

/// Storing nil in consecutive registers, one after the other, emits one
/// `LoadNil` for all of them, provided the code before does not end in a
/// `LoadNil` that takes the first of them in.
pub proof fn lemma_nils_fuse(code: Seq<OpCode>, dest: RegisterIndex, count: nat)
    requires
        1 <= count <= 255,
        dest.0 + count <= 256,
        !fuses_nil(code, dest),
    ensures
        nils_stored(code, dest, count) == code.push(OpCode::LoadNil { dest, count: count as u8 }),
    decreases count,
{
    if count == 1 {
        assert(nils_stored(code, dest, 0) == code);
    } else {
        lemma_nils_fuse(code, dest, (count - 1) as nat);
        let before = code.push(OpCode::LoadNil { dest, count: (count - 1) as u8 });
        let next = RegisterIndex((dest.0 + count - 1) as u8);
        assert(fuses_nil(before, next));
        assert(nil_stored(before, next) =~= code.push(
            OpCode::LoadNil { dest, count: count as u8 },
        ));
    }
}

/// Whether `r` is the register of one of the locals.
pub open spec fn local_register(locals: Seq<(Vec<u8>, RegisterIndex)>, r: int) -> bool {
    exists|i: int| 0 <= i < locals.len() && (#[trigger] locals[i]).1.0 == r
}

/// What is known of one function while its body is compiled.
pub struct CompilerFunction {
    pub constants: Vec<Value>,
    /// The captured variables, each with its name, in order of first capture.
    pub upvalues: Vec<(Vec<u8>, UpValueDescriptor)>,
    pub prototypes: Vec<FunctionProto>,
    pub register_allocator: RegisterAllocator,
    pub fixed_params: u8,
    /// The locals in scope, each with its name, in order of declaration.
    pub locals: Vec<(Vec<u8>, RegisterIndex)>,
    pub opcodes: Vec<OpCode>,
}

impl CompilerFunction {
    pub open spec fn stack_size(self) -> int {
        self.register_allocator.stack_size as int
    }

    /// Whether `op` refers only to what this function has.
    pub open spec fn admits(self, op: OpCode) -> bool {
        op.fits(
            self.stack_size(),
            self.constants@.len() as int,
            self.upvalues@.len() as int,
            self.prototypes@.len() as int,
        )
    }

    pub open spec fn wf(self) -> bool {
        &&& self.register_allocator.wf()
        &&& self.constants@.len() <= 65536
        &&& self.upvalues@.len() <= 256
        &&& self.prototypes@.len() <= 65536
        &&& distinct(value_views(self.constants@))
        &&& forall|i: int| 0 <= i < self.opcodes@.len() ==> self.admits(#[trigger] self.opcodes@[i])
        &&& forall|i: int|
            0 <= i < self.prototypes@.len() ==> {
                &&& (#[trigger] self.prototypes@[i]).wf()
                &&& self.prototypes@[i].captures_from(
                    self.stack_size(),
                    self.upvalues@.len() as int,
                )
            }
        &&& forall|i: int| 0 <= i < self.locals@.len()
            ==> (#[trigger] self.locals@[i]).1.0 < self.stack_size()
        &&& forall|i: int|
            0 <= i < self.locals@.len() ==> self.register_allocator.allocated(
                (#[trigger] self.locals@[i]).1.0 as int,
            )
        &&& forall|i: int, j: int|
            0 <= i < j < self.locals@.len() ==> (#[trigger] self.locals@[i]).1 != (
            #[trigger] self.locals@[j]).1
        &&& self.fixed_params <= self.stack_size()
    }

    /// Whether `other` can come of this function by compiling more of its
    /// body: nothing is taken away, and no index changes its meaning.
    pub open spec fn grows_to(self, other: CompilerFunction) -> bool {
        &&& self.stack_size() <= other.stack_size()
        &&& self.fixed_params == other.fixed_params
        &&& prefix(self.constants@, other.constants@)
        &&& prefix(self.upvalues@, other.upvalues@)
        &&& prefix(self.prototypes@, other.prototypes@)
        &&& prefix(self.locals@, other.locals@)
        &&& code_grows(self.opcodes@, other.opcodes@)
    }

    /// Whether `other` differs from this function in its registers alone,
    /// and is well formed.
    pub open spec fn same_but_registers(self, other: CompilerFunction) -> bool {
        &&& other.wf()
        &&& self.grows_to(other)
        &&& other.constants == self.constants
        &&& other.upvalues == self.upvalues
        &&& other.prototypes == self.prototypes
        &&& other.fixed_params == self.fixed_params
        &&& other.locals == self.locals
        &&& other.opcodes == self.opcodes
    }

    /// Whether `other` differs from this function at most in its upvalues.
    pub open spec fn same_but_upvalues(self, other: CompilerFunction) -> bool {
        &&& other.constants == self.constants
        &&& other.prototypes == self.prototypes
        &&& other.register_allocator == self.register_allocator
        &&& other.fixed_params == self.fixed_params
        &&& other.locals == self.locals
        &&& other.opcodes == self.opcodes
    }

    pub proof fn lemma_grows_transitive(self, b: CompilerFunction, c: CompilerFunction)
        requires
            self.grows_to(b),
            b.grows_to(c),
        ensures
            self.grows_to(c),
    {
    }

    /// A function with nothing in it.
    pub fn new() -> (r: CompilerFunction)
        ensures
            r.wf(),
            r.constants@.len() == 0,
            r.upvalues@.len() == 0,
            r.prototypes@.len() == 0,
            r.locals@.len() == 0,
            r.opcodes@.len() == 0,
            r.fixed_params == 0,
            r.register_allocator.stack_top == 0,
            r.register_allocator.stack_size == 0,
            r.register_allocator.first_free == 0,
            forall|i: int| 0 <= i < 256 ==> !r.register_allocator.registers@[i],
            r@ == empty_frame(),
    {
        let r = CompilerFunction {
            constants: Vec::new(),
            upvalues: Vec::new(),
            prototypes: Vec::new(),
            register_allocator: RegisterAllocator::new(),
            fixed_params: 0,
            locals: Vec::new(),
            opcodes: Vec::new(),
        };
        proof {
            assert(r@.constants =~= Seq::empty());
            assert(r@.upvalues =~= Seq::empty());
            assert(r@.locals =~= Seq::empty());
            assert(r@.registers =~= empty_frame().registers);
        }
        r
    }

    /// Appends one instruction to the code.
    pub fn emit(&mut self, op: OpCode)
        requires
            old(self).wf(),
            old(self).admits(op),
        ensures
            final(self).wf(),
            final(self).opcodes@ == old(self).opcodes@.push(op),
            final(self).constants == old(self).constants,
            final(self).upvalues == old(self).upvalues,
            final(self).prototypes == old(self).prototypes,
            final(self).register_allocator == old(self).register_allocator,
            final(self).fixed_params == old(self).fixed_params,
            final(self).locals == old(self).locals,
            old(self).grows_to(*final(self)),
            final(self)@ == old(self)@.emit(op),
    {
        self.opcodes.push(op);
    }

    /// Allocates the lowest free register.
    pub fn allocate(&mut self) -> (r: Result<RegisterIndex, CompileError>)
        requires
            old(self).wf(),
        ensures
            old(self).same_but_registers(*final(self)),
            match r {
                Ok(register) => {
                    &&& old(self).register_allocator.first_free < 256
                    &&& register.0 == old(self).register_allocator.first_free
                    &&& old(self).register_allocator.allocates_to(final(self).register_allocator)
                    &&& register.0 < final(self).stack_size()
                },
                Err(e) => {
                    &&& old(self).register_allocator.first_free >= 256
                    &&& e == CompileError::Limit(CompilerLimit::Registers)
                    &&& final(self).register_allocator == old(self).register_allocator
                },
            },
            frame_agrees(old(self)@.take_register(), r, final(self)@),
    {
        proof {
            self.register_allocator.lemma_first_free_below_top();
        }
        let r = match self.register_allocator.allocate() {
            Some(register) => Ok(register),
            None => Err(CompileError::Limit(CompilerLimit::Registers)),
        };
        proof {
            old(self).lemma_registers_changed(*self);
        }
        r
    }

    /// Allocates `size` registers at the top of the stack.
    pub fn push(&mut self, size: u8) -> (r: Result<RegisterIndex, CompileError>)
        requires
            old(self).wf(),
        ensures
            old(self).same_but_registers(*final(self)),
            match r {
                Ok(register) => {
                    &&& 0 < size <= 256 - old(self).register_allocator.stack_top
                    &&& register.0 == old(self).register_allocator.stack_top
                    &&& old(self).register_allocator.pushes_to(size, final(self).register_allocator)
                    &&& register.0 + size <= final(self).stack_size()
                },
                Err(e) => {
                    &&& size == 0 || size > 256 - old(self).register_allocator.stack_top
                    &&& e == CompileError::Limit(CompilerLimit::Registers)
                    &&& final(self).register_allocator == old(self).register_allocator
                },
            },
            frame_agrees(old(self)@.take_top(size as int), r, final(self)@),
    {
        let r = match self.register_allocator.push(size) {
            Some(register) => Ok(register),
            None => Err(CompileError::Limit(CompilerLimit::Registers)),
        };
        proof {
            old(self).lemma_registers_changed(*self);
        }
        r
    }

    /// Frees one register, which must be allocated.
    pub fn free(&mut self, register: RegisterIndex)
        requires
            old(self).wf(),
            old(self).register_allocator.allocated(register.0 as int),
            !local_register(old(self).locals@, register.0 as int),
        ensures
            old(self).same_but_registers(*final(self)),
            old(self).register_allocator.frees_to(register, final(self).register_allocator),
            final(self)@ == old(self)@.free(register),
    {
        self.register_allocator.free(register);
        proof {
            old(self).lemma_registers_changed(*self);
        }
    }

    /// Frees every register from `new_top` upwards.
    pub fn pop_to(&mut self, new_top: u16)
        requires
            old(self).wf(),
            forall|i: int|
                0 <= i < old(self).locals@.len()
                    ==> (#[trigger] old(self).locals@[i]).1.0 < new_top,
        ensures
            old(self).same_but_registers(*final(self)),
            old(self).register_allocator.stack_top <= new_top ==> final(self).register_allocator
                == old(self).register_allocator,
            old(self).register_allocator.stack_top > new_top
                ==> old(self).register_allocator.pops_to(new_top, final(self).register_allocator),
            final(self)@ == old(self)@.pop_to(new_top as int),
    {
        self.register_allocator.pop_to(new_top);
        proof {
            old(self).lemma_registers_changed(*self);
        }
    }

    /// Brings a name into scope as a local that lives in `register`.
    pub fn bind_local(&mut self, name: &Vec<u8>, register: RegisterIndex)
        requires
            old(self).wf(),
            old(self).register_allocator.allocated(register.0 as int),
            !local_register(old(self).locals@, register.0 as int),
        ensures
            final(self).wf(),
            old(self).grows_to(*final(self)),
            final(self).locals@.len() == old(self).locals@.len() + 1,
            final(self).locals@.last().0@ == name@,
            final(self).locals@.last().1 == register,
            final(self).locals@.drop_last() == old(self).locals@,
            final(self).constants == old(self).constants,
            final(self).upvalues == old(self).upvalues,
            final(self).prototypes == old(self).prototypes,
            final(self).register_allocator == old(self).register_allocator,
            final(self).fixed_params == old(self).fixed_params,
            final(self).opcodes == old(self).opcodes,
            final(self)@ == old(self)@.bind_local(name@, register),
    {
        self.locals.push((copy_bytes(name), register));
        assert(self.locals@.drop_last() =~= old(self).locals@);
        assert(self@.locals =~= old(self)@.bind_local(name@, register).locals);
    }

    /// Whether `v` is among the constants.
    pub open spec fn has_constant(self, v: ValueView) -> bool {
        exists|i: int| 0 <= i < self.constants@.len() && (#[trigger] self.constants@[i])@ == v
    }

    /// Gives the index of `constant` in the constant table, where it is
    /// entered first if it is not there yet. Two constants are the same when
    /// they are bit for bit equal. The table holds at most 65536 constants.
    pub fn get_constant(&mut self, constant: Value) -> (r: Result<ConstantIndex16, CompileError>)
        requires
            old(self).wf(),
        ensures
            final(self).upvalues == old(self).upvalues,
            final(self).prototypes == old(self).prototypes,
            final(self).register_allocator == old(self).register_allocator,
            final(self).fixed_params == old(self).fixed_params,
            final(self).locals == old(self).locals,
            final(self).opcodes == old(self).opcodes,
            match r {
                Ok(index) => {
                    &&& final(self).wf()
                    &&& old(self).grows_to(*final(self))
                    &&& index.0 < final(self).constants@.len()
                    &&& final(self).constants@[index.0 as int]@ == constant@
                    &&& forall|i: int|
                        0 <= i < old(self).constants@.len()
                            && (#[trigger] old(self).constants@[i])@ == constant@ ==> index.0 == i
                    &&& if old(self).has_constant(constant@) {
                        final(self).constants == old(self).constants
                    } else {
                        &&& old(self).constants@.len() < 65536
                        &&& index.0 == old(self).constants@.len()
                        &&& final(self).constants@ == old(self).constants@.push(constant)
                    }
                },
                Err(e) => {
                    &&& e == CompileError::Limit(CompilerLimit::Constants)
                    &&& !old(self).has_constant(constant@)
                    &&& old(self).constants@.len() >= 65536
                    &&& final(self).constants == old(self).constants
                },
            },
            frame_agrees(old(self)@.interned(constant@), r, final(self)@),
    {
        proof {
            lemma_constant_index(old(self)@.constants, constant@, 0);
        }
        let wanted = ConstantValue(constant);
        let mut i: usize = 0;
        while i < self.constants.len()
            invariant
                i <= self.constants@.len() <= 65536,
                *self == *old(self),
                self.wf(),
                wanted.0 == constant,
                forall|j: int| 0 <= j < i ==> (#[trigger] self.constants@[j])@ != constant@,
            decreases self.constants@.len() - i,
        {
            let found = {
                let held = ConstantValue(self.constants[i].duplicate());
                held.eq(&wanted)
            };
            if found {
                proof {
                    assert(self.constants@[i as int]@ == constant@);
                    assert(self.has_constant(constant@));
                    let views = value_views(self.constants@);
                    assert forall|k: int|
                        0 <= k < self.constants@.len() && (#[trigger] self.constants@[k])@
                            == constant@ implies k == i by {
                        assert(views[k] == views[i as int]);
                        if k < i {
                            assert(views[k] != views[i as int]);
                        } else if i < k {
                            assert(views[i as int] != views[k]);
                        }
                    }
                }
                proof {
                    let views = self@.constants;
                    let index = constant_index(views, constant@, 0);
                    lemma_constant_index(views, constant@, 0);
                    assert(views[i as int] == constant@);
                    if index < i {
                        assert(self.constants@[index]@ != constant@);
                    }
                }
                return Ok(ConstantIndex16(i as u16));
            }
            i += 1;
        }
        match usize_to_u16(self.constants.len()) {
            Some(index) => {
                let ConstantValue(constant) = wanted;
                self.constants.push(constant);
                proof {
                    let before = value_views(old(self).constants@);
                    let after = value_views(self.constants@);
                    assert forall|a: int, b: int| 0 <= a < b < after.len() implies after[a]
                        != after[b] by {
                        if b < before.len() {
                            assert(before[a] != before[b]);
                        }
                    }
                    assert(after =~= before.push(constant@));
                }
                Ok(ConstantIndex16(index))
            },
            None => Err(CompileError::Limit(CompilerLimit::Constants)),
        }
    }

    /// Whether a `LoadNil` for `dest` is taken in by the instruction emitted
    /// last.
    pub open spec fn fuses_nil(self, dest: RegisterIndex) -> bool {
        fuses_nil(self.opcodes@, dest)
    }

    /// The code after a nil has been stored in `dest`.
    pub open spec fn code_with_nil(self, dest: RegisterIndex) -> Seq<OpCode> {
        nil_stored(self.opcodes@, dest)
    }

    /// Stores nil in `dest`: by widening the `LoadNil` emitted last, where
    /// its registers end just below `dest`, and by a new `LoadNil` otherwise.
    pub fn load_nil(&mut self, dest: RegisterIndex)
        requires
            old(self).wf(),
            dest.0 < old(self).stack_size(),
        ensures
            final(self).wf(),
            old(self).grows_to(*final(self)),
            final(self).opcodes@ == old(self).code_with_nil(dest),
            final(self).constants == old(self).constants,
            final(self).upvalues == old(self).upvalues,
            final(self).prototypes == old(self).prototypes,
            final(self).register_allocator == old(self).register_allocator,
            final(self).fixed_params == old(self).fixed_params,
            final(self).locals == old(self).locals,
            final(self)@ == old(self)@.store_nil(dest),
    {
        let len = self.opcodes.len();
        if len > 0 {
            let last = self.opcodes[len - 1];
            if let OpCode::LoadNil { dest: prev_dest, count: prev_count } = last {
                if prev_dest.0 as u16 + prev_count as u16 == dest.0 as u16 && prev_count < 255 {
                    let wider = OpCode::LoadNil { dest: prev_dest, count: prev_count + 1 };
                    self.opcodes.set(len - 1, wider);
                    assert(self.admits(wider));
                    return ;
                }
            }
        }
        let op = OpCode::LoadNil { dest, count: 1 };
        self.emit(op);
    }

    /// The capture descriptors of the first `n` upvalues, in order.
    pub open spec fn upvalue_descriptors(self, n: int) -> Seq<UpValueDescriptor> {
        Seq::new(n as nat, |i: int| self.upvalues@[i].1)
    }

    /// Packages the function as a prototype. The top of the register stack
    /// must be the number of locals: a register that is still allocated and
    /// holds no local has leaked.
    pub fn to_proto(self) -> (r: FunctionProto)
        requires
            self.wf(),
            self.register_allocator.stack_top == self.locals@.len(),
        ensures
            r.wf(),
            r.fixed_params == self.fixed_params,
            !r.has_varargs,
            r.stack_size == self.register_allocator.stack_size,
            r.constants == self.constants,
            r.opcodes == self.opcodes,
            r.upvalues@ == self.upvalue_descriptors(self.upvalues@.len() as int),
            r.prototypes == self.prototypes,
            proto_view(r) == self@.to_proto(),
    {
        let mut upvalues: Vec<UpValueDescriptor> = Vec::new();
        let mut i: usize = 0;
        while i < self.upvalues.len()
            invariant
                i <= self.upvalues@.len(),
                upvalues@ == self.upvalue_descriptors(i as int),
            decreases self.upvalues@.len() - i,
        {
            upvalues.push(self.upvalues[i].1);
            assert(upvalues@ =~= self.upvalue_descriptors(i + 1));
            i += 1;
        }
        proof {
            assert(upvalues@ =~= self@.to_proto().upvalues);
        }
        FunctionProto {
            fixed_params: self.fixed_params,
            has_varargs: false,
            stack_size: self.register_allocator.stack_size,
            constants: self.constants,
            opcodes: self.opcodes,
            upvalues,
            prototypes: self.prototypes,
        }
    }
}

/// Whether a list of upvalues is empty or holds the global environment,
/// under its name, and nothing else.
pub open spec fn environment_only(upvalues: Seq<(Vec<u8>, UpValueDescriptor)>) -> bool {
    upvalues.len() == 0 || (upvalues.len() == 1 && upvalues[0].0@ == env_name() && upvalues[0].1
        == UpValueDescriptor::Environment)
}

/// Whether every upvalue of `inner` captures a register or an upvalue that
/// `outer` has.
pub open spec fn captures_from(inner: CompilerFunction, outer: CompilerFunction) -> bool {
    forall|j: int|
        0 <= j < inner.upvalues@.len() ==> (#[trigger] inner.upvalues@[j]).1.captures_from(
            outer.stack_size(),
            outer.upvalues@.len() as int,
        )
}

/// Whether a nest of function contexts is consistent: each context is, the
/// outermost captures the global environment at most, and each other one
/// captures only what the one around it has.
pub open spec fn nest_wf(functions: Seq<CompilerFunction>) -> bool {
    &&& functions.len() >= 1
    &&& forall|i: int| 0 <= i < functions.len() ==> (#[trigger] functions[i]).wf()
    &&& environment_only(functions[0].upvalues@)
    &&& forall|i: int|
        1 <= i < functions.len() ==> captures_from(#[trigger] functions[i], functions[i - 1])
}

/// Whether the nest `b` can come of the nest `a` by compiling more of the
/// innermost function's body. The functions around the innermost one get
/// new upvalues at most.
pub open spec fn nest_grows(a: Seq<CompilerFunction>, b: Seq<CompilerFunction>) -> bool {
    &&& a.len() == b.len()
    &&& forall|i: int| 0 <= i < a.len() ==> (#[trigger] a[i]).grows_to(b[i])
    &&& forall|i: int| 0 <= i < a.len() - 1 ==> (#[trigger] a[i]).same_but_upvalues(b[i])
}

pub proof fn lemma_nest_grows_transitive(
    a: Seq<CompilerFunction>,
    b: Seq<CompilerFunction>,
    c: Seq<CompilerFunction>,
)
    requires
        nest_grows(a, b),
        nest_grows(b, c),
    ensures
        nest_grows(a, c),
{
    assert forall|i: int| 0 <= i < a.len() implies (#[trigger] a[i]).grows_to(c[i]) by {
        assert(a[i].grows_to(b[i]));
        assert(b[i].grows_to(c[i]));
        a[i].lemma_grows_transitive(b[i], c[i]);
    }
    assert forall|i: int| 0 <= i < a.len() - 1 implies (#[trigger] a[i]).same_but_upvalues(
        c[i],
    ) by {
        assert(a[i].same_but_upvalues(b[i]));
        assert(b[i].same_but_upvalues(c[i]));
    }
}

/// The compiler: the contexts of the functions that are being compiled, the
/// innermost on top.
pub struct Compiler {
    pub functions: TopStack<CompilerFunction>,
}

impl Compiler {
    /// Whether the nest of function contexts is consistent.
    #[verifier::opaque]
    pub open spec fn wf(self) -> bool {
        nest_wf(self.functions@)
    }

    /// Whether `other` can come of this state by compiling more of the
    /// innermost function's body.
    #[verifier::opaque]
    pub open spec fn extends_to(self, other: Compiler) -> bool {
        nest_grows(self.functions@, other.functions@)
    }

    /// Whether `after` is a consistent state that can come of this one by
    /// compiling more of the innermost function's body. The sizes of the
    /// innermost function do not shrink on the way.
    pub open spec fn steps_to(self, after: Compiler) -> bool {
        &&& after.wf()
        &&& self.extends_to(after)
        &&& self.functions.lower@.len() == after.functions.lower@.len()
        &&& self.functions.top.stack_size() <= after.functions.top.stack_size()
        &&& self.functions.top.constants@.len() <= after.functions.top.constants@.len()
        &&& self.functions.top.upvalues@.len() <= after.functions.top.upvalues@.len()
        &&& self.functions.top.prototypes@.len() <= after.functions.top.prototypes@.len()
        &&& self.functions.top.opcodes@.len() <= after.functions.top.opcodes@.len()
        &&& self.functions.top.locals@.len() <= after.functions.top.locals@.len()
        &&& self.functions.top.fixed_params == after.functions.top.fixed_params
    }

    /// Whether every register and upvalue that `expr` names is one that the
    /// innermost function has.
    pub open spec fn holds(self, expr: ExprDescriptor<'_>) -> bool {
        expr.fits(self.functions.top.stack_size(), self.functions.top.upvalues@.len() as int)
    }

    /// Whether the innermost function has each register and upvalue that
    /// the descriptors name.
    pub open spec fn holds_all(self, exprs: Seq<ExprDescriptor<'_>>) -> bool {
        all_fit(exprs, self.functions.top.stack_size(), self.functions.top.upvalues@.len() as int)
    }

    /// Whether a destination that is a register is one that is allocated
    /// in the innermost function.
    pub open spec fn admits_destination(self, dest: ExprDestination) -> bool {
        dest matches ExprDestination::Register(d) ==> self.allocated(d.0 as int)
    }

    /// Whether the register `r` of the innermost function is allocated.
    pub open spec fn allocated(self, r: int) -> bool {
        self.functions.top.register_allocator.allocated(r)
    }

    /// Whether the descriptor holds no register twice, and each register
    /// that it holds as a temporary is allocated in the innermost function
    /// and is not the register of a local.
    pub open spec fn owns(self, expr: ExprDescriptor<'_>) -> bool {
        &&& expr.exclusive()
        &&& forall|r: int| #[trigger]
            expr.holds_temporary(r) ==> self.allocated(r) && !local_register(
                self.functions.top.locals@,
                r,
            )
    }

    /// Whether the descriptors hold no register twice among them, and each
    /// register that they hold as a temporary is allocated in the innermost
    /// function and is not the register of a local.
    pub open spec fn owns_all(self, exprs: Seq<ExprDescriptor<'_>>) -> bool {
        &&& exclusive_all(exprs)
        &&& forall|i: int, r: int|
            0 <= i < exprs.len() && #[trigger] exprs[i].holds_temporary(r) ==> self.allocated(r)
                && !local_register(self.functions.top.locals@, r)
    }

    /// Whether every register of the innermost function that is allocated
    /// and not among `released` is allocated in `after`.
    pub open spec fn keeps_registers(self, released: Set<int>, after: Compiler) -> bool {
        self.functions.top.keeps_registers(released, after.functions.top)
    }

    /// Whether every register that is allocated in `after` was allocated in
    /// the innermost function of this state and is not among `released`, or
    /// is among `taken`.
    pub open spec fn accounts(self, released: Set<int>, taken: Set<int>, after: Compiler) -> bool {
        self.functions.top.accounts(released, taken, after.functions.top)
    }

    /// Whether every register that is allocated in the innermost function
    /// is the register of a local.
    pub open spec fn tidy(self) -> bool {
        forall|r: int| #[trigger]
            self.functions.top.register_allocator.allocated(r) ==> local_register(
                self.functions.top.locals@,
                r,
            )
    }

    /// Whether a step that releases the registers `released` leaves `expr`
    /// in keeping with the registers in use: every other register that was
    /// allocated is allocated still, `after` owns the descriptor, and each
    /// register that the descriptor holds was free or has been released.
    pub open spec fn yields(
        self,
        released: Set<int>,
        expr: ExprDescriptor<'_>,
        after: Compiler,
    ) -> bool {
        &&& self.keeps_registers(released, after)
        &&& after.owns(expr)
        &&& forall|r: int| #[trigger]
            expr.holds_temporary(r) ==> !self.allocated(r) || released.contains(r)
    }

    /// Whether a step that releases the registers `released` yields `expr`
    /// and nothing else: the registers that are allocated after it are
    /// those that it has kept and those that the descriptor holds.
    pub open spec fn yields_only(
        self,
        released: Set<int>,
        expr: ExprDescriptor<'_>,
        after: Compiler,
    ) -> bool {
        &&& self.yields(released, expr, after)
        &&& self.accounts(released, expr.temporaries(), after)
    }

    /// Whether a value has been placed in keeping with the registers in use
    /// in the innermost function.
    pub open spec fn places(
        self,
        released: Set<int>,
        dest: ExprDestination,
        placed_in: Option<RegisterIndex>,
        after: Compiler,
    ) -> bool {
        self.functions.top.placed_from(released, dest, placed_in, after.functions.top)
    }

    /// What a step keeps, a step after it that releases only what the
    /// first step has yielded keeps too.
    pub proof fn lemma_released_then(
        self,
        released: Set<int>,
        expr: ExprDescriptor<'_>,
        mid: Compiler,
        after: Compiler,
    )
        requires
            self.yields(released, expr, mid),
            mid.keeps_registers(expr.temporaries(), after),
        ensures
            self.keeps_registers(released, after),
    {
        assert forall|r: int| #[trigger]
            self.functions.top.register_allocator.allocated(r) && !released.contains(
                r,
            ) implies after.functions.top.register_allocator.allocated(r) by {
            assert(self.allocated(r));
            assert(mid.functions.top.register_allocator.allocated(r));
            if expr.holds_temporary(r) {
                assert(false);
            }
            assert(!expr.temporaries().contains(r));
        }
    }

    /// Two steps keep what neither of them releases.
    pub proof fn lemma_kept_then(
        self,
        first: Set<int>,
        mid: Compiler,
        second: Set<int>,
        after: Compiler,
    )
        requires
            self.keeps_registers(first, mid),
            mid.keeps_registers(second, after),
        ensures
            self.keeps_registers(first.union(second), after),
    {
        assert forall|r: int| #[trigger]
            self.functions.top.register_allocator.allocated(r) && !first.union(second).contains(
                r,
            ) implies after.functions.top.register_allocator.allocated(r) by {
            assert(mid.functions.top.register_allocator.allocated(r));
        }
    }

    /// A step that keeps more than is asked keeps what is asked.
    pub proof fn lemma_kept_wider(self, released: Set<int>, after: Compiler, wider: Set<int>)
        requires
            self.keeps_registers(released, after),
            released.subset_of(wider),
        ensures
            self.keeps_registers(wider, after),
    {
        assert forall|r: int| #[trigger]
            self.functions.top.register_allocator.allocated(r) && !wider.contains(
                r,
            ) implies after.functions.top.register_allocator.allocated(r) by {
            assert(!released.contains(r));
        }
    }

    /// A register that is allocated after a step, and was free before the
    /// step or has been released by it, is a temporary that the state after
    /// the step owns.
    pub proof fn lemma_yields_temporary(
        self,
        released: Set<int>,
        after: Compiler,
        register: RegisterIndex,
    )
        requires
            self.functions.top.wf(),
            self.keeps_registers(released, after),
            forall|r: int| #[trigger]
                released.contains(r) ==> !local_register(self.functions.top.locals@, r),
            after.allocated(register.0 as int),
            !self.allocated(register.0 as int) || released.contains(register.0 as int),
            after.functions.top.locals == self.functions.top.locals,
        ensures
            self.yields(
                released,
                ExprDescriptor::Register { register, is_temporary: true },
                after,
            ),
    {
        let expr = ExprDescriptor::Register { register, is_temporary: true };
        assert forall|r: int| #[trigger] expr.holds_temporary(r) implies after.allocated(r)
            && !local_register(after.functions.top.locals@, r) && (!self.allocated(r)
            || released.contains(r)) by {
            assert(r == register.0);
            if local_register(self.functions.top.locals@, r) {
                let i = choose|i: int|
                    0 <= i < self.functions.top.locals@.len() && (
                    #[trigger] self.functions.top.locals@[i]).1.0 == r;
                assert(self.functions.top.register_allocator.allocated(
                    self.functions.top.locals@[i].1.0 as int,
                ));
                assert(released.contains(r));
            }
        }
    }

    /// What is yielded from a descriptor that has just been yielded is
    /// yielded from the start.
    pub proof fn lemma_yields_chain(
        self,
        expr: ExprDescriptor<'_>,
        mid: Compiler,
        result: ExprDescriptor<'_>,
        after: Compiler,
    )
        requires
            self.yields_only(Set::empty(), expr, mid),
            mid.yields_only(expr.temporaries(), result, after),
        ensures
            self.yields_only(Set::empty(), result, after),
    {
        assert forall|r: int| #[trigger]
            self.functions.top.register_allocator.allocated(r) && !Set::<int>::empty().contains(
                r,
            ) implies after.functions.top.register_allocator.allocated(r) by {
            assert(self.allocated(r));
            assert(mid.functions.top.register_allocator.allocated(r));
            assert(!expr.holds_temporary(r));
            assert(!expr.temporaries().contains(r));
        }
        assert forall|r: int| #[trigger] result.holds_temporary(r) implies !self.allocated(r)
            || Set::<int>::empty().contains(r) by {
            if self.allocated(r) {
                assert(self.functions.top.register_allocator.allocated(r));
                assert(mid.allocated(r));
                assert(!expr.holds_temporary(r));
                assert(!expr.temporaries().contains(r));
            }
        }
        assert forall|r: int| #[trigger]
            after.functions.top.register_allocator.allocated(
                r,
            ) implies self.functions.top.register_allocator.allocated(r)
            || result.temporaries().contains(r) by {
            if !result.temporaries().contains(r) {
                assert(mid.functions.top.register_allocator.allocated(r));
                assert(!expr.temporaries().contains(r));
            }
        }
    }

    /// A register that has just been allocated is a temporary that is
    /// owned, and nothing else has been allocated with it.
    pub proof fn lemma_yields_allocated(
        self,
        before: Compiler,
        after: Compiler,
        register: RegisterIndex,
    )
        requires
            self.wf(),
            self.keeps_registers(Set::empty(), before),
            self.accounts(Set::empty(), Set::empty(), before),
            !before.allocated(register.0 as int),
            before.keeps_registers(Set::empty(), after),
            before.accounts(Set::empty(), set![register.0 as int], after),
            after.allocated(register.0 as int),
            after.functions.top.locals == self.functions.top.locals,
        ensures
            self.yields_only(
                Set::empty(),
                ExprDescriptor::Register { register, is_temporary: true },
                after,
            ),
    {
        self.lemma_top_wf();
        self.lemma_kept_then(Set::empty(), before, Set::empty(), after);
        self.lemma_kept_wider(Set::<int>::empty().union(Set::empty()), after, Set::empty());
        if self.functions.top.register_allocator.allocated(register.0 as int) {
            assert(before.functions.top.register_allocator.allocated(register.0 as int));
        }
        self.lemma_yields_temporary(Set::empty(), after, register);
        let result = ExprDescriptor::Register { register, is_temporary: true };
        assert forall|r: int| #[trigger]
            after.functions.top.register_allocator.allocated(
                r,
            ) implies self.functions.top.register_allocator.allocated(r)
            || result.temporaries().contains(r) by {
            if r != register.0 {
                assert(!set![register.0 as int].contains(r));
                assert(before.functions.top.register_allocator.allocated(r));
            } else {
                assert(result.holds_temporary(r));
            }
        }
    }

    /// A state keeps its own registers, and has no others.
    pub proof fn lemma_keeps_own(self, released: Set<int>)
        ensures
            self.keeps_registers(released, self),
            self.accounts(Set::empty(), Set::empty(), self),
    {
    }

    /// A descriptor that a state owns is owned after a step that keeps the
    /// registers it holds.
    pub proof fn lemma_owns_kept(
        self,
        released: Set<int>,
        after: Compiler,
        expr: ExprDescriptor<'_>,
    )
        requires
            self.owns(expr),
            self.keeps_registers(released, after),
            forall|r: int| #[trigger] expr.holds_temporary(r) ==> !released.contains(r),
            after.functions.top.locals == self.functions.top.locals,
        ensures
            after.owns(expr),
    {
        assert forall|r: int| #[trigger] expr.holds_temporary(r) implies after.allocated(r)
            && !local_register(after.functions.top.locals@, r) by {
            assert(self.allocated(r));
            assert(self.functions.top.register_allocator.allocated(r));
        }
    }

    /// The registers that an owned descriptor holds are no registers of
    /// locals.
    pub proof fn lemma_owned_not_local(self, expr: ExprDescriptor<'_>)
        requires
            self.owns(expr),
        ensures
            forall|r: int| #[trigger]
                expr.temporaries().contains(r) ==> !local_register(self.functions.top.locals@, r),
    {
        assert forall|r: int| #[trigger] expr.temporaries().contains(r) implies !local_register(
            self.functions.top.locals@,
            r,
        ) by {
            assert(expr.holds_temporary(r));
        }
    }

    pub proof fn lemma_top_wf(self)
        requires
            self.wf(),
        ensures
            self.functions.top.wf(),
            self@.len() >= 1,
            self@.last() == self.functions.top@,
    {
        reveal(Compiler::wf);
        assert(self.functions@[self.functions@.len() - 1].wf());
    }

    /// Where the top of the register stack is the number of locals, every
    /// register that is allocated holds a local: the locals have registers
    /// of their own below the top, and so they fill what is below it.
    pub proof fn lemma_balanced(self)
        requires
            self.wf(),
            self.functions.top.register_allocator.stack_top == self.functions.top.locals@.len(),
        ensures
            self.tidy(),
    {
        self.lemma_top_wf();
        let function = self.functions.top;
        let count = function.locals@.len() as int;
        let registers = Seq::new(function.locals@.len(), |i: int| function.locals@[i].1.0 as int);
        assert(registers.no_duplicates()) by {
            assert forall|i: int, j: int|
                0 <= i < registers.len() && 0 <= j < registers.len() && i != j implies registers[i]
                != registers[j] by {
                if i < j {
                    assert(function.locals@[i].1 != function.locals@[j].1);
                } else {
                    assert(function.locals@[j].1 != function.locals@[i].1);
                }
            }
        }
        registers.unique_seq_to_set();
        vstd::seq_lib::seq_to_set_is_finite(registers);
        vstd::set_lib::lemma_int_range(0, count);
        let below = vstd::set_lib::set_int_range(0, count);
        assert(registers.to_set().subset_of(below)) by {
            assert forall|r: int| registers.to_set().contains(r) implies below.contains(r) by {
                let i = choose|i: int| 0 <= i < registers.len() && registers[i] == r;
                assert(function.register_allocator.allocated(function.locals@[i].1.0 as int));
                function.register_allocator.lemma_allocated_below_top(r);
            }
        }
        vstd::set_lib::lemma_subset_equality(registers.to_set(), below);
        assert forall|r: int| #[trigger]
            function.register_allocator.allocated(r) implies local_register(function.locals@, r) by {
            function.register_allocator.lemma_allocated_below_top(r);
            assert(below.contains(r));
            assert(registers.to_set().contains(r));
            let i = choose|i: int| 0 <= i < registers.len() && registers[i] == r;
            assert(function.locals@[i].1.0 == r);
        }
    }

    /// A register that is free holds no local.
    pub proof fn lemma_free_not_local(self, r: int)
        requires
            self.wf(),
            !self.allocated(r),
        ensures
            !local_register(self.functions.top.locals@, r),
    {
        self.lemma_top_wf();
    }

    pub proof fn lemma_start(self)
        requires
            self.wf(),
        ensures
            self.steps_to(self),
    {
        reveal(Compiler::extends_to);
    }

    /// Steps compose, and what the innermost function held before a step
    /// it holds after it.
    pub proof fn lemma_step(self, before: Compiler, after: Compiler)
        requires
            self.steps_to(before),
            before.steps_to(after),
        ensures
            self.steps_to(after),
            forall|e: ExprDescriptor<'_>| #[trigger] before.holds(e) ==> after.holds(e),
            forall|s: Seq<ExprDescriptor<'_>>| #[trigger] before.holds_all(s)
                ==> after.holds_all(s),
            forall|scope: Set<Seq<u8>>| #[trigger] before.covers(scope) ==> after.covers(scope),
            forall|scope: Set<Seq<u8>>| #[trigger] self.covers(scope) ==> after.covers(scope),
    {
        reveal(Compiler::extends_to);
        lemma_nest_grows_transitive(self.functions@, before.functions@, after.functions@);
        before.lemma_holds_after(after);
        lemma_named_grows(before.functions@, after.functions@);
        lemma_named_grows(self.functions@, after.functions@);
    }

    /// A step of the compilation keeps the names that are in scope.
    pub proof fn lemma_covers(self, after: Compiler)
        requires
            self.steps_to(after),
        ensures
            forall|scope: Set<Seq<u8>>| #[trigger] self.covers(scope) ==> after.covers(scope),
    {
        reveal(Compiler::extends_to);
        lemma_named_grows(self.functions@, after.functions@);
    }

    pub proof fn lemma_holds_after(self, after: Compiler)
        requires
            self.functions.top.stack_size() <= after.functions.top.stack_size(),
            self.functions.top.upvalues@.len() <= after.functions.top.upvalues@.len(),
        ensures
            forall|e: ExprDescriptor<'_>| #[trigger] self.holds(e) ==> after.holds(e),
            forall|s: Seq<ExprDescriptor<'_>>| #[trigger] self.holds_all(s) ==> after.holds_all(s),
    {
        assert forall|e: ExprDescriptor<'_>| #[trigger] self.holds(e) implies after.holds(e) by {
            e.lemma_fits_larger(
                self.functions.top.stack_size(),
                self.functions.top.upvalues@.len() as int,
                after.functions.top.stack_size(),
                after.functions.top.upvalues@.len() as int,
            );
        }
        assert forall|s: Seq<ExprDescriptor<'_>>| #[trigger] self.holds_all(s)
            implies after.holds_all(
            s,
        ) by {
            assert forall|i: int| 0 <= i < s.len() implies (#[trigger] s[i]).fits(
                after.functions.top.stack_size(),
                after.functions.top.upvalues@.len() as int,
            ) by {
                assert(self.holds(s[i]));
            }
        }
    }

    /// A change of the innermost function that leaves its upvalues alone
    /// keeps the nest consistent.
    pub proof fn lemma_top_stepped(self, after: Compiler)
        requires
            self.wf(),
            after.functions.lower == self.functions.lower,
            after.functions.top.wf(),
            self.functions.top.grows_to(after.functions.top),
            after.functions.top.upvalues == self.functions.top.upvalues,
        ensures
            self.steps_to(after),
            self.keeps_outermost(after),
            forall|e: ExprDescriptor<'_>| #[trigger] self.holds(e) ==> after.holds(e),
            forall|s: Seq<ExprDescriptor<'_>>| #[trigger] self.holds_all(s) ==> after.holds_all(s),
            forall|scope: Set<Seq<u8>>| #[trigger] self.covers(scope) ==> after.covers(scope),
            after@ == with_top(self@, after.functions.top@),
            after@.last() == after.functions.top@,
    {
        reveal(Compiler::wf);
        reveal(Compiler::extends_to);
        self.lemma_top_view(after);
        let a = self.functions@;
        let b = after.functions@;
        assert(b[0].upvalues == a[0].upvalues) by {
            if b.len() > 1 {
                assert(b[0] == after.functions.lower@[0]);
                assert(a[0] == self.functions.lower@[0]);
            }
        }
        assert forall|i: int| 0 <= i < b.len() implies (#[trigger] b[i]).wf() by {
            if i < b.len() - 1 {
                assert(b[i] == a[i]);
            }
        }
        assert forall|i: int| 1 <= i < b.len() implies captures_from(
            #[trigger] b[i],
            b[i - 1],
        ) by {
            assert(captures_from(a[i], a[i - 1]));
            if i < b.len() - 1 {
                assert(b[i] == a[i]);
            }
            assert(b[i - 1] == a[i - 1]);
        }
        assert forall|i: int| 0 <= i < a.len() implies (#[trigger] a[i]).grows_to(b[i]) by {
            if i < b.len() - 1 {
                assert(b[i] == a[i]);
            }
        }
        self.lemma_holds_after(after);
        lemma_named_grows(a, b);
    }

    /// An instruction that is no `LoadNil` stays as it is while more code is
    /// emitted after it.
    pub proof fn lemma_code_kept(self, after: Compiler, j: int)
        requires
            self.extends_to(after),
            0 <= j < self.functions.top.opcodes@.len(),
            !(self.functions.top.opcodes@[j] is LoadNil),
        ensures
            j < after.functions.top.opcodes@.len(),
            after.functions.top.opcodes@[j] == self.functions.top.opcodes@[j],
    {
        reveal(Compiler::extends_to);
        let t = self.functions@.len() - 1;
        assert(self.functions@[t].grows_to(after.functions@[t]));
    }

    /// Appends one instruction to the code of the innermost function.
    pub fn emit(&mut self, op: OpCode)
        requires
            old(self).wf(),
            old(self).functions.top.admits(op),
        ensures
            old(self).steps_to(*final(self)),
            old(self).keeps_outermost(*final(self)),
            final(self).functions.lower == old(self).functions.lower,
            final(self).functions.top.opcodes@ == old(self).functions.top.opcodes@.push(op),
            final(self).functions.top.constants == old(self).functions.top.constants,
            final(self).functions.top.upvalues == old(self).functions.top.upvalues,
            final(self).functions.top.prototypes == old(self).functions.top.prototypes,
            final(self).functions.top.register_allocator
                == old(self).functions.top.register_allocator,
            final(self).functions.top.fixed_params == old(self).functions.top.fixed_params,
            final(self).functions.top.locals == old(self).functions.top.locals,
            final(self)@ == emitted(old(self)@, op),
    {
        proof {
            self.lemma_top_wf();
        }
        self.functions.top.emit(op);
        proof {
            old(self).lemma_top_stepped(*self);
        }
    }

    /// Allocates the lowest free register of the innermost function.
    pub fn allocate(&mut self) -> (r: Result<RegisterIndex, CompileError>)
        requires
            old(self).wf(),
        ensures
            final(self).functions.lower == old(self).functions.lower,
            old(self).functions.top.same_but_registers(final(self).functions.top),
            match r {
                Ok(register) => {
                    &&& old(self).steps_to(*final(self))
                    &&& old(self).keeps_outermost(*final(self))
                    &&& old(self).keeps_registers(Set::empty(), *final(self))
                    &&& old(self).accounts(Set::empty(), set![register.0 as int], *final(self))
                    &&& !old(self).allocated(register.0 as int)
                    &&& final(self).allocated(register.0 as int)
                    &&& old(self).functions.top.register_allocator.first_free < 256
                    &&& register.0 == old(self).functions.top.register_allocator.first_free
                    &&& old(self).functions.top.register_allocator.allocates_to(
                        final(self).functions.top.register_allocator,
                    )
                    &&& register.0 < final(self).functions.top.stack_size()
                },
                Err(e) => {
                    &&& old(self).functions.top.register_allocator.first_free >= 256
                    &&& e == CompileError::Limit(CompilerLimit::Registers)
                    &&& final(self).functions.top.register_allocator
                        == old(self).functions.top.register_allocator
                },
            },
            agrees(on_top(old(self)@, old(self)@.last().take_register()), r, final(self)@),
    {
        proof {
            self.lemma_top_wf();
        }
        let r = self.functions.top.allocate();
        proof {
            old(self).lemma_top_stepped(*self);
        }
        r
    }

    /// A compiler with one empty function, the outermost.
    pub fn new() -> (r: Compiler)
        ensures
            r.wf(),
            r.functions@.len() == 1,
            r.functions.top.opcodes@.len() == 0,
            r.functions.top.locals@.len() == 0,
            r.functions.top.upvalues@.len() == 0,
            r.functions.top.constants@.len() == 0,
            r.functions.top.prototypes@.len() == 0,
            r.functions.top.register_allocator.stack_top == 0,
            r.functions.top.register_allocator.stack_size == 0,
            r.functions.top.register_allocator.first_free == 0,
            forall|i: int| 0 <= i < 256 ==> !r.functions.top.register_allocator.registers@[i],
            r.functions.top.fixed_params == 0,
            r@ == seq![empty_frame()],
    {
        let r = Compiler { functions: TopStack::new(CompilerFunction::new()) };
        proof {
            reveal(Compiler::wf);
            assert(r.functions@[0] == r.functions.top);
            assert(r@ =~= seq![empty_frame()]);
        }
        r
    }
}

} // verus!
