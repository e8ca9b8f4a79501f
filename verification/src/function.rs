//! The compiled form of a function body.

use vstd::prelude::*;
use crate::opcode::{OpCode, RegisterIndex, UpValueIndex};
use crate::value::{value_views, Value, ValueView};

verus! {

/// How a function captures one variable of the function around it.
#[derive(Clone, Copy, Debug, PartialEq, Eq, Structural, Hash)]
pub enum UpValueDescriptor {
    /// The global environment, captured by the outermost function alone.
    Environment,
    /// A local of the enclosing function, by its register.
    ParentLocal(RegisterIndex),
    /// An upvalue of the enclosing function, by its index.
    Outer(UpValueIndex),
}

impl UpValueDescriptor {
    /// Whether the descriptor names a register or an upvalue that an
    /// enclosing function with the given sizes has.
    pub open spec fn captures_from(self, stack_size: int, upvalues: int) -> bool {
        match self {
            UpValueDescriptor::Environment => false,
            UpValueDescriptor::ParentLocal(r) => r.0 < stack_size,
            UpValueDescriptor::Outer(u) => u.0 < upvalues,
        }
    }
}

/// No value occurs twice in `values`.
pub open spec fn distinct(values: Seq<ValueView>) -> bool {
    forall|i: int, j: int| 0 <= i < j < values.len() ==> values[i] != values[j]
}

/// Every instruction of `opcodes` refers only to registers, constants,
/// upvalues and nested prototypes that a function with the given sizes has.
pub open spec fn opcodes_fit(
    opcodes: Seq<OpCode>,
    stack_size: int,
    constants: int,
    upvalues: int,
    prototypes: int,
) -> bool {
    forall|i: int|
        0 <= i < opcodes.len() ==> (#[trigger] opcodes[i]).fits(
            stack_size,
            constants,
            upvalues,
            prototypes,
        )
}

#[derive(Debug)]
pub struct FunctionProto {
    pub fixed_params: u8,
    pub has_varargs: bool,
    pub stack_size: u16,
    pub constants: Vec<Value>,
    pub opcodes: Vec<OpCode>,
    pub upvalues: Vec<UpValueDescriptor>,
    pub prototypes: Vec<FunctionProto>,
}

impl FunctionProto {
    /// Whether the prototype is consistent in itself: its frame has at most
    /// 256 registers, no constant occurs twice, every operand of every
    /// instruction is in range, and each nested prototype is consistent and
    /// captures only what this one has.
    pub open spec fn wf(self) -> bool
        decreases self,
    {
        &&& !self.has_varargs
        &&& self.stack_size <= 256
        &&& self.constants@.len() <= 65536
        &&& self.upvalues@.len() <= 256
        &&& self.prototypes@.len() <= 65536
        &&& distinct(value_views(self.constants@))
        &&& opcodes_fit(
            self.opcodes@,
            self.stack_size as int,
            self.constants@.len() as int,
            self.upvalues@.len() as int,
            self.prototypes@.len() as int,
        )
        &&& forall|i: int|
            0 <= i < self.prototypes@.len() ==> {
                &&& (#[trigger] self.prototypes@[i]).wf()
                &&& self.prototypes@[i].captures_from(
                    self.stack_size as int,
                    self.upvalues@.len() as int,
                )
            }
    }

    /// Whether every upvalue of this prototype captures a register or an
    /// upvalue that an enclosing function with the given sizes has.
    pub open spec fn captures_from(self, stack_size: int, upvalues: int) -> bool {
        forall|j: int|
            0 <= j < self.upvalues@.len() ==> (#[trigger] self.upvalues@[j]).captures_from(
                stack_size,
                upvalues,
            )
    }

    /// Whether this prototype captures nothing but, at most, the global
    /// environment, as the outermost function of a chunk does.
    pub open spec fn captures_environment_only(self) -> bool {
        self.upvalues@ =~= Seq::empty() || self.upvalues@ =~= seq![UpValueDescriptor::Environment]
    }
}

/// The frame of a consistent prototype has a register for every one that
/// its instructions name. A `Return` may name the first register past the
/// frame, as the start of no values.
pub proof fn lemma_stack_size_suffices(proto: FunctionProto, i: int)
    requires
        proto.wf(),
        0 <= i < proto.opcodes@.len(),
    ensures
        proto.opcodes@[i].highest_register() <= proto.stack_size,
        !(proto.opcodes@[i] is Return) ==> proto.opcodes@[i].highest_register() < proto.stack_size,
{
    assert(proto.opcodes@[i].fits(
        proto.stack_size as int,
        proto.constants@.len() as int,
        proto.upvalues@.len() as int,
        proto.prototypes@.len() as int,
    ));
}

/// No value occurs twice in the constant table of a consistent prototype:
/// two entries that hold the same value are one entry.
pub proof fn lemma_constants_distinct(proto: FunctionProto, i: int, j: int)
    requires
        proto.wf(),
        0 <= i < proto.constants@.len(),
        0 <= j < proto.constants@.len(),
        proto.constants@[i]@ == proto.constants@[j]@,
    ensures
        i == j,
{
    let views = value_views(proto.constants@);
    assert(views[i] == views[j]);
    if i < j {
        assert(views[i] != views[j]);
    } else if j < i {
        assert(views[j] != views[i]);
    }
}

/// Each prototype nested in a consistent one is consistent, and captures
/// only registers and upvalues that the one around it has.
pub proof fn lemma_nested_consistent(proto: FunctionProto, i: int)
    requires
        proto.wf(),
        0 <= i < proto.prototypes@.len(),
    ensures
        proto.prototypes@[i].wf(),
        proto.prototypes@[i].captures_from(proto.stack_size as int, proto.upvalues@.len() as int),
{
}

} // verus!
