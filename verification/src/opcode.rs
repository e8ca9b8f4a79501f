//! Operand types and the instruction set that the code generator emits.

use vstd::prelude::*;

verus! {

/// One of the 256 registers of a function's frame.
#[derive(Clone, Copy, Debug, PartialEq, Eq, Structural, Hash)]
pub struct RegisterIndex(pub u8);

/// An index into a prototype's constant table that fits the dense operand form.
#[derive(Clone, Copy, Debug, PartialEq, Eq, Structural, Hash)]
pub struct ConstantIndex8(pub u8);

/// An index into a prototype's constant table.
#[derive(Clone, Copy, Debug, PartialEq, Eq, Structural, Hash)]
pub struct ConstantIndex16(pub u16);

/// An index into a function's upvalue list.
#[derive(Clone, Copy, Debug, PartialEq, Eq, Structural, Hash)]
pub struct UpValueIndex(pub u8);

/// An index into a prototype's list of nested prototypes.
#[derive(Clone, Copy, Debug, PartialEq, Eq, Structural, Hash)]
pub struct PrototypeIndex(pub u16);

/// The number of values in a call's argument list or result list: either a
/// fixed count between 0 and 254, or "all values up to the top of the stack".
///
/// The byte holds 0 for the variable count and `n + 1` for the fixed count `n`.
#[derive(Clone, Copy, Debug, PartialEq, Eq, Structural, Hash)]
pub struct VarCount(pub u8);

impl VarCount {
    /// The fixed count that this value stands for, or `None` for the variable
    /// count.
    pub open spec fn constant(self) -> Option<nat> {
        if self.0 == 0 {
            None
        } else {
            Some((self.0 - 1) as nat)
        }
    }

    pub fn make_variable() -> (r: VarCount)
        ensures
            r.constant().is_none(),
            r.0 == 0,
    {
        VarCount(0)
    }

    /// A fixed count; 255 is not expressible.
    pub fn make_constant(constant: u8) -> (r: Option<VarCount>)
        ensures
            constant == 255 ==> r.is_none(),
            constant < 255 ==> r == Some(VarCount((constant + 1) as u8)),
            constant < 255 ==> r.unwrap().constant() == Some(constant as nat),
    {
        if constant == 255 {
            None
        } else {
            Some(VarCount(constant + 1))
        }
    }

    pub fn make_zero() -> (r: VarCount)
        ensures
            r.constant() == Some(0nat),
            r.0 == 1,
    {
        VarCount(1)
    }

    pub fn make_one() -> (r: VarCount)
        ensures
            r.constant() == Some(1nat),
            r.0 == 2,
    {
        VarCount(2)
    }

    pub fn is_variable(&self) -> (r: bool)
        ensures
            r == self.constant().is_none(),
    {
        self.0 == 0
    }

    pub fn get_constant(&self) -> (r: Option<u8>)
        ensures
            match r {
                Some(n) => self.constant() == Some(n as nat),
                None => self.constant().is_none(),
            },
    {
        if self.0 == 0 {
            None
        } else {
            Some(self.0 - 1)
        }
    }
}

/// The two operands of a binary operator: each a register or a small
/// constant, and at least one of them a register.
#[derive(Clone, Copy, Debug, PartialEq, Eq, Structural, Hash)]
pub enum BinOpArgs {
    RR(RegisterIndex, RegisterIndex),
    RC(RegisterIndex, ConstantIndex8),
    CR(ConstantIndex8, RegisterIndex),
}

impl BinOpArgs {
    /// The highest register among the operands.
    pub open spec fn highest_register(self) -> int {
        match self {
            BinOpArgs::RR(l, r) => if l.0 >= r.0 {
                l.0 as int
            } else {
                r.0 as int
            },
            BinOpArgs::RC(l, _) => l.0 as int,
            BinOpArgs::CR(_, r) => r.0 as int,
        }
    }

    /// One more than the highest constant index among the operands, or zero
    /// when neither is a constant.
    pub open spec fn constants_needed(self) -> int {
        match self {
            BinOpArgs::RR(_, _) => 0,
            BinOpArgs::RC(_, c) => c.0 + 1,
            BinOpArgs::CR(c, _) => c.0 + 1,
        }
    }

    /// The operands in the opposite order.
    pub open spec fn swapped(self) -> BinOpArgs {
        match self {
            BinOpArgs::RR(l, r) => BinOpArgs::RR(r, l),
            BinOpArgs::RC(l, c) => BinOpArgs::CR(c, l),
            BinOpArgs::CR(c, r) => BinOpArgs::RC(r, c),
        }
    }

    pub fn swap(self) -> (r: BinOpArgs)
        ensures
            r == self.swapped(),
    {
        match self {
            BinOpArgs::RR(l, r) => BinOpArgs::RR(r, l),
            BinOpArgs::RC(l, c) => BinOpArgs::CR(c, l),
            BinOpArgs::CR(c, r) => BinOpArgs::RC(r, c),
        }
    }
}

/// One instruction of the register machine.
///
/// A comparison (`Eq`, `Less`, `LessEqual`) skips the instruction after it
/// when the outcome of the comparison equals `skip_if`. `Test` and `TestSet`
/// skip the instruction after them when the truth of `value` differs from
/// `is_true`; `TestSet` copies `value` to `dest` in that case. `LoadBool`
/// skips the instruction after it when `skip_next` is set. `Jump` moves
/// `offset` instructions forward from the one after it.
#[derive(Clone, Copy, Debug, PartialEq, Eq, Structural, Hash)]
#[allow(inconsistent_fields)]
pub enum OpCode {
    Move { dest: RegisterIndex, source: RegisterIndex },
    LoadConstant { dest: RegisterIndex, constant: ConstantIndex16 },
    LoadBool { dest: RegisterIndex, value: bool, skip_next: bool },
    /// Stores nil in `count` registers from `dest` upwards.
    LoadNil { dest: RegisterIndex, count: u8 },
    NewTable { dest: RegisterIndex },
    GetTableR { dest: RegisterIndex, table: RegisterIndex, key: RegisterIndex },
    GetTableC { dest: RegisterIndex, table: RegisterIndex, key: ConstantIndex8 },
    SetTableRR { table: RegisterIndex, key: RegisterIndex, value: RegisterIndex },
    SetTableRC { table: RegisterIndex, key: RegisterIndex, value: ConstantIndex8 },
    SetTableCR { table: RegisterIndex, key: ConstantIndex8, value: RegisterIndex },
    SetTableCC { table: RegisterIndex, key: ConstantIndex8, value: ConstantIndex8 },
    GetUpTableR { dest: RegisterIndex, table: UpValueIndex, key: RegisterIndex },
    GetUpTableC { dest: RegisterIndex, table: UpValueIndex, key: ConstantIndex8 },
    SetUpTableRR { table: UpValueIndex, key: RegisterIndex, value: RegisterIndex },
    SetUpTableRC { table: UpValueIndex, key: RegisterIndex, value: ConstantIndex8 },
    SetUpTableCR { table: UpValueIndex, key: ConstantIndex8, value: RegisterIndex },
    SetUpTableCC { table: UpValueIndex, key: ConstantIndex8, value: ConstantIndex8 },
    /// Calls the function in `func` with the arguments in the registers above
    /// it; the results are placed from `func` upwards.
    Call { func: RegisterIndex, args: VarCount, returns: VarCount },
    /// Returns the values held from `start` upwards.
    Return { start: RegisterIndex, count: VarCount },
    Jump { offset: i16 },
    Test { value: RegisterIndex, is_true: bool },
    TestSet { dest: RegisterIndex, value: RegisterIndex, is_true: bool },
    Closure { proto: PrototypeIndex, dest: RegisterIndex },
    GetUpValue { source: UpValueIndex, dest: RegisterIndex },
    SetUpValue { source: RegisterIndex, dest: UpValueIndex },
    Eq { skip_if: bool, args: BinOpArgs },
    Less { skip_if: bool, args: BinOpArgs },
    LessEqual { skip_if: bool, args: BinOpArgs },
    Not { dest: RegisterIndex, source: RegisterIndex },
    Minus { dest: RegisterIndex, source: RegisterIndex },
    Add { dest: RegisterIndex, args: BinOpArgs },
    Sub { dest: RegisterIndex, args: BinOpArgs },
    Mul { dest: RegisterIndex, args: BinOpArgs },
}

pub open spec fn max2(a: int, b: int) -> int {
    if a >= b {
        a
    } else {
        b
    }
}

pub open spec fn max3(a: int, b: int, c: int) -> int {
    max2(max2(a, b), c)
}

impl OpCode {
    /// The highest register that the instruction names, or -1 when it names
    /// none. `LoadNil` names each register that it fills.
    pub open spec fn highest_register(self) -> int {
        match self {
            OpCode::Move { dest, source } => max2(dest.0 as int, source.0 as int),
            OpCode::LoadConstant { dest, .. } => dest.0 as int,
            OpCode::LoadBool { dest, .. } => dest.0 as int,
            OpCode::LoadNil { dest, count } => dest.0 + count - 1,
            OpCode::NewTable { dest } => dest.0 as int,
            OpCode::GetTableR { dest, table, key } => max3(
                dest.0 as int,
                table.0 as int,
                key.0 as int,
            ),
            OpCode::GetTableC { dest, table, .. } => max2(dest.0 as int, table.0 as int),
            OpCode::SetTableRR { table, key, value } => max3(
                table.0 as int,
                key.0 as int,
                value.0 as int,
            ),
            OpCode::SetTableRC { table, key, .. } => max2(table.0 as int, key.0 as int),
            OpCode::SetTableCR { table, value, .. } => max2(table.0 as int, value.0 as int),
            OpCode::SetTableCC { table, .. } => table.0 as int,
            OpCode::GetUpTableR { dest, key, .. } => max2(dest.0 as int, key.0 as int),
            OpCode::GetUpTableC { dest, .. } => dest.0 as int,
            OpCode::SetUpTableRR { key, value, .. } => max2(key.0 as int, value.0 as int),
            OpCode::SetUpTableRC { key, .. } => key.0 as int,
            OpCode::SetUpTableCR { value, .. } => value.0 as int,
            OpCode::SetUpTableCC { .. } => -1,
            OpCode::Call { func, .. } => func.0 as int,
            OpCode::Return { start, .. } => start.0 as int,
            OpCode::Jump { .. } => -1,
            OpCode::Test { value, .. } => value.0 as int,
            OpCode::TestSet { dest, value, .. } => max2(dest.0 as int, value.0 as int),
            OpCode::Closure { dest, .. } => dest.0 as int,
            OpCode::GetUpValue { dest, .. } => dest.0 as int,
            OpCode::SetUpValue { source, .. } => source.0 as int,
            OpCode::Eq { args, .. } => args.highest_register(),
            OpCode::Less { args, .. } => args.highest_register(),
            OpCode::LessEqual { args, .. } => args.highest_register(),
            OpCode::Not { dest, source } => max2(dest.0 as int, source.0 as int),
            OpCode::Minus { dest, source } => max2(dest.0 as int, source.0 as int),
            OpCode::Add { dest, args } => max2(dest.0 as int, args.highest_register()),
            OpCode::Sub { dest, args } => max2(dest.0 as int, args.highest_register()),
            OpCode::Mul { dest, args } => max2(dest.0 as int, args.highest_register()),
        }
    }

    /// How many registers a frame must have for the registers that the
    /// instruction names. A `Return` names the register at which the values
    /// returned start, which may be the first one past those in use; every
    /// other instruction reads or writes each register it names.
    pub open spec fn registers_needed(self) -> int {
        match self {
            OpCode::Return { start, .. } => start.0 as int,
            _ => self.highest_register() + 1,
        }
    }

    /// How many constants the constant table must have for the constant
    /// indices that the instruction names.
    pub open spec fn constants_needed(self) -> int {
        match self {
            OpCode::LoadConstant { constant, .. } => constant.0 + 1,
            OpCode::GetTableC { key, .. } => key.0 + 1,
            OpCode::SetTableRC { value, .. } => value.0 + 1,
            OpCode::SetTableCR { key, .. } => key.0 + 1,
            OpCode::SetTableCC { key, value, .. } => max2(key.0 + 1, value.0 + 1),
            OpCode::GetUpTableC { key, .. } => key.0 + 1,
            OpCode::SetUpTableRC { value, .. } => value.0 + 1,
            OpCode::SetUpTableCR { key, .. } => key.0 + 1,
            OpCode::SetUpTableCC { key, value, .. } => max2(key.0 + 1, value.0 + 1),
            OpCode::Eq { args, .. } => args.constants_needed(),
            OpCode::Less { args, .. } => args.constants_needed(),
            OpCode::LessEqual { args, .. } => args.constants_needed(),
            OpCode::Add { args, .. } => args.constants_needed(),
            OpCode::Sub { args, .. } => args.constants_needed(),
            OpCode::Mul { args, .. } => args.constants_needed(),
            _ => 0,
        }
    }

    /// How many upvalues the function must have for the upvalue indices that
    /// the instruction names.
    pub open spec fn upvalues_needed(self) -> int {
        match self {
            OpCode::GetUpTableR { table, .. } => table.0 + 1,
            OpCode::GetUpTableC { table, .. } => table.0 + 1,
            OpCode::SetUpTableRR { table, .. } => table.0 + 1,
            OpCode::SetUpTableRC { table, .. } => table.0 + 1,
            OpCode::SetUpTableCR { table, .. } => table.0 + 1,
            OpCode::SetUpTableCC { table, .. } => table.0 + 1,
            OpCode::GetUpValue { source, .. } => source.0 + 1,
            OpCode::SetUpValue { dest, .. } => dest.0 + 1,
            _ => 0,
        }
    }

    /// How many nested prototypes the function must have for the prototype
    /// index that the instruction names.
    pub open spec fn prototypes_needed(self) -> int {
        match self {
            OpCode::Closure { proto, .. } => proto.0 + 1,
            _ => 0,
        }
    }

    /// Whether every operand of the instruction refers to something that a
    /// function with the given sizes has.
    pub open spec fn fits(
        self,
        stack_size: int,
        constants: int,
        upvalues: int,
        prototypes: int,
    ) -> bool {
        &&& self.registers_needed() <= stack_size
        &&& self.constants_needed() <= constants
        &&& self.upvalues_needed() <= upvalues
        &&& self.prototypes_needed() <= prototypes
    }
}

} // verus!
