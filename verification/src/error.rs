//! The ways in which a compilation fails.

use vstd::prelude::*;

verus! {

/// A hard ceiling of the bytecode format that the program exceeds.
#[derive(Clone, Copy, Debug, PartialEq, Eq, Structural, Hash)]
pub enum CompilerLimit {
    Registers,
    UpValues,
    Returns,
    FixedParameters,
    Functions,
    Constants,
    OpCodes,
}

/// A construct of the language that the code generator does not lower.
#[derive(Clone, Copy, Debug, PartialEq, Eq, Structural, Hash)]
pub enum Unsupported {
    IfStatement,
    WhileStatement,
    DoStatement,
    ForStatement,
    RepeatStatement,
    LabelStatement,
    BreakStatement,
    GotoStatement,
    FunctionNameFields,
    MethodDefinition,
    MethodCall,
    VarArgsExpression,
    VarArgsFunction,
    TableFields,
    UnaryOperator,
    BinaryOperator,
    ConcatOperator,
}

/// A consistency check on the register allocator that failed. The compiled
/// code would not be sound, so the compilation is abandoned.
#[derive(Clone, Copy, Debug, PartialEq, Eq, Structural, Hash)]
pub enum RegisterFault {
    /// At the end of a function body the top of the stack is not the number
    /// of its locals.
    Leak,
    /// A register asked for at the top of the stack has a free register
    /// directly below it.
    PushBelowGap,
}

#[derive(Clone, Copy, Debug, PartialEq, Eq, Structural, Hash)]
pub enum CompileError {
    Limit(CompilerLimit),
    Unsupported(Unsupported),
    Register(RegisterFault),
}

impl CompilerLimit {
    /// The text that describes the error.
    pub open spec fn text(self) -> Seq<char> {
        match self {
            CompilerLimit::Registers => "insufficient available registers"@,
            CompilerLimit::UpValues => "too many upvalues"@,
            CompilerLimit::Returns => "too many returns"@,
            CompilerLimit::FixedParameters => "too many fixed parameters"@,
            CompilerLimit::Functions => "too many inner functions"@,
            CompilerLimit::Constants => "too many constants"@,
            CompilerLimit::OpCodes => "too many opcodes"@,
        }
    }

    pub fn message(&self) -> (r: &'static str)
        ensures
            r@ == self.text(),
    {
        match self {
            CompilerLimit::Registers => "insufficient available registers",
            CompilerLimit::UpValues => "too many upvalues",
            CompilerLimit::Returns => "too many returns",
            CompilerLimit::FixedParameters => "too many fixed parameters",
            CompilerLimit::Functions => "too many inner functions",
            CompilerLimit::Constants => "too many constants",
            CompilerLimit::OpCodes => "too many opcodes",
        }
    }
}

impl Unsupported {
    /// The text that describes the error.
    pub open spec fn text(self) -> Seq<char> {
        match self {
            Unsupported::IfStatement => "if statement unsupported"@,
            Unsupported::WhileStatement => "while statement unsupported"@,
            Unsupported::DoStatement => "do statement unsupported"@,
            Unsupported::ForStatement => "for statement unsupported"@,
            Unsupported::RepeatStatement => "repeat statement unsupported"@,
            Unsupported::LabelStatement => "label statement unsupported"@,
            Unsupported::BreakStatement => "break statement unsupported"@,
            Unsupported::GotoStatement => "goto statement unsupported"@,
            Unsupported::FunctionNameFields => "no function name fields support"@,
            Unsupported::MethodDefinition => "no method support"@,
            Unsupported::MethodCall => "method call unsupported"@,
            Unsupported::VarArgsExpression => "varargs expression unsupported"@,
            Unsupported::VarArgsFunction => "no varargs support"@,
            Unsupported::TableFields => "only empty table constructors supported"@,
            Unsupported::UnaryOperator => "unsupported unary operator"@,
            Unsupported::BinaryOperator => "unsupported binary operator"@,
            Unsupported::ConcatOperator => "no support for concat operator"@,
        }
    }

    pub fn message(&self) -> (r: &'static str)
        ensures
            r@ == self.text(),
    {
        match self {
            Unsupported::IfStatement => "if statement unsupported",
            Unsupported::WhileStatement => "while statement unsupported",
            Unsupported::DoStatement => "do statement unsupported",
            Unsupported::ForStatement => "for statement unsupported",
            Unsupported::RepeatStatement => "repeat statement unsupported",
            Unsupported::LabelStatement => "label statement unsupported",
            Unsupported::BreakStatement => "break statement unsupported",
            Unsupported::GotoStatement => "goto statement unsupported",
            Unsupported::FunctionNameFields => "no function name fields support",
            Unsupported::MethodDefinition => "no method support",
            Unsupported::MethodCall => "method call unsupported",
            Unsupported::VarArgsExpression => "varargs expression unsupported",
            Unsupported::VarArgsFunction => "no varargs support",
            Unsupported::TableFields => "only empty table constructors supported",
            Unsupported::UnaryOperator => "unsupported unary operator",
            Unsupported::BinaryOperator => "unsupported binary operator",
            Unsupported::ConcatOperator => "no support for concat operator",
        }
    }
}

impl RegisterFault {
    /// The text that describes the error.
    pub open spec fn text(self) -> Seq<char> {
        match self {
            RegisterFault::Leak => "register leak detected"@,
            RegisterFault::PushBelowGap => "register pushed above a free register"@,
        }
    }

    pub fn message(&self) -> (r: &'static str)
        ensures
            r@ == self.text(),
    {
        match self {
            RegisterFault::Leak => "register leak detected",
            RegisterFault::PushBelowGap => "register pushed above a free register",
        }
    }
}

impl CompileError {
    /// The text that describes the error.
    pub open spec fn text(self) -> Seq<char> {
        match self {
            CompileError::Limit(e) => e.text(),
            CompileError::Unsupported(e) => e.text(),
            CompileError::Register(e) => e.text(),
        }
    }

    pub fn message(&self) -> (r: &'static str)
        ensures
            r@ == self.text(),
    {
        match self {
            CompileError::Limit(e) => e.message(),
            CompileError::Unsupported(e) => e.message(),
            CompileError::Register(e) => e.message(),
        }
    }
}

} // verus!
