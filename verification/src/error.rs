use vstd::prelude::*;

verus! {

/// Ghost model of a compilation failure; identifier payloads are character
/// sequences.
#[verifier::ext_equal]
pub enum ErrV {
    /// A call names a function that was never declared.
    UndeclaredFunction(Seq<char>),
    /// A function already on the active inlining chain is invoked again.
    RecursiveCall(Seq<char>),
    /// A named variable has no entry in the active substitution mapping.
    UnboundVariable(Seq<char>),
    /// A goto occurs while the tape position is not statically known.
    UnresolvedJump,
    /// A resolved jump's distance does not fit in a machine word.
    JumpOutOfRange,
}

/// A failure surfaced by one of the compiler passes.
#[derive(Debug)]
pub enum CompileError {
    UndeclaredFunction(String),
    RecursiveCall(String),
    UnboundVariable(String),
    UnresolvedJump,
    JumpOutOfRange,
}

impl View for CompileError {
    type V = ErrV;

    open spec fn view(&self) -> ErrV {
        match self {
            CompileError::UndeclaredFunction(n) => ErrV::UndeclaredFunction(n@),
            CompileError::RecursiveCall(n) => ErrV::RecursiveCall(n@),
            CompileError::UnboundVariable(n) => ErrV::UnboundVariable(n@),
            CompileError::UnresolvedJump => ErrV::UnresolvedJump,
            CompileError::JumpOutOfRange => ErrV::JumpOutOfRange,
        }
    }
}

} // verus!
