//! Failure conditions of the code generator.
//!
//! Every variant marks an internal-invariant violation: the type checker is
//! contracted to hand over a fully resolved tree, so any of these conditions
//! signals a compiler bug. The driver reacts with a hard abort, never with
//! silent recovery.

use vstd::prelude::*;

verus! {

/// Why lowering stopped.
#[derive(Clone, Copy, Debug, PartialEq, Eq, Structural)]
pub enum CodegenError {
    /// The by-value struct containment graph has a cycle.
    CyclicDependency,
    /// A field type names a struct that was never declared.
    UnknownStruct,
    /// A member access names a field the struct layout does not have.
    UnknownField,
    /// A call names a callable with no registered signature.
    UnknownSymbol,
    /// A name reference has no binding in any live scope.
    UnknownVariable,
    /// An instruction or terminator was about to enter a closed block.
    ClosedBlock,
    /// A node kind the lowering has no translation for.
    UnhandledConstruct,
    /// A literal's text does not fit its resolved type.
    InvalidLiteral,
    /// A store or member access needs an address but got a plain value.
    NotAPointer,
    /// An arithmetic operation reached a non-integer operand.
    NotAnInteger,
    /// A member access reached a receiver that is not a struct.
    NotAStruct,
    /// A body finished lowering with an open block that a value-returning
    /// function may fall off.
    MissingReturn,
    /// A break or continue occurred outside any loop.
    LoopControlOutsideLoop,
}

impl CodegenError {
    /// A short diagnostic phrase for the driver to print.
    pub fn describe(&self) -> String {
        match self {
            CodegenError::CyclicDependency => String::from_str(
                "cyclic by-value struct containment",
            ),
            CodegenError::UnknownStruct => String::from_str("unknown struct"),
            CodegenError::UnknownField => String::from_str("unknown field"),
            CodegenError::UnknownSymbol => String::from_str("unknown callable"),
            CodegenError::UnknownVariable => String::from_str("unknown variable"),
            CodegenError::ClosedBlock => String::from_str("write into a closed basic block"),
            CodegenError::UnhandledConstruct => String::from_str("unhandled node kind"),
            CodegenError::InvalidLiteral => String::from_str("malformed literal"),
            CodegenError::NotAPointer => String::from_str("expected a storage address"),
            CodegenError::NotAnInteger => String::from_str("expected an integer operand"),
            CodegenError::NotAStruct => String::from_str("expected a struct receiver"),
            CodegenError::MissingReturn => String::from_str("open block at end of body"),
            CodegenError::LoopControlOutsideLoop => String::from_str(
                "loop control outside a loop",
            ),
        }
    }
}

} // verus!
