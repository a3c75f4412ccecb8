use vstd::prelude::*;

verus! {

/// The ways a module parse can fail. No partial module is ever returned:
/// any of these aborts the whole parse.
#[derive(Debug, PartialEq, Eq, Clone, Copy, Structural)]
pub enum ParseError {
    /// A grammar alternative does not match at the current position.
    SyntaxMismatch,
    /// A symbolic name was used where no entry carries that name.
    UnresolvedReference,
    /// The same named local was declared twice in one function scope.
    DuplicateDefinition,
    /// An integer literal exceeds the representable range of its width.
    NumericOverflow,
}

} // verus!
