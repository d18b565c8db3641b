use vstd::prelude::*;

verus! {

/// The ways in which markup text is rejected. Every failure is fatal: the
/// pipeline stops at the first one and produces no output.
#[derive(Debug, Clone, Copy, PartialEq, Eq, Structural)]
pub enum MarkupError {
    /// A character outside any string literal that the language does not use.
    UnrecognizedCharacter(char),
    /// The input ended inside a string literal.
    UnterminatedString,
    /// An element was expected but the token there is not an identifier.
    UnnamedElement,
    /// A second `=` came before the attribute's value.
    DuplicateEquals,
    /// A `=` or a string literal came with no attribute name before it.
    AttributeNameRequired,
    /// A string literal followed an attribute name with no `=` between them.
    EqualsSignRequired,
    /// An attribute list was closed after a name, or a name and `=`, with no value.
    IncompleteAttribute,
    /// A token stands where the grammar admits none (a stray `)` or `}`).
    InvalidPosition,
    /// The input ended inside an open `(` or `{`.
    UnterminatedBlock,
}

} // verus!
