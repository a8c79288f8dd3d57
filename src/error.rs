//! Errors of compilation: each names what went wrong and where.

use vstd::prelude::*;

verus! {

/// What went wrong.
#[derive(Debug, Clone, Copy, PartialEq, Eq, Structural)]
pub enum ErrorKind {
    /// A string literal without its closing quote.
    UnterminatedString,
    /// A token that the grammar does not allow at this place.
    UnexpectedToken,
    /// The input ended where the grammar needs more.
    UnexpectedEnd,
    /// A component declares the same prop twice.
    DuplicateProp,
    /// A call leaves out a prop that the component declares.
    MissingProp,
    /// A call binds a prop that the component does not declare, or binds one twice.
    UnknownProp,
    /// A call names no known component or layout.
    UnknownComponent,
    /// A definition reuses the name of an earlier one.
    DuplicateDefinition,
    /// `escape` or `noescape` on a `script` or `style` tag.
    EscapeOnRawText,
    /// `nominify` on a tag other than `script` or `style`.
    NoMinifyOutsideRawText,
    /// `block` outside a layout.
    BlockOutsideLayout,
    /// `extend` nested, or outside a template that extends a layout.
    MisplacedExtend,
    /// Content other than `extend` blocks at the top of a template that extends a layout.
    ContentInExtendingTemplate,
    /// An `extend` block names a slot that the layout does not have.
    UnknownSlot,
    /// Calls nested deeper than the compiler follows.
    NestingTooDeep,
    /// `i "path"` names a file that the application has not added.
    UnknownInclude,
}

/// A compile error: its kind, the position, in characters, of the token at
/// fault within the source it came from, and for an error about a prop or a
/// slot, its name.
#[derive(Debug, Clone)]
pub struct Error {
    pub kind: ErrorKind,
    pub at: usize,
    pub name: Option<String>,
}

} // verus!
