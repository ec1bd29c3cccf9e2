//! The errors of the assembler and of the processor.
use vstd::prelude::*;

verus! {

/// What went wrong, by kind.
#[derive(Clone, Copy, Debug, PartialEq, Eq, Structural)]
pub enum Error {
    /// A malformed token, such as `#` without a value after it.
    LexError,
    /// A line that does not follow the grammar of any form, or an immediate
    /// too wide for its form.
    SyntaxError,
    /// A branch to a label that is never declared, or a label declared twice.
    LabelError,
    /// A nonzero word whose opcode or branch field is not in the table.
    DecodeError,
}

} // verus!
