//! The render modes a column can ask for.

use vstd::prelude::*;

verus! {

/// How a value is rendered in its column.
#[derive(Clone, Copy, Debug, PartialEq, Eq, Structural)]
pub enum FormatType {
    /// Short, human-oriented form, as in a `{}` token.
    Display,
    /// Structured form, as in a `{:?}` token.
    Debug,
    /// Structured form spread over multiple indented lines, as in a `{:#?}` token.
    PrettyDebug,
}

} // verus!
