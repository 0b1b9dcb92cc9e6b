//! The description of a single output column.

use vstd::prelude::*;
use crate::format_type::FormatType;

verus! {

/// Describes the format for a single column: its render mode, an optional
/// fixed width (`None` asks for auto-sizing from the column's own content),
/// and the literal text to print after the column when another one follows.
pub struct ColumnFormat {
    /// The type of formatting to use.
    pub format_type: FormatType,
    /// Optional width for the column, in Unicode scalar values.
    pub width: Option<usize>,
    /// Optional separator to print after this column.
    pub separator: Option<String>,
}

/// The mathematical shape of a [`ColumnFormat`], with the separator as a
/// character sequence.
#[verifier::ext_equal]
pub struct ColumnFormatModel {
    pub format_type: FormatType,
    pub width: Option<usize>,
    pub separator: Option<Seq<char>>,
}

impl View for ColumnFormat {
    type V = ColumnFormatModel;

    open spec fn view(&self) -> ColumnFormatModel {
        ColumnFormatModel {
            format_type: self.format_type,
            width: self.width,
            separator: match self.separator {
                Some(s) => Some(s@),
                None => None,
            },
        }
    }
}

/// The views of a sequence of column formats.
pub open spec fn formats_view(v: Seq<ColumnFormat>) -> Seq<ColumnFormatModel> {
    v.map_values(|c: ColumnFormat| c@)
}

} // verus!
