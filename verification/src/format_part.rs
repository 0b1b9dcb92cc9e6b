//! The pieces a template splits into while it is scanned: format tokens
//! (with an optional width suffix) and the literal text between them.

use vstd::prelude::*;

verus! {

/// One piece of a scanned template.
pub enum FormatPart {
    /// A format token such as `{}` or `{:?}`, braces included, together with
    /// the digit run of a `:N` width suffix when one directly follows it.
    Format(String, Option<String>),
    /// Literal text standing between format tokens.
    Separator(String),
}

/// The mathematical shape of a [`FormatPart`]: the same two cases over
/// character sequences.
#[verifier::ext_equal]
pub enum FormatPartModel {
    Format { token: Seq<char>, width: Option<Seq<char>> },
    Separator { text: Seq<char> },
}

impl View for FormatPart {
    type V = FormatPartModel;

    open spec fn view(&self) -> FormatPartModel {
        match self {
            FormatPart::Format(token, width) => FormatPartModel::Format {
                token: token@,
                width: match width {
                    Some(w) => Some(w@),
                    None => None,
                },
            },
            FormatPart::Separator(text) => FormatPartModel::Separator { text: text@ },
        }
    }
}

/// The views of a sequence of owned template pieces.
pub open spec fn parts_view(v: Seq<FormatPart>) -> Seq<FormatPartModel> {
    v.map_values(|p: FormatPart| p@)
}

} // verus!
