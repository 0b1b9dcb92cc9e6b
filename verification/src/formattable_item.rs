//! A value ready to be laid out in a column, carried as the text of its
//! available renderings.

use vstd::prelude::*;

verus! {

/// A value to be placed in a column, reduced to the text forms it can take.
/// A display-capable value carries its short form; a debug-capable value
/// carries its structured form and the expanded, indented variant of it.
/// Either text may span several lines.
pub enum FormattableItem {
    /// The short, human-oriented rendering of a value.
    DisplayItem(String),
    /// The structured rendering of a value: first compact, then pretty.
    DebugItem(String, String),
}

/// The mathematical shape of a [`FormattableItem`].
#[verifier::ext_equal]
pub enum ItemModel {
    Display { text: Seq<char> },
    Debug { debug: Seq<char>, pretty: Seq<char> },
}

impl View for FormattableItem {
    type V = ItemModel;

    open spec fn view(&self) -> ItemModel {
        match self {
            FormattableItem::DisplayItem(text) => ItemModel::Display { text: text@ },
            FormattableItem::DebugItem(debug, pretty) => ItemModel::Debug {
                debug: debug@,
                pretty: pretty@,
            },
        }
    }
}

/// The views of a sequence of items.
pub open spec fn items_view(v: Seq<FormattableItem>) -> Seq<ItemModel> {
    v.map_values(|it: FormattableItem| it@)
}

} // verus!
