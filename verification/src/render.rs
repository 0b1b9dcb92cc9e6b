//! The meaning of a rendered block.
//!
//! The first `n = min(columns, values)` descriptor/value pairs are rendered:
//! each value's text is chosen by the column's mode (falling back to whatever
//! form the value has), split into lines, and laid out row-major. Every cell
//! is truncated or right-padded to its column's width — the explicit width
//! when one was given, else the longest line of that column's own cell — and a
//! column's separator is emitted only when another rendered column follows.

use vstd::prelude::*;
use crate::column_format::ColumnFormatModel;
use crate::format_type::FormatType;
use crate::formattable_item::ItemModel;
use crate::text::{fit_line, spaces, split_lines};

verus! {

/// The text a value produces under a mode. A display-only value always yields
/// its short form; a debug-capable value yields its pretty form for pretty
/// debug and its compact form for every other mode.
pub open spec fn rendered_text(item: ItemModel, mode: FormatType) -> Seq<char> {
    match item {
        ItemModel::Display { text } => text,
        ItemModel::Debug { debug, pretty } => match mode {
            FormatType::PrettyDebug => pretty,
            FormatType::Debug => debug,
            FormatType::Display => debug,
        },
    }
}

/// The lines of the cell a value produces under a mode.
pub open spec fn cell_lines(item: ItemModel, mode: FormatType) -> Seq<Seq<char>> {
    split_lines(rendered_text(item, mode))
}

/// How many columns are rendered: descriptors and values are paired by
/// position, and whichever list is longer is silently cut to the shorter.
pub open spec fn n_cols(formats: Seq<ColumnFormatModel>, items: Seq<ItemModel>) -> int {
    if formats.len() <= items.len() {
        formats.len() as int
    } else {
        items.len() as int
    }
}

/// The rendered cells, one per rendered column.
pub open spec fn cells_of(formats: Seq<ColumnFormatModel>, items: Seq<ItemModel>) -> Seq<
    Seq<Seq<char>>,
> {
    Seq::new(n_cols(formats, items) as nat, |j: int| cell_lines(items[j], formats[j].format_type))
}

/// The largest number of lines among the cells; zero when there are none.
pub open spec fn max_lines_spec(cells: Seq<Seq<Seq<char>>>) -> nat
    decreases cells.len(),
{
    if cells.len() == 0 {
        0
    } else {
        let rest = max_lines_spec(cells.drop_last());
        if cells.last().len() > rest {
            cells.last().len()
        } else {
            rest
        }
    }
}

/// The length of the longest line; zero when there are no lines.
pub open spec fn max_line_len(lines: Seq<Seq<char>>) -> nat
    decreases lines.len(),
{
    if lines.len() == 0 {
        0
    } else {
        let rest = max_line_len(lines.drop_last());
        if lines.last().len() > rest {
            lines.last().len()
        } else {
            rest
        }
    }
}

/// A column's final width: the explicit width when one was given, else the
/// length of the longest line of the column's own cell.
pub open spec fn col_width(fmt: ColumnFormatModel, lines: Seq<Seq<char>>) -> nat {
    match fmt.width {
        Some(w) => w as nat,
        None => max_line_len(lines),
    }
}

/// The widths of the rendered columns.
pub open spec fn widths_of(formats: Seq<ColumnFormatModel>, items: Seq<ItemModel>) -> Seq<nat> {
    let cells = cells_of(formats, items);
    Seq::new(cells.len(), |j: int| col_width(formats[j], cells[j]))
}

/// A column's separator as plain text; nothing when it has none.
pub open spec fn sep_text(fmt: ColumnFormatModel) -> Seq<char> {
    match fmt.separator {
        Some(s) => s,
        None => Seq::empty(),
    }
}

/// What a cell contributes to one row: its line at that row fitted to the
/// column width, or all spaces when the cell has no line there.
pub open spec fn row_cell(lines: Seq<Seq<char>>, r: int, w: nat) -> Seq<char> {
    if 0 <= r < lines.len() {
        fit_line(lines[r], w)
    } else {
        spaces(w)
    }
}

/// The text of row `r` contributed by columns `j` and beyond: each cell fitted
/// to its width, with the column's separator after every column but the last.
pub open spec fn row_text(
    formats: Seq<ColumnFormatModel>,
    items: Seq<ItemModel>,
    r: int,
    j: int,
) -> Seq<char>
    decreases n_cols(formats, items) - j,
{
    let n = n_cols(formats, items);
    if j < 0 || j >= n {
        Seq::empty()
    } else {
        let piece = row_cell(cells_of(formats, items)[j], r, widths_of(formats, items)[j]);
        let sep = if j + 1 < n {
            sep_text(formats[j])
        } else {
            Seq::empty()
        };
        piece + sep + row_text(formats, items, r, j + 1)
    }
}

/// The text of rows `r` and beyond, each row closed by a line feed.
pub open spec fn rows_text(formats: Seq<ColumnFormatModel>, items: Seq<ItemModel>, r: int) -> Seq<
    char,
>
    decreases max_lines_spec(cells_of(formats, items)) - r,
{
    if r < 0 || r >= max_lines_spec(cells_of(formats, items)) {
        Seq::empty()
    } else {
        row_text(formats, items, r, 0) + seq!['\n'] + rows_text(formats, items, r + 1)
    }
}

/// The whole rendered block.
pub open spec fn render_spec(formats: Seq<ColumnFormatModel>, items: Seq<ItemModel>) -> Seq<char> {
    rows_text(formats, items, 0)
}

} // verus!
