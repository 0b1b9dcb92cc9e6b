//! The core column formatting engine: parsing a template into column
//! descriptors, and laying pre-rendered values out as aligned columns.

use vstd::prelude::*;
use vstd::string::*;
use crate::column_format::{ColumnFormat, ColumnFormatModel, formats_view};
use crate::format_part::{FormatPart, FormatPartModel, parts_view};
use crate::format_type::FormatType;
use crate::formattable_item::{FormattableItem, ItemModel, items_view};
use crate::parse::{classify_token, lemma_digit_run_at, mode_of_token, parse_spec, scan_parts,
    sep_after, width_value, build_formats};
use crate::render::{cells_of, max_lines_spec, max_line_len, n_cols, render_spec, row_cell,
    row_text, rows_text, sep_text, widths_of, cell_lines};
use crate::text::{fit_to_width, is_ascii_digit, is_digit_char, lines_view, make_spaces,
    parse_usize, split_lines_exec};

verus! {

/// A formatter for creating columnar output: the parsed column descriptors
/// paired, by position, with the values to lay out.
pub struct ColumnFormatter {
    /// The kind of format for each column.
    formats: Vec<ColumnFormat>,
    /// The items to format.
    items: Vec<FormattableItem>,
}

/// The mathematical shape of a [`ColumnFormatter`].
#[verifier::ext_equal]
pub struct ColumnFormatterModel {
    pub formats: Seq<ColumnFormatModel>,
    pub items: Seq<ItemModel>,
}

impl View for ColumnFormatter {
    type V = ColumnFormatterModel;

    closed spec fn view(&self) -> ColumnFormatterModel {
        ColumnFormatterModel { formats: formats_view(self.formats@), items: items_view(self.items@) }
    }
}

impl ColumnFormatter {
    /// Construct a new `ColumnFormatter` instance: the template is parsed into
    /// column descriptors, and the items are kept beside them.
    pub fn new(format_str: &str, items: Vec<FormattableItem>) -> (r: Self)
        ensures
            r@.formats == parse_spec(format_str@),
            r@.items == items_view(items@),
    {
        Self { formats: Self::parse_format_string(format_str), items }
    }

    /// Parse a format string like `"{} | {:?} | {:#?:80}"` into column formats.
    pub fn parse_format_string(format_str: &str) -> (formats: Vec<ColumnFormat>)
        ensures
            formats_view(formats@) == parse_spec(format_str@),
    {
        let ghost s = format_str@;
        let n = format_str.unicode_len();
        let mut parts: Vec<FormatPart> = Vec::new();

        // First, split the format string into parts: format tokens with their
        // width suffixes, and the separator text between them.
        let mut in_format = false;
        let mut start: usize = 0;
        let mut i: usize = 0;
        while i < n
            invariant
                n == s.len(),
                s == format_str@,
                0 <= start <= i <= n,
                scan_parts(s, 0, 0, false) =~= parts_view(parts@) + scan_parts(
                    s,
                    i as int,
                    start as int,
                    in_format,
                ),
            decreases n - i,
        {
            let ghost prev = parts@;
            let c = format_str.get_char(i);
            if c == '{' && !in_format {
                if i > start {
                    // Literal text ran from `start` up to this opening brace.
                    let sep = format_str.substring_char(start, i);
                    parts.push(FormatPart::Separator(String::from_str(sep)));
                    proof {
                        assert(parts_view(parts@) =~= parts_view(prev) + seq![
                            FormatPartModel::Separator { text: s.subrange(start as int, i as int) },
                        ]);
                    }
                }
                start = i;
                in_format = true;
                i = i + 1;
            } else if c == '}' && in_format {
                in_format = false;
                let mut has_width = false;
                if i + 1 < n {
                    has_width = format_str.get_char(i + 1) == ':';
                }
                if has_width {
                    // Consume the digit run after the colon as an explicit width.
                    let mut j: usize = i + 2;
                    while j < n && is_digit_char(format_str.get_char(j))
                        invariant
                            n == s.len(),
                            s == format_str@,
                            i + 2 <= j <= n,
                            forall|k: int| i + 2 <= k < j ==> is_ascii_digit(s[k]),
                        decreases n - j,
                    {
                        j = j + 1;
                    }
                    proof {
                        lemma_digit_run_at(s, i as int + 2, j as int);
                    }
                    let token = format_str.substring_char(start, i + 1);
                    let width = format_str.substring_char(i + 2, j);
                    parts.push(
                        FormatPart::Format(
                            String::from_str(token),
                            Some(String::from_str(width)),
                        ),
                    );
                    proof {
                        assert(parts_view(parts@) =~= parts_view(prev) + seq![
                            FormatPartModel::Format {
                                token: s.subrange(start as int, i as int + 1),
                                width: Some(s.subrange(i as int + 2, j as int)),
                            },
                        ]);
                        assert(scan_parts(s, i as int, start as int, true) =~= seq![
                            FormatPartModel::Format {
                                token: s.subrange(start as int, i as int + 1),
                                width: Some(s.subrange(i as int + 2, j as int)),
                            },
                        ] + scan_parts(s, j as int, j as int, false));
                    }
                    start = j;
                    i = j;
                } else {
                    let token = format_str.substring_char(start, i + 1);
                    parts.push(FormatPart::Format(String::from_str(token), None));
                    proof {
                        assert(parts_view(parts@) =~= parts_view(prev) + seq![
                            FormatPartModel::Format {
                                token: s.subrange(start as int, i as int + 1),
                                width: None,
                            },
                        ]);
                    }
                    start = i + 1;
                    i = i + 1;
                }
            } else {
                i = i + 1;
            }
        }
        // Any trailing text becomes one last separator piece.
        if start < n {
            let ghost prev = parts@;
            let trailing = format_str.substring_char(start, n);
            parts.push(FormatPart::Separator(String::from_str(trailing)));
            proof {
                assert(parts_view(parts@) =~= parts_view(prev) + seq![
                    FormatPartModel::Separator { text: s.subrange(start as int, n as int) },
                ]);
            }
        }
        proof {
            assert(parts_view(parts@) =~= scan_parts(s, 0, 0, false));
        }

        // Now process the parts to create column formats.
        let ghost pv = parts_view(parts@);
        let mut formats: Vec<ColumnFormat> = Vec::new();
        let mut k: usize = 0;
        while k < parts.len()
            invariant
                pv == parts_view(parts@),
                0 <= k <= parts.len(),
                build_formats(pv, 0) =~= formats_view(formats@) + build_formats(pv, k as int),
            decreases parts.len() - k,
        {
            let ghost prevf = formats@;
            proof {
                assert(pv[k as int] == parts@[k as int]@);
            }
            match &parts[k] {
                FormatPart::Format(tok, w) => {
                    // Determine format type.
                    let format_type = classify_token(tok.as_str());
                    // Parse width if specified.
                    let width: Option<usize> = match w {
                        Some(ws) => parse_usize(ws.as_str()),
                        None => None,
                    };
                    // Check for separator text after this format token.
                    let separator: Option<String> = if k + 1 < parts.len() {
                        proof {
                            assert(pv[k as int + 1] == parts@[k as int + 1]@);
                        }
                        match &parts[k + 1] {
                            FormatPart::Separator(sep) => Some(sep.clone()),
                            FormatPart::Format(_, _) => None,
                        }
                    } else {
                        None
                    };
                    let cf = ColumnFormat { format_type, width, separator };
                    proof {
                        assert(cf@ =~= ColumnFormatModel {
                            format_type: mode_of_token(parts@[k as int]@->Format_token),
                            width: width_value(parts@[k as int]@->Format_width),
                            separator: sep_after(pv, k as int),
                        });
                    }
                    formats.push(cf);
                    proof {
                        assert(formats_view(formats@) =~= formats_view(prevf) + seq![cf@]);
                    }
                },
                FormatPart::Separator(_) => {},
            }
            k = k + 1;
        }
        formats
    }

    /// Format the items into columns and return the aligned block: one text
    /// row per cell line, every cell cut or padded to its column's width, a
    /// column's separator between it and the next rendered column, and a line
    /// feed after each row.
    #[verifier::loop_isolation(false)]
    pub fn format_columns(&self) -> (out: String)
        ensures
            out@ == render_spec(self@.formats, self@.items),
    {
        let ghost gf = formats_view(self.formats@);
        let ghost gi = items_view(self.items@);

        // Pair descriptors and values by position; drop whatever is over.
        let num_items: usize = if self.formats.len() < self.items.len() {
            self.formats.len()
        } else {
            self.items.len()
        };
        proof {
            assert(num_items as int == n_cols(gf, gi));
        }

        let mut out = String::new();
        if num_items == 0 {
            proof {
                assert(cells_of(gf, gi).len() == 0);
                assert(max_lines_spec(cells_of(gf, gi)) == 0);
                assert(rows_text(gf, gi, 0) =~= Seq::<char>::empty());
            }
            return out;
        }

        // Render each item according to its format type, split into lines.
        let mut cells: Vec<Vec<String>> = Vec::new();
        let mut j: usize = 0;
        while j < num_items
            invariant
                0 <= j <= num_items,
                cells@.len() == j,
                forall|t: int|
                    0 <= t < j ==> lines_view(#[trigger] cells@[t]@) == cells_of(gf, gi)[t],
            decreases num_items - j,
        {
            proof {
                assert(gf[j as int] == self.formats@[j as int]@);
                assert(gi[j as int] == self.items@[j as int]@);
            }
            let text: &String = match &self.items[j] {
                FormattableItem::DisplayItem(s) => s,
                FormattableItem::DebugItem(d, p) => {
                    match self.formats[j].format_type {
                        FormatType::PrettyDebug => p,
                        FormatType::Debug => d,
                        FormatType::Display => d,
                    }
                },
            };
            let lines = split_lines_exec(text.as_str());
            proof {
                assert(lines_view(lines@) == cell_lines(gi[j as int], gf[j as int].format_type));
            }
            cells.push(lines);
            j = j + 1;
        }

        // Find the max number of lines over all rendered cells.
        let mut max_lines: usize = 0;
        let mut j: usize = 0;
        while j < num_items
            invariant
                0 <= j <= num_items,
                max_lines as nat == max_lines_spec(cells_of(gf, gi).take(j as int)),
            decreases num_items - j,
        {
            proof {
                assert(cells_of(gf, gi).take(j as int + 1).drop_last() =~= cells_of(gf, gi).take(
                    j as int,
                ));
                assert(cells_of(gf, gi).take(j as int + 1).last() == lines_view(cells@[j as int]@));
            }
            if cells[j].len() > max_lines {
                max_lines = cells[j].len();
            }
            j = j + 1;
        }
        proof {
            assert(cells_of(gf, gi).take(num_items as int) =~= cells_of(gf, gi));
        }

        // Calculate column widths: the specified width, or the longest line.
        let mut widths: Vec<usize> = Vec::new();
        let mut j: usize = 0;
        while j < num_items
            invariant
                0 <= j <= num_items,
                widths@.len() == j,
                forall|t: int| 0 <= t < j ==> #[trigger] widths@[t] as nat == widths_of(gf, gi)[t],
            decreases num_items - j,
        {
            proof {
                assert(gf[j as int] == self.formats@[j as int]@);
            }
            let w: usize = match self.formats[j].width {
                Some(w) => w,
                None => {
                    let lines = &cells[j];
                    let mut m: usize = 0;
                    let mut t: usize = 0;
                    while t < lines.len()
                        invariant
                            0 <= t <= lines@.len(),
                            m as nat == max_line_len(lines_view(lines@).take(t as int)),
                        decreases lines@.len() - t,
                    {
                        proof {
                            assert(lines_view(lines@).take(t as int + 1).drop_last() =~= lines_view(
                                lines@,
                            ).take(t as int));
                            assert(lines_view(lines@).take(t as int + 1).last() == lines@[t as int]@);
                        }
                        let l = lines[t].as_str().unicode_len();
                        if l > m {
                            m = l;
                        }
                        t = t + 1;
                    }
                    proof {
                        assert(lines_view(lines@).take(lines@.len() as int) =~= lines_view(lines@));
                    }
                    m
                },
            };
            widths.push(w);
            j = j + 1;
        }

        // For each row, concatenate the fitted line from each rendered cell.
        proof {
            reveal_strlit("\n");
            assert("\n"@ =~= seq!['\n']);
        }
        let mut r: usize = 0;
        while r < max_lines
            invariant
                0 <= r <= max_lines,
                rows_text(gf, gi, 0) =~= out@ + rows_text(gf, gi, r as int),
            decreases max_lines - r,
        {
            let ghost row_start = out@;
            let mut jj: usize = 0;
            while jj < num_items
                invariant
                    0 <= jj <= num_items,
                    row_start + row_text(gf, gi, r as int, 0) =~= out@ + row_text(
                        gf,
                        gi,
                        r as int,
                        jj as int,
                    ),
                decreases num_items - jj,
            {
                let w = widths[jj];
                let cell = &cells[jj];
                let piece: String = if r < cell.len() {
                    fit_to_width(cell[r].as_str(), w)
                } else {
                    make_spaces(w)
                };
                proof {
                    assert(lines_view(cell@) == cells_of(gf, gi)[jj as int]);
                    if r < cell@.len() {
                        assert(lines_view(cell@)[r as int] == cell@[r as int]@);
                    }
                    assert(piece@ == row_cell(
                        cells_of(gf, gi)[jj as int],
                        r as int,
                        widths_of(gf, gi)[jj as int],
                    ));
                }
                out.append(piece.as_str());
                // Add the separator if this is not the last rendered column.
                if jj + 1 < num_items {
                    proof {
                        assert(gf[jj as int] == self.formats@[jj as int]@);
                    }
                    match &self.formats[jj].separator {
                        Some(sep) => {
                            out.append(sep.as_str());
                            proof {
                                assert(sep@ == sep_text(gf[jj as int]));
                            }
                        },
                        None => {
                            proof {
                                assert(sep_text(gf[jj as int]) =~= Seq::<char>::empty());
                            }
                        },
                    }
                }
                jj = jj + 1;
            }
            out.append("\n");
            r = r + 1;
        }
        proof {
            assert(rows_text(gf, gi, max_lines as int) =~= Seq::<char>::empty());
        }
        out
    }
}

} // verus!
