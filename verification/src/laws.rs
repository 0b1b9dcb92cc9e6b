//! General laws of the parser and the renderer, stated over the same spec
//! functions that the public contracts use.

use vstd::prelude::*;
use crate::column_format::ColumnFormatModel;
use crate::format_type::FormatType;
use crate::formattable_item::ItemModel;
use crate::format_part::FormatPartModel;
use crate::parse::{build_formats, debug_marker, lemma_digit_run_at, mode_of_token, parse_spec,
    pretty_marker, scan_parts, sep_after, width_value};
use crate::render::{cell_lines, cells_of, max_line_len, max_lines_spec, n_cols,
    render_spec, row_cell, row_text, rows_text, sep_text, widths_of};
use crate::text::{all_digits, contains_seq, count_char, fit_line, first_nl, is_ascii_digit,
    lemma_count_char_add, lemma_count_char_zero, lemma_first_nl_prefix, spaces, split_lines};

verus! {

/// The description of one format token inside a well-formed template: the
/// text between its braces, the digit run of its width suffix when it has
/// one, and the literal text standing after it.
#[verifier::ext_equal]
pub struct TokenSpec {
    pub inner: Seq<char>,
    pub width_digits: Option<Seq<char>>,
    pub sep: Seq<char>,
}

/// Literal text that scans as plain separator text: it opens no token, and it
/// does not begin in a way that would be mistaken for a width suffix.
pub open spec fn sep_ok(s: Seq<char>) -> bool {
    &&& forall|k: int| 0 <= k < s.len() ==> s[k] != '{'
    &&& s.len() > 0 ==> s[0] != ':' && !is_ascii_digit(s[0])
}

/// A well-formed token description: the inner text closes the token nowhere
/// early, the width suffix is digits only, and the following text is plain.
pub open spec fn token_ok(t: TokenSpec) -> bool {
    &&& forall|k: int| 0 <= k < t.inner.len() ==> t.inner[k] != '}'
    &&& (t.width_digits matches Some(d) ==> all_digits(d))
    &&& sep_ok(t.sep)
}

/// The text a width suffix adds after a token.
pub open spec fn width_suffix_text(w: Option<Seq<char>>) -> Seq<char> {
    match w {
        Some(d) => seq![':'] + d,
        None => Seq::empty(),
    }
}

/// The text one token description contributes to a template.
pub open spec fn token_text(t: TokenSpec) -> Seq<char> {
    seq!['{'] + t.inner + seq!['}'] + width_suffix_text(t.width_digits) + t.sep
}

/// The text of a whole run of tokens.
pub open spec fn tokens_text(toks: Seq<TokenSpec>) -> Seq<char>
    decreases toks.len(),
{
    if toks.len() == 0 {
        Seq::empty()
    } else {
        token_text(toks[0]) + tokens_text(toks.drop_first())
    }
}

/// A template assembled from leading literal text and a run of tokens.
pub open spec fn template_text(lead: Seq<char>, toks: Seq<TokenSpec>) -> Seq<char> {
    lead + tokens_text(toks)
}

/// The descriptor one token must parse to: its mode judged from the braced
/// text, its width read from the suffix digits, and the text after it as its
/// separator — `None` when that text is empty.
pub open spec fn expected_format(t: TokenSpec) -> ColumnFormatModel {
    ColumnFormatModel {
        format_type: mode_of_token(seq!['{'] + t.inner + seq!['}']),
        width: width_value(t.width_digits),
        separator: if t.sep.len() == 0 {
            None
        } else {
            Some(t.sep)
        },
    }
}

/// The descriptors a whole run of tokens must parse to, in order.
pub open spec fn expected_formats(toks: Seq<TokenSpec>) -> Seq<ColumnFormatModel> {
    toks.map_values(|t: TokenSpec| expected_format(t))
}

/// The scanned pieces a run of tokens must produce: one format piece per
/// token, with a separator piece after it when its following text is not empty.
pub open spec fn expected_parts(toks: Seq<TokenSpec>) -> Seq<FormatPartModel>
    decreases toks.len(),
{
    if toks.len() == 0 {
        Seq::empty()
    } else {
        let t = toks[0];
        seq![
            FormatPartModel::Format {
                token: seq!['{'] + t.inner + seq!['}'],
                width: t.width_digits,
            },
        ] + (if t.sep.len() > 0 {
            seq![FormatPartModel::Separator { text: t.sep }]
        } else {
            Seq::empty()
        }) + expected_parts(toks.drop_first())
    }
}

/// Characters that trigger nothing in the scanner's current state move it
/// forward without changing what it produces.
proof fn lemma_scan_skip(s: Seq<char>, i: int, start: int, in_format: bool, m: int)
    requires
        0 <= i <= m <= s.len(),
        forall|k: int|
            i <= k < m ==> !((s[k] == '{' && !in_format) || (#[trigger] s[k] == '}' && in_format)),
    ensures
        scan_parts(s, i, start, in_format) == scan_parts(s, m, start, in_format),
    decreases m - i,
{
    if i < m {
        lemma_scan_skip(s, i + 1, start, in_format, m);
    }
}

/// A token containing `:#?` anywhere classifies as pretty debug; one
/// containing `:?` but not `:#?` as debug; any other token as display.
pub proof fn lemma_mode_classification(token: Seq<char>)
    ensures
        contains_seq(token, pretty_marker()) ==> mode_of_token(token) == FormatType::PrettyDebug,
        !contains_seq(token, pretty_marker()) && contains_seq(token, debug_marker())
            ==> mode_of_token(token) == FormatType::Debug,
        !contains_seq(token, pretty_marker()) && !contains_seq(token, debug_marker())
            ==> mode_of_token(token) == FormatType::Display,
{
}

/// A column's width is its explicit width when one was given, whatever the
/// content; otherwise it is the longest line of that column's own cell.
pub proof fn lemma_column_width(
    formats: Seq<ColumnFormatModel>,
    items: Seq<ItemModel>,
    j: int,
)
    requires
        0 <= j < n_cols(formats, items),
    ensures
        formats[j].width matches Some(w) ==> widths_of(formats, items)[j] == w as nat,
        formats[j].width is None ==> widths_of(formats, items)[j] == max_line_len(
            cell_lines(items[j], formats[j].format_type),
        ),
{
}

/// What a cell contributes to a row is exactly its column's width: longer
/// lines are truncated, shorter ones padded, and a missing line becomes a
/// blank of the full width.
pub proof fn lemma_cell_width_exact(lines: Seq<Seq<char>>, r: int, w: nat)
    ensures
        row_cell(lines, r, w).len() == w,
        !(0 <= r < lines.len()) ==> row_cell(lines, r, w) == spaces(w),
{
}

/// No line feed survives line splitting: every line of a split text is free
/// of `'\n'`.
pub proof fn lemma_split_lines_no_nl(s: Seq<char>)
    ensures
        forall|r: int| 0 <= r < split_lines(s).len() ==> nl_free(#[trigger] split_lines(s)[r]),
    decreases s.len(),
{
    lemma_first_nl_prefix(s);
    if s.len() > 0 {
        let i = first_nl(s);
        if i == s.len() {
            assert(nl_free(s));
        } else {
            let rest = s.subrange(i + 1, s.len() as int);
            lemma_split_lines_no_nl(rest);
            assert(nl_free(split_lines(s)[0]));
            assert forall|r: int| 0 <= r < split_lines(s).len() implies nl_free(
                #[trigger] split_lines(s)[r],
            ) by {
                if r > 0 {
                    assert(split_lines(s)[r] == split_lines(rest)[r - 1]);
                }
            }
        }
    }
}

/// Free of line feeds.
pub open spec fn nl_free(s: Seq<char>) -> bool {
    forall|t: int| 0 <= t < s.len() ==> s[t] != '\n'
}

/// The separators that the renderer can emit — those of every rendered column
/// but the last — are free of line feeds.
pub open spec fn emitted_seps_nl_free(
    formats: Seq<ColumnFormatModel>,
    items: Seq<ItemModel>,
) -> bool {
    forall|j: int| 0 <= j < n_cols(formats, items) - 1 ==> nl_free(sep_text(#[trigger] formats[j]))
}

proof fn lemma_fit_line_nl_free(line: Seq<char>, w: nat)
    requires
        nl_free(line),
    ensures
        nl_free(fit_line(line, w)),
{
    if line.len() >= w {
        assert forall|t: int| 0 <= t < w implies fit_line(line, w)[t] != '\n' by {
            assert(fit_line(line, w)[t] == line[t]);
        }
    } else {
        assert forall|t: int| 0 <= t < fit_line(line, w).len() implies fit_line(line, w)[t]
            != '\n' by {
            if t < line.len() {
                assert(fit_line(line, w)[t] == line[t]);
            } else {
                assert(fit_line(line, w)[t] == ' ');
            }
        }
    }
}

proof fn lemma_row_text_nl_count(
    formats: Seq<ColumnFormatModel>,
    items: Seq<ItemModel>,
    r: int,
    j: int,
)
    requires
        emitted_seps_nl_free(formats, items),
    ensures
        count_char(row_text(formats, items, r, j), '\n') == 0,
    decreases n_cols(formats, items) - j,
{
    let n = n_cols(formats, items);
    if j < 0 || j >= n {
        assert(count_char(row_text(formats, items, r, j), '\n') == 0);
    } else {
        lemma_row_text_nl_count(formats, items, r, j + 1);
        let lines = cells_of(formats, items)[j];
        let w = widths_of(formats, items)[j];
        let piece = row_cell(lines, r, w);
        lemma_split_lines_no_nl(crate::render::rendered_text(items[j], formats[j].format_type));
        if 0 <= r < lines.len() {
            lemma_fit_line_nl_free(lines[r], w);
        }
        lemma_count_char_zero(piece, '\n');
        let sep = if j + 1 < n {
            sep_text(formats[j])
        } else {
            Seq::<char>::empty()
        };
        lemma_count_char_zero(sep, '\n');
        lemma_count_char_add(piece, sep, '\n');
        lemma_count_char_add(piece + sep, row_text(formats, items, r, j + 1), '\n');
        assert(row_text(formats, items, r, j) == (piece + sep) + row_text(formats, items, r, j + 1));
    }
}

proof fn lemma_rows_text_nl_count(formats: Seq<ColumnFormatModel>, items: Seq<ItemModel>, r: int)
    requires
        emitted_seps_nl_free(formats, items),
        0 <= r <= max_lines_spec(cells_of(formats, items)),
    ensures
        count_char(rows_text(formats, items, r), '\n') == max_lines_spec(cells_of(formats, items))
            - r,
    decreases max_lines_spec(cells_of(formats, items)) - r,
{
    let m = max_lines_spec(cells_of(formats, items));
    if r < m {
        lemma_rows_text_nl_count(formats, items, r + 1);
        lemma_row_text_nl_count(formats, items, r, 0);
        let row = row_text(formats, items, r, 0);
        let nl = seq!['\n'];
        assert(count_char(nl, '\n') == 1) by {
            assert(nl.drop_last() =~= Seq::<char>::empty());
            assert(count_char(Seq::<char>::empty(), '\n') == 0);
            assert(nl.last() == '\n');
        }
        lemma_count_char_add(row, nl, '\n');
        lemma_count_char_add(row + nl, rows_text(formats, items, r + 1), '\n');
        assert(rows_text(formats, items, r) == (row + nl) + rows_text(formats, items, r + 1));
    }
}

/// The output has exactly one row per line of the tallest rendered cell:
/// its line-feed count equals the greatest line count among the cells, as
/// long as no emitted separator smuggles in a line feed of its own.
pub proof fn lemma_row_count(formats: Seq<ColumnFormatModel>, items: Seq<ItemModel>)
    requires
        emitted_seps_nl_free(formats, items),
    ensures
        count_char(render_spec(formats, items), '\n') == max_lines_spec(cells_of(formats, items)),
{
    lemma_rows_text_nl_count(formats, items, 0);
}

proof fn lemma_token_text_first(t: TokenSpec)
    ensures
        token_text(t).len() >= 2,
        token_text(t)[0] == '{',
{
    assert((seq!['{'] + t.inner)[0] == '{');
    assert((seq!['{'] + t.inner + seq!['}'])[0] == '{');
    assert((seq!['{'] + t.inner + seq!['}'] + width_suffix_text(t.width_digits))[0] == '{');
}

/// Scanning the text of a token run from a clean state produces the expected
/// pieces: one format piece per token carrying its width digits, and the text
/// after a token as a separator piece whenever that text is not empty.
#[verifier::rlimit(60)]
proof fn lemma_scan_tokens(s: Seq<char>, a: int, toks: Seq<TokenSpec>)
    requires
        0 <= a <= s.len(),
        s.subrange(a, s.len() as int) == tokens_text(toks),
        forall|j: int| 0 <= j < toks.len() ==> token_ok(#[trigger] toks[j]),
    ensures
        scan_parts(s, a, a, false) == expected_parts(toks),
    decreases toks.len(),
{
    let suf = s.subrange(a, s.len() as int);
    if toks.len() == 0 {
        assert(s.len() == a);
    } else {
        let t = toks[0];
        let rest = toks.drop_first();
        assert(token_ok(t));
        assert forall|j: int| 0 <= j < rest.len() implies token_ok(#[trigger] rest[j]) by {
            assert(rest[j] == toks[j + 1]);
        }
        let tok = seq!['{'] + t.inner + seq!['}'];
        let wseq = width_suffix_text(t.width_digits);
        let tt = token_text(t);
        assert(tokens_text(toks) == tt + tokens_text(rest));
        let ilen = t.inner.len() as int;
        let wlen = wseq.len() as int;
        let slen = t.sep.len() as int;
        let b = a + 1 + ilen;
        let p = b + 1 + wlen;
        let q = p + slen;
        assert(tt == tok + wseq + t.sep);
        assert(tt.len() == 2 + ilen + wlen + slen);
        assert(s.len() == q + tokens_text(rest).len());

        // The characters of this token's own region, read off the construction.
        assert forall|k: int| a <= k < q implies s[k] == tt[k - a] by {
            assert(s[k] == suf[k - a]);
            assert(suf[k - a] == (tt + tokens_text(rest))[k - a]);
        }
        assert(s[a] == '{') by {
            lemma_token_text_first(t);
        }
        assert forall|k: int| a < k < b implies s[k] != '}' by {
            assert(tt[k - a] == tok[k - a]);
            assert(tok[k - a] == t.inner[k - a - 1]);
        }
        assert(s[b] == '}') by {
            assert(tt[b - a] == tok[b - a]);
            assert(tok[b - a] == '}');
        }
        assert forall|k: int| p <= k < q implies s[k] == t.sep[k - p] by {
            assert(tt[k - a] == t.sep[k - a - (2 + ilen + wlen)]);
        }
        assert(s.subrange(q, s.len() as int) =~= tokens_text(rest)) by {
            assert forall|k: int| 0 <= k < s.len() - q implies s.subrange(q, s.len() as int)[k]
                == tokens_text(rest)[k] by {
                assert(s.subrange(q, s.len() as int)[k] == suf[k + (q - a)]);
                assert(suf[k + (q - a)] == (tt + tokens_text(rest))[k + (q - a)]);
            }
        }
        if rest.len() > 0 {
            assert(tokens_text(rest) == token_text(rest[0]) + tokens_text(rest.drop_first()));
            lemma_token_text_first(rest[0]);
            assert(tokens_text(rest)[0] == '{');
            assert(q < s.len());
            assert(s[q] == '{') by {
                assert(s[q] == s.subrange(q, s.len() as int)[0]);
            }
        } else {
            assert(q == s.len());
        }

        // Open the token.
        assert(scan_parts(s, a, a, false) == scan_parts(s, a + 1, a, true));
        // Walk over the inner text: nothing in it closes the token.
        lemma_scan_skip(s, a + 1, a, true, b);
        // Close the token, taking the width suffix when there is one.
        assert(s.subrange(a, b + 1) =~= tok) by {
            assert forall|k: int| 0 <= k < b + 1 - a implies s.subrange(a, b + 1)[k] == tok[k] by {
                assert(s.subrange(a, b + 1)[k] == s[a + k]);
                assert(tt[k] == tok[k]);
            }
        }
        match t.width_digits {
            Some(d) => {
                assert(all_digits(d));
                assert(wseq == seq![':'] + d);
                assert(b + 1 < s.len());
                assert(s[b + 1] == ':') by {
                    assert(tt[b + 1 - a] == wseq[0]);
                }
                assert forall|k: int| b + 2 <= k < p implies is_ascii_digit(s[k]) && s[k] == d[k - (
                b + 2)] by {
                    assert(tt[k - a] == wseq[k - a - (2 + ilen)]);
                    assert(wseq[k - a - (2 + ilen)] == d[k - a - (3 + ilen)]);
                }
                if p < s.len() {
                    if slen > 0 {
                        assert(s[p] == t.sep[0]);
                        assert(!is_ascii_digit(s[p]));
                    } else {
                        assert(p == q);
                        assert(s[p] == '{');
                        assert(!is_ascii_digit('{'));
                    }
                }
                lemma_digit_run_at(s, b + 2, p);
                assert(s.subrange(b + 2, p) =~= d) by {
                    assert forall|k: int| 0 <= k < p - (b + 2) implies s.subrange(b + 2, p)[k]
                        == d[k] by {
                        assert(s.subrange(b + 2, p)[k] == s[b + 2 + k]);
                    }
                }
                assert(scan_parts(s, b, a, true) == seq![
                    FormatPartModel::Format { token: s.subrange(a, b + 1), width: Some(s.subrange(b + 2, p)) },
                ] + scan_parts(s, p, p, false));
            },
            None => {
                assert(wlen == 0 && p == b + 1);
                if b + 1 < s.len() {
                    if slen > 0 {
                        assert(s[b + 1] == t.sep[0]);
                        assert(s[b + 1] != ':');
                    } else {
                        assert(b + 1 == q);
                        assert(s[b + 1] == '{');
                    }
                }
                assert(scan_parts(s, b, a, true) == seq![
                    FormatPartModel::Format { token: s.subrange(a, b + 1), width: None },
                ] + scan_parts(s, b + 1, b + 1, false));
            },
        }
        // Walk over the separator text: nothing in it opens a token.
        assert forall|k: int| p <= k < q implies s[k] != '{' by {
            assert(s[k] == t.sep[k - p]);
        }
        lemma_scan_skip(s, p, p, false, q);
        // What follows is the next token run, scanned from a clean state.
        lemma_scan_tokens(s, q, rest);
        if slen > 0 {
            assert(s.subrange(p, q) =~= t.sep) by {
                assert forall|k: int| 0 <= k < q - p implies s.subrange(p, q)[k] == t.sep[k] by {
                    assert(s.subrange(p, q)[k] == s[p + k]);
                }
            }
            if rest.len() > 0 {
                assert(scan_parts(s, q, p, false) == seq![
                    FormatPartModel::Separator { text: s.subrange(p, q) },
                ] + scan_parts(s, q + 1, q, true));
                assert(scan_parts(s, q, q, false) == scan_parts(s, q + 1, q, true));
            } else {
                assert(scan_parts(s, q, p, false) == seq![
                    FormatPartModel::Separator { text: s.subrange(p, s.len() as int) },
                ]);
                assert(s.subrange(p, s.len() as int) == s.subrange(p, q));
            }
            assert(scan_parts(s, p, p, false) =~= seq![
                FormatPartModel::Separator { text: t.sep },
            ] + expected_parts(rest));
        } else {
            assert(p == q);
            assert(scan_parts(s, p, p, false) == expected_parts(rest));
        }
        assert(scan_parts(s, a, a, false) =~= expected_parts(toks));
    }
}

/// Building descriptors from the expected pieces of a token run yields the
/// expected descriptors, one per token, each with the separator after it.
proof fn lemma_build_tokens(parts: Seq<FormatPartModel>, i: int, toks: Seq<TokenSpec>)
    requires
        0 <= i <= parts.len(),
        parts.subrange(i, parts.len() as int) == expected_parts(toks),
    ensures
        build_formats(parts, i) == expected_formats(toks),
    decreases toks.len(),
{
    let suf = parts.subrange(i, parts.len() as int);
    if toks.len() == 0 {
        assert(parts.len() - i == 0);
        assert(expected_formats(toks) =~= Seq::<ColumnFormatModel>::empty());
    } else {
        let t = toks[0];
        let rest = toks.drop_first();
        let tok = seq!['{'] + t.inner + seq!['}'];
        let head = FormatPartModel::Format { token: tok, width: t.width_digits };
        if t.sep.len() > 0 {
            let sep_part = FormatPartModel::Separator { text: t.sep };
            assert(expected_parts(toks) == seq![head] + seq![sep_part] + expected_parts(rest));
            assert(parts[i] == suf[0]);
            assert(parts[i] == head);
            assert(parts[i + 1] == suf[1]);
            assert(parts[i + 1] == sep_part);
            assert(sep_after(parts, i) == Some(t.sep));
            assert(parts.subrange(i + 2, parts.len() as int) =~= expected_parts(rest)) by {
                assert forall|k: int| 0 <= k < parts.len() - i - 2 implies #[trigger] parts.subrange(
                    i + 2,
                    parts.len() as int,
                )[k] == expected_parts(rest)[k] by {
                    assert(parts.subrange(i + 2, parts.len() as int)[k] == suf[k + 2]);
                }
            }
            lemma_build_tokens(parts, i + 2, toks.drop_first());
            assert(build_formats(parts, i) == seq![expected_format(t)] + build_formats(
                parts,
                i + 1,
            ));
            assert(build_formats(parts, i + 1) == build_formats(parts, i + 2));
            assert(expected_formats(toks) =~= seq![expected_format(t)] + expected_formats(rest));
        } else {
            assert(expected_parts(toks) == seq![head] + Seq::<FormatPartModel>::empty()
                + expected_parts(rest));
            assert(parts[i] == suf[0]);
            assert(parts[i] == head);
            assert(parts.subrange(i + 1, parts.len() as int) =~= expected_parts(rest)) by {
                assert forall|k: int| 0 <= k < parts.len() - i - 1 implies #[trigger] parts.subrange(
                    i + 1,
                    parts.len() as int,
                )[k] == expected_parts(rest)[k] by {
                    assert(parts.subrange(i + 1, parts.len() as int)[k] == suf[k + 1]);
                }
            }
            lemma_build_tokens(parts, i + 1, toks.drop_first());
            assert(sep_after(parts, i) is None) by {
                if i + 1 < parts.len() {
                    assert(parts[i + 1] == suf[1]);
                    assert(expected_parts(rest).len() > 0);
                    assert(parts[i + 1] == expected_parts(rest)[0]);
                    assert(parts[i + 1] is Format);
                }
            }
            assert(build_formats(parts, i) == seq![expected_format(t)] + build_formats(
                parts,
                i + 1,
            ));
            assert(expected_formats(toks) =~= seq![expected_format(t)] + expected_formats(rest));
        }
    }
}

/// A template of `k` balanced format tokens parses to exactly `k` descriptors
/// in template order: each classified by what its braced text contains, each
/// carrying the width its suffix digits name (`None` without a suffix or when
/// the digits do not read as a fitting number), and each taking the literal
/// text after it as its separator — `None` when that text is empty. Leading
/// literal text leaves no trace in the descriptors.
pub proof fn lemma_parse_template(lead: Seq<char>, toks: Seq<TokenSpec>)
    requires
        forall|k: int| 0 <= k < lead.len() ==> lead[k] != '{',
        forall|j: int| 0 <= j < toks.len() ==> token_ok(#[trigger] toks[j]),
    ensures
        parse_spec(template_text(lead, toks)) == expected_formats(toks),
        parse_spec(template_text(lead, toks)).len() == toks.len(),
        forall|j: int|
            0 <= j < toks.len() ==> parse_spec(template_text(lead, toks))[j] == expected_format(
                #[trigger] toks[j],
            ),
{
    let s = template_text(lead, toks);
    let a = lead.len() as int;
    assert(s.subrange(a, s.len() as int) =~= tokens_text(toks)) by {
        assert forall|k: int| 0 <= k < s.len() - a implies s.subrange(a, s.len() as int)[k]
            == tokens_text(toks)[k] by {
            assert(s.subrange(a, s.len() as int)[k] == s[a + k]);
            assert(s[a + k] == (lead + tokens_text(toks))[a + k]);
        }
    }
    lemma_scan_tokens(s, a, toks);
    assert forall|k: int| 0 <= k < a implies !((s[k] == '{' && !false) || (#[trigger] s[k] == '}'
        && false)) by {
        assert(s[k] == lead[k]);
    }
    lemma_scan_skip(s, 0, 0, false, a);
    let parts = scan_parts(s, 0, 0, false);
    if toks.len() == 0 {
        assert(s.len() == a);
        if a > 0 {
            assert(parts == seq![
                FormatPartModel::Separator { text: s.subrange(0, s.len() as int) },
            ]);
            assert(build_formats(parts, 0) == build_formats(parts, 1));
            assert(build_formats(parts, 1) =~= Seq::<ColumnFormatModel>::empty());
        } else {
            assert(parts =~= Seq::<FormatPartModel>::empty());
        }
        assert(expected_formats(toks) =~= Seq::<ColumnFormatModel>::empty());
    } else {
        lemma_token_text_first(toks[0]);
        assert(s[a] == '{') by {
            assert(tokens_text(toks) == token_text(toks[0]) + tokens_text(toks.drop_first()));
            assert(tokens_text(toks)[0] == '{');
            assert(s[a] == s.subrange(a, s.len() as int)[0]);
        }
        if a > 0 {
            assert(s.subrange(0, a) =~= lead);
            assert(scan_parts(s, a, 0, false) == seq![
                FormatPartModel::Separator { text: s.subrange(0, a) },
            ] + scan_parts(s, a + 1, a, true));
            assert(scan_parts(s, a, a, false) == scan_parts(s, a + 1, a, true));
            assert(parts =~= seq![FormatPartModel::Separator { text: lead }] + expected_parts(
                toks,
            ));
            assert(parts.subrange(1, parts.len() as int) =~= expected_parts(toks));
            lemma_build_tokens(parts, 1, toks);
            assert(build_formats(parts, 0) == build_formats(parts, 1));
        } else {
            assert(parts == expected_parts(toks));
            assert(parts.subrange(0, parts.len() as int) =~= expected_parts(toks));
            lemma_build_tokens(parts, 0, toks);
        }
    }
    assert(expected_formats(toks).len() == toks.len());
}

proof fn lemma_row_text_congruence(
    f1: Seq<ColumnFormatModel>,
    i1: Seq<ItemModel>,
    f2: Seq<ColumnFormatModel>,
    i2: Seq<ItemModel>,
    r: int,
    j: int,
)
    requires
        n_cols(f1, i1) == n_cols(f2, i2),
        forall|t: int| 0 <= t < n_cols(f1, i1) ==> #[trigger] cells_of(f1, i1)[t] == cells_of(
            f2,
            i2,
        )[t],
        forall|t: int| 0 <= t < n_cols(f1, i1) ==> #[trigger] widths_of(f1, i1)[t] == widths_of(
            f2,
            i2,
        )[t],
        forall|t: int| 0 <= t < n_cols(f1, i1) - 1 ==> sep_text(#[trigger] f1[t]) == sep_text(
            f2[t],
        ),
    ensures
        row_text(f1, i1, r, j) == row_text(f2, i2, r, j),
    decreases n_cols(f1, i1) - j,
{
    let n = n_cols(f1, i1);
    if j < 0 || j >= n {
    } else {
        lemma_row_text_congruence(f1, i1, f2, i2, r, j + 1);
    }
}

proof fn lemma_rows_text_congruence(
    f1: Seq<ColumnFormatModel>,
    i1: Seq<ItemModel>,
    f2: Seq<ColumnFormatModel>,
    i2: Seq<ItemModel>,
    r: int,
)
    requires
        n_cols(f1, i1) == n_cols(f2, i2),
        cells_of(f1, i1) == cells_of(f2, i2),
        forall|t: int| 0 <= t < n_cols(f1, i1) ==> #[trigger] widths_of(f1, i1)[t] == widths_of(
            f2,
            i2,
        )[t],
        forall|t: int| 0 <= t < n_cols(f1, i1) - 1 ==> sep_text(#[trigger] f1[t]) == sep_text(
            f2[t],
        ),
    ensures
        rows_text(f1, i1, r) == rows_text(f2, i2, r),
    decreases max_lines_spec(cells_of(f1, i1)) - r,
{
    let m = max_lines_spec(cells_of(f1, i1));
    if r < 0 || r >= m {
    } else {
        lemma_rows_text_congruence(f1, i1, f2, i2, r + 1);
        lemma_row_text_congruence(f1, i1, f2, i2, r, 0);
    }
}

/// Descriptors and values are paired strictly by position: whichever list is
/// longer, everything past the shorter one leaves no trace in the output.
pub proof fn lemma_excess_dropped(formats: Seq<ColumnFormatModel>, items: Seq<ItemModel>)
    ensures
        ({
            let n = n_cols(formats, items);
            render_spec(formats, items) == render_spec(formats.take(n), items.take(n))
        }),
{
    let n = n_cols(formats, items);
    let f2 = formats.take(n);
    let i2 = items.take(n);
    assert(n_cols(f2, i2) == n);
    assert(cells_of(formats, items) =~= cells_of(f2, i2));
    assert forall|t: int| 0 <= t < n implies #[trigger] widths_of(formats, items)[t] == widths_of(
        f2,
        i2,
    )[t] by {
        assert(cells_of(formats, items)[t] == cells_of(f2, i2)[t]);
    }
    lemma_rows_text_congruence(formats, items, f2, i2, 0);
}

/// The last rendered column's separator is never emitted: replacing it by
/// anything else leaves the output untouched.
pub proof fn lemma_last_separator_not_emitted(
    formats: Seq<ColumnFormatModel>,
    items: Seq<ItemModel>,
    sep: Option<Seq<char>>,
)
    requires
        n_cols(formats, items) > 0,
    ensures
        ({
            let n = n_cols(formats, items);
            let changed = ColumnFormatModel {
                format_type: formats[n - 1].format_type,
                width: formats[n - 1].width,
                separator: sep,
            };
            render_spec(formats.update(n - 1, changed), items) == render_spec(formats, items)
        }),
{
    let n = n_cols(formats, items);
    let changed = ColumnFormatModel {
        format_type: formats[n - 1].format_type,
        width: formats[n - 1].width,
        separator: sep,
    };
    let f2 = formats.update(n - 1, changed);
    assert(n_cols(f2, items) == n);
    assert(cells_of(formats, items) =~= cells_of(f2, items));
    assert forall|t: int| 0 <= t < n implies #[trigger] widths_of(formats, items)[t] == widths_of(
        f2,
        items,
    )[t] by {
        assert(cells_of(formats, items)[t] == cells_of(f2, items)[t]);
    }
    lemma_rows_text_congruence(f2, items, formats, items, 0);
}

} // verus!
