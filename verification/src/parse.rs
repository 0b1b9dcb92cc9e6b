//! The meaning of a template, defined character by character.
//!
//! A template is scanned left to right. A `{` outside any open token opens a
//! format token; the next `}` closes it. When the character directly after the
//! closing `}` is `:`, the digit run after the colon is consumed as an explicit
//! width for that token. Literal text between tokens becomes the preceding
//! token's separator; text with no token after it stays attached to the last
//! token, where the renderer never emits it. An opening `{` that is never
//! closed produces no further token.

use vstd::prelude::*;
use crate::column_format::ColumnFormatModel;
use crate::format_part::FormatPartModel;
use crate::format_type::FormatType;
use crate::text::{contains_seq, digit_run_len, is_ascii_digit, spec_parse_usize};

verus! {

/// The characters that mark a pretty-debug token.
pub open spec fn pretty_marker() -> Seq<char> {
    seq![':', '#', '?']
}

/// The characters that mark a debug token.
pub open spec fn debug_marker() -> Seq<char> {
    seq![':', '?']
}

/// The render mode of a format token, judged by what its text contains
/// anywhere between (and including) the braces: `:#?` means pretty debug,
/// otherwise `:?` means debug, and anything else means display.
pub open spec fn mode_of_token(token: Seq<char>) -> FormatType {
    if contains_seq(token, pretty_marker()) {
        FormatType::PrettyDebug
    } else if contains_seq(token, debug_marker()) {
        FormatType::Debug
    } else {
        FormatType::Display
    }
}

/// Decide the render mode of one format token.
pub fn classify_token(token: &str) -> (t: FormatType)
    ensures
        t == mode_of_token(token@),
{
    proof {
        reveal_strlit(":#?");
        reveal_strlit(":?");
        assert(":#?"@ =~= pretty_marker());
        assert(":?"@ =~= debug_marker());
    }
    if crate::text::str_contains(token, ":#?") {
        FormatType::PrettyDebug
    } else if crate::text::str_contains(token, ":?") {
        FormatType::Debug
    } else {
        FormatType::Display
    }
}

/// The width recorded for a token: the parsed value of its digit run, when
/// there was a suffix and the run reads as a number that fits.
pub open spec fn width_value(width: Option<Seq<char>>) -> Option<usize> {
    match width {
        Some(digits) => spec_parse_usize(digits),
        None => None,
    }
}

/// The pieces produced by scanning `s` from position `i`, where `start` marks
/// the beginning of the piece being gathered and `in_format` says whether a
/// `{` is currently open.
pub open spec fn scan_parts(s: Seq<char>, i: int, start: int, in_format: bool) -> Seq<
    FormatPartModel,
>
    recommends
        0 <= start <= s.len(),
        0 <= i <= s.len(),
    decreases s.len() - i,
{
    if i < 0 || i >= s.len() {
        if 0 <= start < s.len() {
            seq![FormatPartModel::Separator { text: s.subrange(start, s.len() as int) }]
        } else {
            Seq::empty()
        }
    } else if s[i] == '{' && !in_format {
        let rest = scan_parts(s, i + 1, i, true);
        if i > start {
            seq![FormatPartModel::Separator { text: s.subrange(start, i) }] + rest
        } else {
            rest
        }
    } else if s[i] == '}' && in_format {
        if i + 1 < s.len() && s[i + 1] == ':' {
            let run = digit_run_len(s, i + 2);
            let wend = if i + 2 + run <= s.len() {
                i + 2 + run
            } else {
                s.len() as int
            };
            seq![
                FormatPartModel::Format {
                    token: s.subrange(start, i + 1),
                    width: Some(s.subrange(i + 2, wend)),
                },
            ] + scan_parts(s, wend, wend, false)
        } else {
            seq![FormatPartModel::Format { token: s.subrange(start, i + 1), width: None }]
                + scan_parts(s, i + 1, i + 1, false)
        }
    } else {
        scan_parts(s, i + 1, start, in_format)
    }
}

/// The separator text directly after position `i`, when the piece there is one.
pub open spec fn sep_after(parts: Seq<FormatPartModel>, i: int) -> Option<Seq<char>> {
    if i + 1 < parts.len() {
        match parts[i + 1] {
            FormatPartModel::Separator { text } => Some(text),
            FormatPartModel::Format { .. } => None,
        }
    } else {
        None
    }
}

/// The column descriptors built from the scanned pieces at positions `i` and
/// beyond: one descriptor per format token, each taking the separator text
/// that directly follows it.
pub open spec fn build_formats(parts: Seq<FormatPartModel>, i: int) -> Seq<ColumnFormatModel>
    decreases parts.len() - i,
{
    if i < 0 || i >= parts.len() {
        Seq::empty()
    } else {
        match parts[i] {
            FormatPartModel::Format { token, width } => {
                seq![
                    ColumnFormatModel {
                        format_type: mode_of_token(token),
                        width: width_value(width),
                        separator: sep_after(parts, i),
                    },
                ] + build_formats(parts, i + 1)
            },
            FormatPartModel::Separator { .. } => build_formats(parts, i + 1),
        }
    }
}

/// The column descriptors a template denotes.
pub open spec fn parse_spec(s: Seq<char>) -> Seq<ColumnFormatModel> {
    build_formats(scan_parts(s, 0, 0, false), 0)
}

/// A maximal digit run: all of `[p, j)` are digits and `j` sits at the end of
/// the text or on a non-digit, so the run starting at `p` is exactly `j - p` long.
pub proof fn lemma_digit_run_at(s: Seq<char>, p: int, j: int)
    requires
        0 <= p <= j <= s.len(),
        forall|k: int| p <= k < j ==> is_ascii_digit(s[k]),
        j < s.len() ==> !is_ascii_digit(s[j]),
    ensures
        digit_run_len(s, p) == j - p,
    decreases j - p,
{
    if p < j {
        lemma_digit_run_at(s, p + 1, j);
    }
}

} // verus!
