use colprint::{ColumnFormatter, FormatType, FormattableItem};

fn disp(s: &str) -> FormattableItem {
    FormattableItem::DisplayItem(String::from(s))
}

fn dbg_item(debug: &str, pretty: &str) -> FormattableItem {
    FormattableItem::DebugItem(String::from(debug), String::from(pretty))
}

#[test]
fn parse_counts_and_orders_tokens() {
    let formats = ColumnFormatter::parse_format_string("{} | {:?} | {:#?}:80");
    assert_eq!(formats.len(), 3);
    assert_eq!(formats[0].format_type, FormatType::Display);
    assert_eq!(formats[1].format_type, FormatType::Debug);
    assert_eq!(formats[2].format_type, FormatType::PrettyDebug);
    assert_eq!(formats[0].width, None);
    assert_eq!(formats[1].width, None);
    assert_eq!(formats[2].width, Some(80));
    assert_eq!(formats[0].separator, Some(String::from(" | ")));
    assert_eq!(formats[1].separator, Some(String::from(" | ")));
    assert_eq!(formats[2].separator, None);
}

#[test]
fn mode_is_judged_by_containment() {
    let formats = ColumnFormatter::parse_format_string("{abc:?xyz}{x:#?y}{plain}");
    assert_eq!(formats.len(), 3);
    assert_eq!(formats[0].format_type, FormatType::Debug);
    assert_eq!(formats[1].format_type, FormatType::PrettyDebug);
    assert_eq!(formats[2].format_type, FormatType::Display);
}

#[test]
fn width_suffix_follows_the_closing_brace() {
    let formats = ColumnFormatter::parse_format_string("{}:5 | {:?}:60");
    assert_eq!(formats.len(), 2);
    assert_eq!(formats[0].width, Some(5));
    assert_eq!(formats[1].width, Some(60));
    assert_eq!(formats[0].separator, Some(String::from(" | ")));
}

#[test]
fn colon_inside_braces_is_no_width() {
    // A digit run inside the braces names no width; only a suffix after the
    // closing brace does.
    let formats = ColumnFormatter::parse_format_string("{:5}");
    assert_eq!(formats.len(), 1);
    assert_eq!(formats[0].format_type, FormatType::Display);
    assert_eq!(formats[0].width, None);
}

#[test]
fn empty_width_suffix_is_auto() {
    let formats = ColumnFormatter::parse_format_string("{}:x");
    assert_eq!(formats.len(), 1);
    assert_eq!(formats[0].width, None);
    assert_eq!(formats[0].separator, Some(String::from("x")));
}

#[test]
fn huge_width_suffix_is_auto() {
    let formats = ColumnFormatter::parse_format_string("{}:99999999999999999999999999");
    assert_eq!(formats.len(), 1);
    assert_eq!(formats[0].width, None);
}

#[test]
fn separators_sit_between_tokens() {
    let formats = ColumnFormatter::parse_format_string("lead{}mid{}trail");
    assert_eq!(formats.len(), 2);
    assert_eq!(formats[0].separator, Some(String::from("mid")));
    // Trailing text stays on the last descriptor, where it is never printed.
    assert_eq!(formats[1].separator, Some(String::from("trail")));
}

#[test]
fn adjacent_tokens_have_no_separator() {
    let formats = ColumnFormatter::parse_format_string("{}{}");
    assert_eq!(formats.len(), 2);
    assert_eq!(formats[0].separator, None);
    assert_eq!(formats[1].separator, None);
}

#[test]
fn unterminated_brace_yields_no_token() {
    let formats = ColumnFormatter::parse_format_string("{} | {abc");
    assert_eq!(formats.len(), 1);
    assert_eq!(formats[0].separator, Some(String::from(" | ")));
}

#[test]
fn leading_text_is_never_printed() {
    let f = ColumnFormatter::new("pre{}", vec![disp("v")]);
    assert_eq!(f.format_columns(), "v\n");
}

#[test]
fn trailing_text_is_never_printed() {
    let f = ColumnFormatter::new("{}end", vec![disp("v")]);
    assert_eq!(f.format_columns(), "v\n");
}

#[test]
fn two_display_columns_auto_width() {
    let f = ColumnFormatter::new("{} | {}", vec![disp("ab"), disp("cdef")]);
    assert_eq!(f.format_columns(), "ab | cdef\n");
}

#[test]
fn explicit_width_pads_first_column() {
    let f = ColumnFormatter::new("{}:5 | {}", vec![disp("ab"), disp("x")]);
    assert_eq!(f.format_columns(), "ab    | x\n");
}

#[test]
fn ragged_debug_cells_are_blank_padded() {
    let f = ColumnFormatter::new(
        "{:?}\t{:?}",
        vec![dbg_item("L1\nL2", "L1\nL2"), dbg_item("Z", "Z")],
    );
    assert_eq!(f.format_columns(), "L1\tZ\nL2\t \n");
}

#[test]
fn empty_template_renders_nothing() {
    let f = ColumnFormatter::new("", vec![disp("a"), disp("b")]);
    assert_eq!(f.format_columns(), "");
}

#[test]
fn excess_descriptor_is_dropped() {
    let f = ColumnFormatter::new("{}{}{}", vec![disp("ab"), disp("cdef")]);
    assert_eq!(f.format_columns(), "abcdef\n");
}

#[test]
fn excess_value_is_dropped() {
    let f = ColumnFormatter::new("{}|{}", vec![disp("a"), disp("b"), disp("c")]);
    assert_eq!(f.format_columns(), "a|b\n");
}

#[test]
fn three_descriptors_two_values() {
    let f = ColumnFormatter::new("{}|{}|{}", vec![disp("a"), disp("b")]);
    assert_eq!(f.format_columns(), "a|b\n");
}

#[test]
fn explicit_width_truncates_by_scalars() {
    let f = ColumnFormatter::new("{}:2", vec![disp("héllo")]);
    assert_eq!(f.format_columns(), "hé\n");
}

#[test]
fn auto_width_counts_scalars() {
    let f = ColumnFormatter::new("{}|{}", vec![disp("éé"), disp("a\nbcd")]);
    assert_eq!(f.format_columns(), "éé|a  \n  |bcd\n");
}

#[test]
fn display_value_in_debug_column_falls_back() {
    let f = ColumnFormatter::new("{:?}", vec![disp("short")]);
    assert_eq!(f.format_columns(), "short\n");
}

#[test]
fn debug_value_in_display_column_falls_back() {
    let f = ColumnFormatter::new("{}", vec![dbg_item("compact", "pretty")]);
    assert_eq!(f.format_columns(), "compact\n");
}

#[test]
fn pretty_debug_uses_the_expanded_form() {
    let f = ColumnFormatter::new("{:#?}", vec![dbg_item("One(1)", "One(\n    1,\n)")]);
    assert_eq!(f.format_columns(), "One(  \n    1,\n)     \n");
}

#[test]
fn crlf_breaks_lines_too() {
    let f = ColumnFormatter::new("{}", vec![disp("a\r\nb")]);
    assert_eq!(f.format_columns(), "a\nb\n");
}

#[test]
fn empty_cell_beside_tall_cell() {
    let f = ColumnFormatter::new("{}|{}", vec![disp(""), disp("a\nb")]);
    assert_eq!(f.format_columns(), "|a\n|b\n");
}

#[test]
fn separator_after_width_suffix() {
    let formats = ColumnFormatter::parse_format_string("{}:3x{}");
    assert_eq!(formats.len(), 2);
    assert_eq!(formats[0].width, Some(3));
    assert_eq!(formats[0].separator, Some(String::from("x")));
    let f = ColumnFormatter::new("{}:3x{}", vec![disp("a"), disp("b")]);
    assert_eq!(f.format_columns(), "a  xb\n");
}

#[test]
fn open_brace_inside_token_is_kept() {
    let formats = ColumnFormatter::parse_format_string("{a{b}x{}");
    assert_eq!(formats.len(), 2);
    assert_eq!(formats[0].separator, Some(String::from("x")));
    assert_eq!(formats[0].format_type, FormatType::Display);
}

#[test]
fn stray_closing_brace_is_literal() {
    let formats = ColumnFormatter::parse_format_string("a}b{c}{d}");
    assert_eq!(formats.len(), 2);
    assert_eq!(formats[0].separator, None);
    assert_eq!(formats[1].separator, None);
}

#[test]
fn bare_colon_suffix_at_end() {
    let formats = ColumnFormatter::parse_format_string("{}:");
    assert_eq!(formats.len(), 1);
    assert_eq!(formats[0].width, None);
    assert_eq!(formats[0].separator, None);
}

#[test]
fn no_values_renders_nothing() {
    let f = ColumnFormatter::new("{} | {}", vec![]);
    assert_eq!(f.format_columns(), "");
}
