use justfetch::parser::Parser;
use justfetch::resolver::TemplateError;

#[test]
fn black_and_white_are_both_in_range() {
    let mut cfg = "rgb[\"x\", 0, 0, 0]".to_string();
    assert_eq!(Parser::parse_color(&mut cfg), Ok(()));
    assert_eq!(cfg, "\u{1b}[38;2;0;0;0mx\u{1b}[0m");

    let mut cfg = "rgb[\"x\", 255, 255, 255]".to_string();
    assert_eq!(Parser::parse_color(&mut cfg), Ok(()));
    assert_eq!(cfg, "\u{1b}[38;2;255;255;255mx\u{1b}[0m");
}

#[test]
fn a_three_digit_channel_over_255_is_fatal() {
    let mut cfg = "rgb[\"x\", 256, 0, 0]".to_string();
    assert_eq!(Parser::parse_color(&mut cfg), Err(TemplateError::ColorOutOfRange));
    assert_eq!(cfg, "rgb[\"x\", 256, 0, 0]");
}

#[test]
fn a_four_digit_channel_is_fatal() {
    let mut cfg = "rgb[\"x\", 1000, 0, 0]".to_string();
    assert_eq!(Parser::parse_color(&mut cfg), Err(TemplateError::MalformedColor));
    assert_eq!(cfg, "rgb[\"x\", 1000, 0, 0]");
}

#[test]
fn text_without_markup_is_untouched() {
    let mut cfg = "plain text with rgb letters but no markup".to_string();
    assert_eq!(Parser::parse_color(&mut cfg), Ok(()));
    assert_eq!(cfg, "plain text with rgb letters but no markup");
}

#[test]
fn a_missing_closing_quote_is_fatal() {
    let mut cfg = "rgb[\"never closed, 1, 2, 3]".to_string();
    assert_eq!(Parser::parse_color(&mut cfg), Err(TemplateError::MalformedColor));
    assert_eq!(cfg, "rgb[\"never closed, 1, 2, 3]");
}

#[test]
fn a_newline_inside_the_text_capture_is_fatal() {
    let mut cfg = "rgb[\"broken\nacross\", 1, 2, 3]".to_string();
    assert_eq!(Parser::parse_color(&mut cfg), Err(TemplateError::MalformedColor));
}

#[test]
fn a_non_numeric_channel_is_fatal() {
    let mut cfg = "rgb[\"x\", red, 0, 0]".to_string();
    assert_eq!(Parser::parse_color(&mut cfg), Err(TemplateError::MalformedColor));
}

#[test]
fn only_the_matched_span_is_replaced() {
    let mut cfg = "red rgb[\"red\", 1, 2, 3] red".to_string();
    assert_eq!(Parser::parse_color(&mut cfg), Ok(()));
    assert_eq!(cfg, "red \u{1b}[38;2;1;2;3mred\u{1b}[0m red");
}

#[test]
fn spacing_between_channels_is_free() {
    let mut cfg = "rgb[\"x\",7,8,9]".to_string();
    assert_eq!(Parser::parse_color(&mut cfg), Ok(()));
    assert_eq!(cfg, "\u{1b}[38;2;7;8;9mx\u{1b}[0m");
}

#[test]
fn several_spans_resolve_left_to_right() {
    let mut cfg = "rgb[\"a\", 1, 1, 1] and rgb[\"b\", 2, 2, 2]".to_string();
    assert_eq!(Parser::parse_color(&mut cfg), Ok(()));
    assert_eq!(cfg, "\u{1b}[38;2;1;1;1ma\u{1b}[0m and \u{1b}[38;2;2;2;2mb\u{1b}[0m");
}

#[test]
fn an_empty_text_capture_is_allowed() {
    let mut cfg = "rgb[\"\", 5, 6, 7]".to_string();
    assert_eq!(Parser::parse_color(&mut cfg), Ok(()));
    assert_eq!(cfg, "\u{1b}[38;2;5;6;7m\u{1b}[0m");
}
