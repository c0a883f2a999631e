use dioscuri::error::Error;
use dioscuri::gemini::{
    build_document, extract_content_from_preformatted_line, parse, parse_line, Document, Line,
};
use dioscuri::serialize::serialize;

const BASE: &str = "gemini://example.org";

fn parse_with_example_url(body: &str) -> Document {
    parse(body, BASE).unwrap()
}

fn line_with_example_url(line_str: &str) -> Line {
    parse_line(line_str, BASE).unwrap()
}

#[test]
fn test_parse_preformatted_text() {
    let actual = parse_with_example_url(
        "Hello Text!\r\n``` python\r\nprint('hello')\r\n```\r\nHello Text!\r\n",
    );

    let expected = Document::new(vec![
        Line::text("Hello Text!"),
        Line::preformatted(Some("python"), vec![Line::text("print('hello')")]),
        Line::text("Hello Text!"),
    ]);

    assert_eq!(expected, actual);
}

#[test]
fn test_parse_text_quote_link() {
    let actual = parse_with_example_url(
        "Hello Text!\r\n> Hello Quote!\r\n=> gemini://example.org Example Link!\r\n",
    );

    let expected = Document::new(vec![
        Line::text("Hello Text!"),
        Line::quote("Hello Quote!"),
        Line::link("gemini://example.org", Some("Example Link!")),
    ]);

    assert_eq!(expected, actual);
}

#[test]
fn test_line_text() {
    assert_eq!(Line::text("Hello line!"), line_with_example_url("Hello line!"));
}

#[test]
fn test_line_quote() {
    assert_eq!(Line::quote("Hello quote!"), line_with_example_url("> Hello quote!"));
}

#[test]
fn test_text() {
    let actual = line_with_example_url("Hello world");

    assert_eq!(Line::text("Hello world"), actual);
}

#[test]
fn test_link() {
    let actual = line_with_example_url("=> gemini://example.org");

    assert_eq!(Line::link("gemini://example.org", None), actual);
}

#[test]
fn test_link_relative() {
    let actual = line_with_example_url("=> /file.gmi Example Link");

    assert_eq!(Line::link("gemini://example.org/file.gmi", Some("Example Link")), actual);
}

#[test]
fn test_header_1() {
    let actual = line_with_example_url("# Example");

    assert_eq!(Line::heading("Example", 1), actual);
}

#[test]
fn test_header_2() {
    let actual = line_with_example_url("## Example 2");

    assert_eq!(Line::heading("Example 2", 2), actual);
}

#[test]
fn test_simple_line_unordered_list_item() {
    let actual = line_with_example_url("* Example Unordered List Item");

    assert_eq!(Line::unordered_list_item("Example Unordered List Item"), actual);
}

#[test]
fn test_simple_line_quote() {
    let actual = line_with_example_url("> Example Quote");

    assert_eq!(Line::quote("Example Quote"), actual);
}

#[test]
fn test_heading_level_four_is_error() {
    assert_eq!(Err(Error::DocumentParseError), parse_line("#### Example", BASE));
    assert_eq!(Err(Error::DocumentParseError), parse("#### Example\r\n", BASE));
}

#[test]
fn test_heading_single_marker() {
    assert_eq!(Line::heading("Example", 1), line_with_example_url("# Example"));
    assert_eq!(Line::heading("Example", 3), line_with_example_url("### Example"));
}

#[test]
fn test_preformatted_no_alt_text() {
    let actual = parse_with_example_url("```\r\nline one\r\n```\r\n");

    let expected = Document::new(vec![Line::preformatted(None, vec![Line::text("line one")])]);

    assert_eq!(expected, actual);
}

#[test]
fn test_structural_lines_inside_preformatted_stay_text() {
    let actual = parse_with_example_url("```\r\n* not a list\r\n# not a heading\r\n```\r\n");

    let expected = Document::new(vec![Line::preformatted(
        None,
        vec![Line::text("* not a list"), Line::text("# not a heading")],
    )]);

    assert_eq!(expected, actual);
}

#[test]
fn test_longer_fence_inside_block_is_content() {
    let actual = parse_with_example_url("```\r\n``` still inside\r\n```\r\n");

    let expected =
        Document::new(vec![Line::preformatted(None, vec![Line::text("``` still inside")])]);

    assert_eq!(expected, actual);
}

#[test]
fn test_unterminated_preformatted_is_error() {
    assert_eq!(Err(Error::DocumentParseError), parse("```\r\nline one\r\n", BASE));
}

#[test]
fn test_plain_text_keeps_whitespace_structural_lines_trim() {
    let actual = parse_with_example_url("  indented text  \r\n*   spaced item  \r\n");

    let expected = Document::new(vec![
        Line::text("  indented text  "),
        Line::unordered_list_item("spaced item"),
    ]);

    assert_eq!(expected, actual);
}

#[test]
fn test_every_byte_must_be_consumed() {
    assert_eq!(Err(Error::DocumentParseError), parse("no terminator", BASE));
    assert_eq!(Err(Error::DocumentParseError), parse("ok\r\ntrailing", BASE));
}

#[test]
fn test_bare_line_feed_is_error() {
    assert_eq!(Err(Error::DocumentParseError), parse("one\ntwo\r\n", BASE));
    assert_eq!(Err(Error::DocumentParseError), parse("one\rtwo\r\n", BASE));
}

#[test]
fn test_empty_document() {
    assert_eq!(Document::new(vec![]), parse_with_example_url(""));
}

#[test]
fn test_link_without_token_resolves_to_base() {
    assert_eq!(Line::link("gemini://example.org", None), line_with_example_url("=>"));
}

#[test]
fn test_build_document() {
    let actual = build_document(b"# Example\r\n=> /file.gmi\r\n", BASE).unwrap();

    let expected = Document::new(vec![
        Line::heading("Example", 1),
        Line::link("gemini://example.org/file.gmi", None),
    ]);

    assert_eq!(expected, actual);
}

#[test]
fn test_build_document_rejects_invalid_utf8() {
    assert_eq!(Err(Error::DocumentParseError), build_document(&[0xff, 0xfe, 0x0d, 0x0a], BASE));
}

#[test]
fn test_serialize_exact() {
    let doc = Document::new(vec![
        Line::heading("Example", 2),
        Line::text("plain"),
        Line::preformatted(Some("python"), vec![Line::text("print('hello')")]),
        Line::quote("said"),
    ]);

    assert_eq!(
        "## Example\r\nplain\r\n``` python\r\nprint('hello')\r\n```\r\n> said\r\n",
        serialize(&doc)
    );
}

#[test]
fn test_parse_serialize_parse_is_stable() {
    let body = "# Title\r\ntext line\r\n=> gemini://example.org/file.gmi A link\r\n* item\r\n> quoted\r\n``` rust\r\nfn main() {}\r\n```\r\n";

    let once = parse_with_example_url(body);
    let written = serialize(&once);
    let twice = parse(&written, BASE).unwrap();

    assert_eq!(once, twice);
}

#[test]
fn test_extract_content_from_preformatted_line() {
    let lines = vec![Line::text("one"), Line::text("two"), Line::text("three")];

    assert_eq!("one\ntwo\nthree", extract_content_from_preformatted_line(&lines));
}

#[test]
fn test_get_content() {
    assert_eq!(Some(&"abc".to_string()), Line::text("abc").get_content());
    assert_eq!(None, Line::quote("abc").get_content());
}
