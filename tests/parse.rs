use falling_figure::{parse_into_field, ParseError};

#[test]
fn test_parse_into_field() {
    let field = parse_into_field(
        r"2 4
    p...
    #...",
    )
    .unwrap();
    assert_eq!(field.get(0, 0), 'p');
    assert_eq!(field.get(0, 1), '#');
}

#[test]
fn test_parse_into_field_shorter_line() {
    let r = parse_into_field(
        r"2 4
    p...
    #..#.",
    );
    assert_eq!(r.err(), Some(ParseError::RowWidthMismatch));
}

#[test]
fn test_parse_into_field_longer_line() {
    let r = parse_into_field(
        r"2 4
    p.....
    #..#d",
    );
    assert_eq!(r.err(), Some(ParseError::RowWidthMismatch));
}

#[test]
fn test_parse_into_field_more_lines() {
    let r = parse_into_field(
        r"2 4
    p...
    #..#d
    #####",
    );
    assert_eq!(r.err(), Some(ParseError::RowCountMismatch));
}

#[test]
fn test_parse_into_field_less_lines() {
    let r = parse_into_field(
        r"3 4
    p...
    #..#d",
    );
    assert_eq!(r.err(), Some(ParseError::RowCountMismatch));
}

#[test]
fn parse_short_row_is_width_mismatch() {
    let r = parse_into_field("2 4\np...\n#..");
    assert_eq!(r.err(), Some(ParseError::RowWidthMismatch));
}

#[test]
fn parse_only_first_row_is_count_mismatch() {
    let r = parse_into_field("2 4\np...");
    assert_eq!(r.err(), Some(ParseError::RowCountMismatch));
}

#[test]
fn parse_rejects_bad_headers() {
    assert_eq!(parse_into_field("x 4\np...").err(), Some(ParseError::MalformedHeader));
    assert_eq!(parse_into_field("2\np...\n....").err(), Some(ParseError::MalformedHeader));
    assert_eq!(parse_into_field("").err(), Some(ParseError::MalformedHeader));
    assert_eq!(parse_into_field("1 -4\n....").err(), Some(ParseError::MalformedHeader));
    assert_eq!(
        parse_into_field("1 99999999999999999999999\n.").err(),
        Some(ParseError::MalformedHeader)
    );
}

#[test]
fn parse_reads_dimensions_height_first() {
    let field = parse_into_field("3 2\n.p\n#.\n..").unwrap();
    assert_eq!(field.height, 3);
    assert_eq!(field.width, 2);
    assert_eq!(field.to_string(), ".p\n#.\n..\n");
}

#[test]
fn parse_trims_unicode_white_space_and_counts_characters() {
    let field = parse_into_field("2 3\n\t p#x \r\n\u{3000}\u{e9}.p\u{a0}").unwrap();
    assert_eq!(field.to_string(), "p#.\n..p\n");
    assert_eq!(field.figure.len(), 2);
    assert_eq!(field.landscape.len(), 1);
}

#[test]
fn parse_ignores_fields_after_the_second() {
    let field = parse_into_field("1 2 extra\np#").unwrap();
    assert_eq!(field.to_string(), "p#\n");
}

#[test]
fn parse_empty_grid() {
    let field = parse_into_field("0 0").unwrap();
    assert_eq!(field.to_string(), "");
}
