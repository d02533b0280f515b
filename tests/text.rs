use falling_figure::text::{chars_of, parse_number, split_chars, trim_chars};

#[test]
fn chars_of_keeps_every_character() {
    assert_eq!(chars_of("a\u{e9}\n"), vec!['a', '\u{e9}', '\n']);
    assert_eq!(chars_of(""), Vec::<char>::new());
}

#[test]
fn trim_strips_both_ends_only() {
    assert_eq!(trim_chars(&chars_of(" \t a b \r")), chars_of("a b"));
    assert_eq!(trim_chars(&chars_of("\u{2003}x\u{3000}")), vec!['x']);
    assert_eq!(trim_chars(&chars_of("   ")), Vec::<char>::new());
    assert_eq!(trim_chars(&chars_of("ab")), vec!['a', 'b']);
}

#[test]
fn split_gives_every_piece() {
    let pieces = split_chars(&chars_of("ab\n\ncd\n"), '\n');
    assert_eq!(pieces, vec![vec!['a', 'b'], vec![], vec!['c', 'd'], vec![]]);
    assert_eq!(split_chars(&Vec::new(), ' '), vec![Vec::<char>::new()]);
}

#[test]
fn parse_number_reads_decimal() {
    assert_eq!(parse_number(&chars_of("0")), Some(0));
    assert_eq!(parse_number(&chars_of("1203")), Some(1203));
    assert_eq!(parse_number(&chars_of(&usize::MAX.to_string())), Some(usize::MAX));
    assert_eq!(parse_number(&chars_of("18446744073709551616")), None);
    assert_eq!(parse_number(&chars_of("99999999999999999999999")), None);
    assert_eq!(parse_number(&chars_of("")), None);
    assert_eq!(parse_number(&chars_of("12a")), None);
    assert_eq!(parse_number(&chars_of("+1")), None);
}
