use deckbuilder::parser::{
    check_parts, parse_amount, LinePosition, parse_line, parse_lines, split_line, Error, NumberIssue,
    ParseError,
};
use deckbuilder::BasicCard;

fn ok_line(s: &str) -> (i64, String) {
    match parse_line::<BasicCard>(s) {
        Ok(e) => (e.amount, e.card.name),
        Err(_) => panic!("line {s:?} should parse"),
    }
}

fn err_line(s: &str) -> ParseError {
    match parse_line::<BasicCard>(s) {
        Ok(_) => panic!("line {s:?} should fail"),
        Err(e) => e,
    }
}

#[test]
fn valid_lines_give_amount_and_trimmed_name() {
    assert_eq!(ok_line("3x Lightning Bolt"), (3, "Lightning Bolt".to_string()));
    assert_eq!(ok_line("3xCard"), (3, "Card".to_string()));
    assert_eq!(ok_line("12X  Big Card  "), (12, "Big Card".to_string()));
    assert_eq!(ok_line("3 Card"), (3, "Card".to_string()));
    assert_eq!(ok_line("3 \t x Card"), (3, "Card".to_string()));
    assert_eq!(ok_line("1x x"), (1, "x".to_string()));
}

#[test]
fn x_inside_name_is_text() {
    assert_eq!(ok_line("3x1 Card"), (3, "1 Card".to_string()));
    assert_eq!(ok_line("2 xx Card"), (2, "x Card".to_string()));
}

#[test]
fn zero_amount_names_the_card() {
    let e = err_line("0x Foo");
    assert!(matches!(e.error, Error::AmountIsZero { ref card_name } if card_name == "Foo"));
    assert_eq!(e.position.line, None);
    assert_eq!(e.position.column, None);
}

#[test]
fn blank_name_is_empty_name_error() {
    let e = err_line("3x   ");
    assert!(matches!(e.error, Error::NameIsEmpty));
    let e = err_line("3");
    assert!(matches!(e.error, Error::NameIsEmpty));
}

#[test]
fn unexpected_character_reports_column() {
    let e = err_line("a3x Foo");
    assert_eq!(e.position.column, Some(1));
    match e.error {
        Error::UnexpectedChar { obtained, expected } => {
            assert_eq!(obtained, 'a');
            assert_eq!(expected, vec!["a digit".to_string()]);
        }
        _ => panic!("expected an unexpected character"),
    }
    let e = err_line("12# Foo");
    assert_eq!(e.position.column, Some(3));
    match e.error {
        Error::UnexpectedChar { obtained, expected } => {
            assert_eq!(obtained, '#');
            assert_eq!(expected.len(), 3);
            assert_eq!(expected[0], "a digit");
            assert_eq!(expected[2], "a card name");
        }
        _ => panic!("expected an unexpected character"),
    }
}

#[test]
fn column_counts_characters_not_bytes() {
    let e = err_line("é");
    assert_eq!(e.position.column, Some(1));
    let e = err_line("4é");
    assert_eq!(e.position.column, Some(2));
}

#[test]
fn missing_or_huge_numeral_is_not_a_number() {
    let e = err_line("x Foo");
    assert!(matches!(
        e.error,
        Error::NotANumber { ref string, reason: NumberIssue::Empty } if string.is_empty()
    ));
    let e = err_line("99999999999999999999 Foo");
    assert!(matches!(
        e.error,
        Error::NotANumber { ref string, reason: NumberIssue::TooLarge }
            if string == "99999999999999999999"
    ));
    assert_eq!(e.position.column, None);
}

#[test]
fn largest_amount_is_accepted() {
    assert_eq!(ok_line("9223372036854775807 Foo").0, i64::MAX);
    assert!(parse_line::<BasicCard>("9223372036854775808 Foo").is_err());
}

#[test]
fn split_line_positions() {
    assert_eq!(split_line("3x Foo").ok(), Some((1, 2)));
    assert_eq!(split_line("42 \t Foo").ok(), Some((2, 5)));
    assert_eq!(split_line("42 \t xFoo").ok(), Some((2, 6)));
    assert_eq!(split_line("7").ok(), Some((1, 1)));
    assert!(split_line("7;").is_err());
}

#[test]
fn amounts_read_as_decimal() {
    assert_eq!(parse_amount("0"), Ok(0));
    assert_eq!(parse_amount("007"), Ok(7));
    assert_eq!(parse_amount("1234"), Ok(1234));
    assert_eq!(parse_amount(""), Err(NumberIssue::Empty));
    assert_eq!(parse_amount("1a"), Err(NumberIssue::InvalidDigit));
    assert_eq!(parse_amount("-1"), Err(NumberIssue::InvalidDigit));
    assert_eq!(parse_amount("9223372036854775808"), Err(NumberIssue::TooLarge));
}

#[test]
fn parts_are_checked_in_order() {
    assert_eq!(check_parts("5", "Foo").ok(), Some(5));
    assert!(matches!(check_parts("", "").err().map(|e| e.error), Some(Error::NotANumber { .. })));
    assert!(matches!(check_parts("0", "").err().map(|e| e.error), Some(Error::AmountIsZero { .. })));
    assert!(matches!(check_parts("2", "").err().map(|e| e.error), Some(Error::NameIsEmpty)));
}

fn lines(ls: &[&str]) -> Vec<Result<String, String>> {
    ls.iter().map(|l| Ok(l.to_string())).collect()
}

#[test]
fn all_line_errors_are_collected() {
    let r = parse_lines::<BasicCard>("deck.txt", lines(&["0x Foo", "2x Bar", "a Baz"]));
    match r {
        Ok(_) => panic!("the file has errors"),
        Err(errs) => {
            assert_eq!(errs.len(), 2);
            assert_eq!(errs[0].position.line, Some(1));
            assert_eq!(errs[1].position.line, Some(3));
            assert_eq!(errs[1].position.column, Some(1));
        }
    }
}

#[test]
fn duplicate_name_is_reported_on_second_line() {
    let r = parse_lines::<BasicCard>("deck.txt", lines(&["2x Alpha", "1x Alpha"]));
    match r {
        Ok(_) => panic!("the name repeats"),
        Err(errs) => {
            assert_eq!(errs.len(), 1);
            assert_eq!(errs[0].position.line, Some(2));
            assert_eq!(errs[0].position.column, None);
            assert!(matches!(errs[0].error, Error::NameMultipleTimes { ref name } if name == "Alpha"));
        }
    }
}

#[test]
fn blank_lines_are_skipped() {
    let r = parse_lines::<BasicCard>("deck.txt", lines(&["", "2x Alpha", "  \t", "1 Beta"]));
    let es = match r {
        Ok(es) => es,
        Err(_) => panic!("the file is valid"),
    };
    assert_eq!(es.len(), 2);
    assert_eq!((es[0].amount, es[0].card.name.as_str()), (2, "Alpha"));
    assert_eq!((es[1].amount, es[1].card.name.as_str()), (1, "Beta"));
}

#[test]
fn empty_source_gives_no_entries() {
    let r = parse_lines::<BasicCard>("deck.txt", vec![]);
    assert!(matches!(r, Ok(ref es) if es.is_empty()));
}

#[test]
fn read_fault_is_an_error_and_reading_goes_on() {
    let src = vec![
        Err("device error".to_string()),
        Ok("2x Alpha".to_string()),
        Ok("0 Beta".to_string()),
    ];
    match parse_lines::<BasicCard>("deck.txt", src) {
        Ok(_) => panic!("a line could not be read"),
        Err(errs) => {
            assert_eq!(errs.len(), 2);
            match &errs[0].error {
                Error::CouldntReadLine { path, line, message } => {
                    assert_eq!(path, "deck.txt");
                    assert_eq!(*line, 1);
                    assert_eq!(message, "device error");
                }
                _ => panic!("expected a read fault"),
            }
            assert_eq!(errs[1].position.line, Some(3));
        }
    }
}

#[test]
fn at_line_keeps_column() {
    let e = err_line("1;").at_line(7);
    assert_eq!(e.position.line, Some(7));
    assert_eq!(e.position.column, Some(2));
}

#[test]
fn names_are_trimmed_of_unicode_whitespace() {
    assert_eq!(ok_line("2x\u{3000}Card\u{A0}\n"), (2, "Card".to_string()));
    assert_eq!(ok_line("2 Card\r\n"), (2, "Card".to_string()));
}

#[test]
fn newline_after_bare_number_is_unexpected() {
    let e = err_line("3\n");
    assert_eq!(e.position.column, Some(2));
    assert!(matches!(e.error, Error::UnexpectedChar { obtained: '\n', .. }));
}

#[test]
fn inserted_blank_lines_change_nothing() {
    let a = parse_lines::<BasicCard>("d", lines(&["2x Alpha", "1 Beta"]));
    let b = parse_lines::<BasicCard>("d", lines(&["", "2x Alpha", " \t ", "1 Beta", "\u{2003}"]));
    let names = |r: Result<Vec<deckbuilder::CardEntry<BasicCard>>, Vec<ParseError>>| match r {
        Ok(es) => es.into_iter().map(|e| (e.amount, e.card.name)).collect::<Vec<_>>(),
        Err(_) => panic!("the file is valid"),
    };
    assert_eq!(names(a), names(b));
}

#[test]
fn every_failing_line_gets_one_error_in_order() {
    let src = vec![
        Ok("1 Alpha".to_string()),
        Ok("x Beta".to_string()),
        Err("fault".to_string()),
        Ok("".to_string()),
        Ok("2 Alpha".to_string()),
        Ok("3 Gamma".to_string()),
    ];
    match parse_lines::<BasicCard>("d", src) {
        Ok(_) => panic!("the file has errors"),
        Err(errs) => {
            let ls: Vec<Option<usize>> = errs.iter().map(|e| e.position.line).collect();
            assert_eq!(ls, vec![Some(2), Some(3), Some(5)]);
            assert!(matches!(errs[0].error, Error::NotANumber { .. }));
            assert!(matches!(errs[1].error, Error::CouldntReadLine { line: 3, .. }));
            assert!(matches!(errs[2].error, Error::NameMultipleTimes { .. }));
        }
    }
}

#[test]
fn position_text_depends_on_what_is_known() {
    let p = |line, column| LinePosition { line, column }.describe();
    assert_eq!(p(None, None), "Error at unknown position");
    assert_eq!(p(Some(12), Some(3)), "Error at line 12, column 3");
    assert_eq!(p(None, Some(40)), "Error at unknown line, column 40");
    assert_eq!(p(Some(7), None), "Error at line 7");
    assert_eq!(p(Some(0), None), "Error at line 0");
}
