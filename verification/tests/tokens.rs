use finance_records::amount::{Amount, Decimal};
use finance_records::decode::{read_date, read_expense};
use finance_records::pass::{pass_string_body, pass_value};
use finance_records::reader::{
    char_at, characters, copy_out, number_end, read_escape, read_keyword, read_number,
    read_string, read_unsigned, skip_digits, skip_spaces,
};

fn chars(text: &str) -> Vec<char> {
    text.chars().collect()
}

#[test]
fn characters_are_the_chars_of_the_text() {
    assert_eq!(characters(""), Vec::<char>::new());
    assert_eq!(characters("a\u{e9}\u{1F600}\n"), vec!['a', '\u{e9}', '\u{1F600}', '\n']);
}

#[test]
fn spaces_are_the_four_separators() {
    assert_eq!(skip_spaces(&chars(" \t\r\nx "), 0), 4);
    assert_eq!(skip_spaces(&chars(" \t\r\nx "), 4), 4);
    assert_eq!(skip_spaces(&chars(" \t\r\nx "), 5), 6);
    assert_eq!(skip_spaces(&chars("   "), 3), 3);
    assert_eq!(skip_spaces(&chars("\u{b}\u{c}\u{a0}"), 0), 0);
    assert_eq!(skip_spaces(&chars(""), 0), 0);
}

#[test]
fn digits_are_the_ten_ascii_digits() {
    assert_eq!(skip_digits(&chars("0123456789/:"), 0), 10);
    assert_eq!(skip_digits(&chars("/0"), 0), 0);
    assert_eq!(skip_digits(&chars(":0"), 0), 0);
    assert_eq!(skip_digits(&chars("\u{661}\u{662}"), 0), 0);
    assert_eq!(skip_digits(&chars("12"), 2), 2);
}

#[test]
fn a_character_is_found_at_an_index_or_not() {
    assert!(char_at(&chars("ab"), 1, 'b'));
    assert!(!char_at(&chars("ab"), 1, 'a'));
    assert!(!char_at(&chars("ab"), 2, 'b'));
}

#[test]
fn unsigned_integers_are_read_with_their_value() {
    assert_eq!(read_unsigned(&chars("0"), 0, 255), Some((0, 1)));
    assert_eq!(read_unsigned(&chars("x255,"), 1, 255), Some((255, 4)));
    assert_eq!(read_unsigned(&chars("256"), 0, 255), None);
    assert_eq!(read_unsigned(&chars("4294967295}"), 0, u32::MAX), Some((4294967295, 10)));
    assert_eq!(read_unsigned(&chars("4294967296"), 0, u32::MAX), None);
    assert_eq!(read_unsigned(&chars("18446744073709551616"), 0, u32::MAX), None);
    assert_eq!(read_unsigned(&chars("007"), 0, 255), None);
    assert_eq!(read_unsigned(&chars("007"), 2, 255), Some((7, 3)));
    assert_eq!(read_unsigned(&chars("7.0"), 0, 255), None);
    assert_eq!(read_unsigned(&chars("7e1"), 0, 255), None);
    assert_eq!(read_unsigned(&chars("7E1"), 0, 255), None);
    assert_eq!(read_unsigned(&chars("7+1"), 0, 255), Some((7, 1)));
    assert_eq!(read_unsigned(&chars("-7"), 0, 255), None);
    assert_eq!(read_unsigned(&chars(""), 0, 255), None);
    assert_eq!(read_unsigned(&chars("12"), 2, 255), None);
}

#[test]
fn numbers_end_where_the_grammar_says() {
    for (text, end) in [
        ("0", 1),
        ("-0", 2),
        ("10", 2),
        ("1.5", 3),
        ("1.50x", 4),
        ("-12.034e+56,", 11),
        ("1e5", 3),
        ("1E-5 ", 4),
        ("0.0", 3),
        ("1-2", 1),
        ("1+2", 1),
        ("2}", 1),
    ] {
        assert_eq!(number_end(&chars(text), 0), Some(end), "{}", text);
    }
    for text in ["", "-", "+1", ".5", "1.", "1.e1", "01", "-01", "1e", "1e+", "1e-x", "e5", "x"] {
        assert_eq!(number_end(&chars(text), 0), None, "{}", text);
    }
    assert_eq!(number_end(&chars("ab42.5,"), 2), Some(6));
}

#[test]
fn a_number_is_read_as_it_is_written() {
    assert_eq!(read_number(&chars("[42.50]"), 1), Some(("42.50".to_string(), 6)));
    assert_eq!(read_number(&chars("-1E+2"), 0), Some(("-1E+2".to_string(), 5)));
    assert_eq!(read_number(&chars("1.x"), 0), None);
    assert_eq!(copy_out(&chars("abcdef"), 2, 4), "cd");
    assert_eq!(copy_out(&chars("abcdef"), 3, 3), "");
}

#[test]
fn escapes_stand_for_their_characters() {
    for (text, c) in [
        ("\"", '"'),
        ("\\", '\\'),
        ("/", '/'),
        ("b", '\u{8}'),
        ("f", '\u{c}'),
        ("n", '\n'),
        ("r", '\r'),
        ("t", '\t'),
    ] {
        assert_eq!(read_escape(&chars(text), 0), Some((c, 1)), "{}", text);
    }
    assert_eq!(read_escape(&chars("u0041"), 0), Some(('A', 5)));
    assert_eq!(read_escape(&chars("u00e9x"), 0), Some(('\u{e9}', 5)));
    assert_eq!(read_escape(&chars("uD7FF"), 0), Some(('\u{d7ff}', 5)));
    assert_eq!(read_escape(&chars("uE000"), 0), Some(('\u{e000}', 5)));
    assert_eq!(read_escape(&chars("uFfFf"), 0), Some(('\u{ffff}', 5)));
    assert_eq!(read_escape(&chars("ud83d\\ude00"), 0), Some(('\u{1F600}', 11)));
    assert_eq!(read_escape(&chars("uD800\\uDC00"), 0), Some(('\u{10000}', 11)));
    assert_eq!(read_escape(&chars("uDBFF\\uDFFF"), 0), Some(('\u{10FFFF}', 11)));
    for text in [
        "", "a", "x41", "u", "u004", "u00g1", "uD800", "uDC00", "uDFFF", "uD800\\n", "uD800\\u0041",
        "uD800\\uD800", "uD800\\uDC0", "uD800uDC00", "U0041", "0",
    ] {
        assert_eq!(read_escape(&chars(text), 0), None, "{}", text);
    }
}

#[test]
fn strings_are_read_to_their_closing_quote() {
    assert_eq!(read_string(&chars("\"\""), 0), Some((String::new(), 2)));
    assert_eq!(read_string(&chars("\"ab\"c"), 0), Some(("ab".to_string(), 4)));
    assert_eq!(read_string(&chars("x\"a\\\"b\\\\\"y"), 1), Some(("a\"b\\".to_string(), 9)));
    assert_eq!(read_string(&chars("\"\\u0041\\n\""), 0), Some(("A\n".to_string(), 10)));
    assert_eq!(read_string(&chars("\"\u{7f}\u{e9}\u{1F600}\""), 0), Some(("\u{7f}\u{e9}\u{1F600}".to_string(), 5)));
    assert_eq!(read_string(&chars("ab\""), 0), None);
    assert_eq!(read_string(&chars("\"ab"), 0), None);
    assert_eq!(read_string(&chars("\"a\\\""), 0), None);
    assert_eq!(read_string(&chars("\"a\nb\""), 0), None);
    assert_eq!(read_string(&chars("\"a\u{1f}b\""), 0), None);
    assert_eq!(read_string(&chars("\"\\q\""), 0), None);
    assert_eq!(read_string(&chars(""), 0), None);
}

#[test]
fn a_keyword_is_read_letter_by_letter() {
    assert_eq!(read_keyword(&chars("null"), 0, "null"), Some(4));
    assert_eq!(read_keyword(&chars(":nullx"), 1, "null"), Some(5));
    assert_eq!(read_keyword(&chars("nul"), 0, "null"), None);
    assert_eq!(read_keyword(&chars("nuul"), 0, "null"), None);
    assert_eq!(read_keyword(&chars("Null"), 0, "null"), None);
    assert_eq!(read_keyword(&chars("x"), 0, ""), Some(0));
}

#[test]
fn strings_that_are_passed_over_need_no_paired_surrogates() {
    assert_eq!(pass_string_body(&chars("ab\"c"), 0), Some(3));
    assert_eq!(pass_string_body(&chars("\\ud800\""), 0), Some(7));
    assert_eq!(pass_string_body(&chars("\\udc00\\\"\""), 0), Some(9));
    assert_eq!(pass_string_body(&chars("\\u12\""), 0), None);
    assert_eq!(pass_string_body(&chars("\\a\""), 0), None);
    assert_eq!(pass_string_body(&chars("a\tb\""), 0), None);
    assert_eq!(pass_string_body(&chars("ab"), 0), None);
}

#[test]
fn values_are_passed_over_whole() {
    for text in [
        "null", "true", "false", "0", "-1.5e3", "\"s\"", "[]", "{}", "[ ]", "{ }", "[1,2]",
        "[ 1 , [ 2 , { \"a\" : [ ] } ] ]", "{\"a\":{\"b\":{\"c\":null}}}", "{\"\":0,\"\":1}",
    ] {
        let padded = format!("{},", text);
        assert_eq!(pass_value(&chars(&padded), 0, 8), Some(text.chars().count()), "{}", text);
    }
    for text in [
        "", " 1", "nul", "True", "[", "]", "{", "}", "[1", "[1,", "[1,]", "[,]", "[1 2]", "{\"a\"}",
        "{\"a\":}", "{\"a\":1,}", "{a:1}", "{\"a\" 1}", "[1}", "{\"a\":1]", "'a'", "01", "--1",
    ] {
        assert_eq!(pass_value(&chars(text), 0, 8), None, "{}", text);
    }
    assert_eq!(pass_value(&chars("[[1]]"), 0, 2), Some(5));
    assert_eq!(pass_value(&chars("[[1]]"), 0, 1), None);
    assert_eq!(pass_value(&chars("[]"), 0, 0), None);
    assert_eq!(pass_value(&chars("1"), 0, 0), Some(1));
    assert_eq!(pass_value(&chars("[{\"a\":[]}]"), 0, 3), Some(10));
    assert_eq!(pass_value(&chars("[{\"a\":[]}]"), 0, 2), None);
}

#[test]
fn a_date_is_an_object_with_day_month_and_year() {
    let (date, next) = read_date(&chars("{\"day\":15,\"month\":6,\"year\":2024},"), 0).unwrap();
    assert_eq!((date.day(), date.month(), date.year(), next), (15, 6, 2024, 32));
    let (date, next) =
        read_date(&chars("x{ \"year\" : 1 , \"other\" : [ ] , \"month\" : 2 , \"day\" : 3 }"), 1).unwrap();
    assert_eq!((date.day(), date.month(), date.year(), next), (3, 2, 1, 57));
    assert!(read_date(&chars("{\"day\":15,\"month\":6}"), 0).is_none());
    assert!(read_date(&chars("{\"day\":15,\"month\":6,\"year\":2024"), 0).is_none());
    assert!(read_date(&chars("{\"day\":15,\"month\":6,\"year\":2024,\"day\":15}"), 0).is_none());
    let (date, next) = read_date(&chars("[15,6,2024]x"), 0).unwrap();
    assert_eq!((date.day(), date.month(), date.year(), next), (15, 6, 2024, 11));
    let (date, next) = read_date(&chars("[ 1 , 2 , 3 ] "), 0).unwrap();
    assert_eq!((date.day(), date.month(), date.year(), next), (1, 2, 3, 13));
    assert!(read_date(&chars("[15,6]"), 0).is_none());
    assert!(read_date(&chars("[15,6,2024,7]"), 0).is_none());
    assert!(read_date(&chars("[15,6,2024"), 0).is_none());
    assert!(read_date(&chars("[15,6,2024}"), 0).is_none());
    assert!(read_date(&chars("[\"15\",6,2024]"), 0).is_none());
    assert!(read_date(&chars(" {\"day\":15,\"month\":6,\"year\":2024}"), 0).is_none());
}

#[test]
fn an_expense_is_read_from_characters() {
    let expense = read_expense(&chars(
        "{\"id\":5,\"amount\":-0.5,\"category\":\"c\",\"date\":{\"day\":1,\"month\":2,\"year\":3}}",
    ))
    .unwrap();
    assert_eq!(expense.id(), 5);
    assert_eq!(expense.amount().literal(), Some("-0.5"));
    assert!(read_expense(&chars("{\"id\":5}")).is_none());
    assert!(read_expense(&chars("")).is_none());
}

#[test]
fn a_decimal_is_a_whole_number_literal() {
    assert_eq!(Decimal::parse("12.5e-3").unwrap().as_str(), "12.5e-3");
    assert_eq!(Decimal::parse("0").unwrap().clone().as_str(), "0");
    assert!(Decimal::parse("12.5e-3 ").is_none());
    assert!(Decimal::parse("12,5").is_none());
    assert!(Decimal::parse("").is_none());
    assert!(matches!(Amount::finite("1"), Some(Amount::Finite(_))));
}
