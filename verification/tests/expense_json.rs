use finance_records::amount::Amount;
use finance_records::data_types::{
    create_expense_from_json, get_expense_as_json, Date, Expense, MalformedJson,
};

fn amount(value: f32) -> Amount {
    if value.is_nan() {
        Amount::NotANumber
    } else if value == f32::INFINITY {
        Amount::Infinity
    } else if value == f32::NEG_INFINITY {
        Amount::NegInfinity
    } else {
        Amount::finite(&serde_json::to_string(&value).unwrap()).unwrap()
    }
}

fn value_of(amount: &Amount) -> f32 {
    match amount.literal() {
        Some(literal) => serde_json::from_str::<f32>(literal).unwrap(),
        None => panic!("the amount is not finite"),
    }
}

fn lunch() -> Expense {
    Expense::new(
        1,
        amount(42.50),
        "food".to_string(),
        Date::new(15, 6, 2024),
        Some("lunch".to_string()),
    )
}

fn bus() -> Expense {
    Expense::new(2, amount(10.0), "transport".to_string(), Date::new(1, 1, 2024), None)
}

fn read(text: &str) -> Expense {
    create_expense_from_json(text).unwrap()
}

fn refused(text: &str) -> bool {
    matches!(create_expense_from_json(text), Err(MalformedJson {}))
}

#[test]
fn construction_copies_the_fields() {
    let expense = lunch();
    assert_eq!(expense.id(), 1);
    assert_eq!(expense.amount().literal(), Some("42.5"));
    assert_eq!(value_of(expense.amount()), 42.5);
    assert_eq!(expense.category(), "food");
    assert_eq!(expense.date().day(), 15);
    assert_eq!(expense.date().month(), 6);
    assert_eq!(expense.date().year(), 2024);
    assert_eq!(expense.description(), Some("lunch"));
}

#[test]
fn construction_checks_nothing() {
    let expense = Expense::new(0, amount(-1.0), String::new(), Date::new(99, 13, 0), None);
    assert_eq!(expense.id(), 0);
    assert_eq!(expense.amount().literal(), Some("-1.0"));
    assert_eq!(expense.category(), "");
    assert_eq!(expense.date().day(), 99);
    assert_eq!(expense.date().month(), 13);
    assert_eq!(expense.date().year(), 0);
    assert_eq!(expense.description(), None);
}

#[test]
fn update_amount_replaces_only_the_amount() {
    let mut expense = lunch();
    expense.update_amount(amount(7.25));
    assert_eq!(expense.amount().literal(), Some("7.25"));
    assert_eq!(expense.id(), 1);
    assert_eq!(expense.category(), "food");
    assert_eq!(expense.date().day(), 15);
    assert_eq!(expense.date().month(), 6);
    assert_eq!(expense.date().year(), 2024);
    assert_eq!(expense.description(), Some("lunch"));
}

#[test]
fn update_amount_takes_amounts_that_are_not_finite() {
    let mut expense = lunch();
    expense.update_amount(amount(f32::NAN));
    assert!(matches!(expense.amount(), Amount::NotANumber));
    expense.update_amount(amount(f32::INFINITY));
    assert!(matches!(expense.amount(), Amount::Infinity));
    expense.update_amount(amount(f32::NEG_INFINITY));
    assert!(matches!(expense.amount(), Amount::NegInfinity));
    assert!(!expense.amount().is_finite());
    assert_eq!(expense.id(), 1);
    assert_eq!(expense.category(), "food");
    assert_eq!(expense.description(), Some("lunch"));
    expense.update_amount(amount(3.0));
    assert!(expense.amount().is_finite());
    assert_eq!(value_of(expense.amount()), 3.0);
}

#[test]
fn the_text_of_an_expense_with_a_description() {
    assert_eq!(
        get_expense_as_json(&lunch()),
        "{\"id\":1,\"amount\":42.5,\"category\":\"food\",\"date\":{\"day\":15,\"month\":6,\"year\":2024},\"description\":\"lunch\"}"
    );
}

#[test]
fn the_text_of_an_expense_without_a_description() {
    assert_eq!(
        get_expense_as_json(&bus()),
        "{\"id\":2,\"amount\":10.0,\"category\":\"transport\",\"date\":{\"day\":1,\"month\":1,\"year\":2024},\"description\":null}"
    );
}

#[test]
fn round_trip_with_a_description() {
    let written = lunch();
    let copy = read(&get_expense_as_json(&written));
    assert_eq!(copy.id(), 1);
    assert_eq!(value_of(copy.amount()), 42.50);
    assert_eq!(copy.amount().literal(), written.amount().literal());
    assert_eq!(copy.category(), "food");
    assert_eq!(copy.date().day(), 15);
    assert_eq!(copy.date().month(), 6);
    assert_eq!(copy.date().year(), 2024);
    assert_eq!(copy.description(), Some("lunch"));
}

#[test]
fn round_trip_without_a_description() {
    let text = get_expense_as_json(&bus());
    assert!(text.contains("\"description\":null"));
    let copy = read(&text);
    assert_eq!(copy.id(), 2);
    assert_eq!(value_of(copy.amount()), 10.0);
    assert_eq!(copy.category(), "transport");
    assert_eq!(copy.date().day(), 1);
    assert_eq!(copy.date().month(), 1);
    assert_eq!(copy.date().year(), 2024);
    assert_eq!(copy.description(), None);
}

#[test]
fn round_trip_at_the_limits() {
    let written = Expense::new(
        u32::MAX,
        amount(f32::MAX),
        "\u{0}\u{1f} \"quoted\" back\\slash \u{7f}\u{e9}\u{1F600}".to_string(),
        Date::new(u8::MAX, u8::MAX, u16::MAX),
        Some(String::new()),
    );
    let copy = read(&get_expense_as_json(&written));
    assert_eq!(copy.id(), u32::MAX);
    assert_eq!(value_of(copy.amount()), f32::MAX);
    assert_eq!(copy.category(), written.category());
    assert_eq!(copy.date().day(), 255);
    assert_eq!(copy.date().month(), 255);
    assert_eq!(copy.date().year(), 65535);
    assert_eq!(copy.description(), Some(""));
}

#[test]
fn round_trip_of_small_and_negative_amounts() {
    for value in [0.0f32, -0.0, 0.1, -2.5, 1e-7, 1.5e10, f32::MIN_POSITIVE, f32::MIN, 16777216.0] {
        let written = Expense::new(7, amount(value), "x".to_string(), Date::new(1, 2, 3), None);
        let copy = read(&get_expense_as_json(&written));
        assert_eq!(value_of(copy.amount()).to_bits(), value.to_bits());
    }
}

#[test]
fn characters_are_escaped_as_json_asks() {
    let expense = Expense::new(
        3,
        amount(1.0),
        "a\"b\\c/d\u{8}\u{c}\n\r\t\u{1}\u{1f}\u{7f}\u{e9}".to_string(),
        Date::new(1, 1, 1),
        Some("\"".to_string()),
    );
    assert_eq!(
        get_expense_as_json(&expense),
        "{\"id\":3,\"amount\":1.0,\"category\":\"a\\\"b\\\\c/d\\b\\f\\n\\r\\t\\u0001\\u001f\u{7f}\u{e9}\",\"date\":{\"day\":1,\"month\":1,\"year\":1},\"description\":\"\\\"\"}"
    );
}

#[test]
fn an_amount_that_is_not_finite_is_written_as_null_and_not_read_back() {
    for value in [f32::NAN, f32::INFINITY, f32::NEG_INFINITY] {
        let expense = Expense::new(4, amount(value), "x".to_string(), Date::new(1, 1, 1), None);
        let text = get_expense_as_json(&expense);
        assert_eq!(
            text,
            "{\"id\":4,\"amount\":null,\"category\":\"x\",\"date\":{\"day\":1,\"month\":1,\"year\":1},\"description\":null}"
        );
        assert!(refused(&text));
    }
}

#[test]
fn the_text_is_what_serde_json_reads() {
    let text = get_expense_as_json(&Expense::new(
        4000000000,
        amount(-0.125),
        "tab\there \"and\" \u{3}".to_string(),
        Date::new(31, 12, 1999),
        Some("caf\u{e9} \\ \u{1F600}".to_string()),
    ));
    let value: serde_json::Value = serde_json::from_str(&text).unwrap();
    assert_eq!(value["id"].as_u64(), Some(4000000000));
    assert_eq!(value["amount"].as_f64(), Some(-0.125));
    assert_eq!(value["category"].as_str(), Some("tab\there \"and\" \u{3}"));
    assert_eq!(value["date"]["day"].as_u64(), Some(31));
    assert_eq!(value["date"]["month"].as_u64(), Some(12));
    assert_eq!(value["date"]["year"].as_u64(), Some(1999));
    assert_eq!(value["description"].as_str(), Some("caf\u{e9} \\ \u{1F600}"));
    assert_eq!(value.as_object().unwrap().len(), 5);
}

#[test]
fn a_missing_member_is_refused() {
    assert!(refused("{\"id\": 1}"));
    assert!(refused(
        "{\"amount\":1.5,\"category\":\"c\",\"date\":{\"day\":1,\"month\":2,\"year\":3},\"description\":null}"
    ));
    assert!(refused(
        "{\"id\":1,\"category\":\"c\",\"date\":{\"day\":1,\"month\":2,\"year\":3},\"description\":null}"
    ));
    assert!(refused(
        "{\"id\":1,\"amount\":1.5,\"date\":{\"day\":1,\"month\":2,\"year\":3},\"description\":null}"
    ));
    assert!(refused("{\"id\":1,\"amount\":1.5,\"category\":\"c\",\"description\":null}"));
    assert!(refused(
        "{\"id\":1,\"amount\":1.5,\"category\":\"c\",\"date\":{\"day\":1,\"month\":2},\"description\":null}"
    ));
    assert!(refused(
        "{\"id\":1,\"amount\":1.5,\"category\":\"c\",\"date\":{},\"description\":null}"
    ));
    assert!(refused("{}"));
}

#[test]
fn a_description_that_is_left_out_is_none() {
    let expense =
        read("{\"id\":1,\"amount\":1.5,\"category\":\"c\",\"date\":{\"day\":1,\"month\":2,\"year\":3}}");
    assert_eq!(expense.description(), None);
    assert_eq!(expense.id(), 1);
    assert_eq!(expense.amount().literal(), Some("1.5"));
}

#[test]
fn every_truncated_text_is_refused() {
    let text = get_expense_as_json(&lunch());
    for end in 0..text.len() {
        assert!(refused(&text[..end]), "{}", &text[..end]);
    }
    assert!(!refused(&text));
}

#[test]
fn text_that_is_no_json_is_refused() {
    let valid = "{\"id\":1,\"amount\":1.5,\"category\":\"c\",\"date\":{\"day\":1,\"month\":2,\"year\":3},\"description\":null}";
    assert!(!refused(valid));
    assert!(refused(""));
    assert!(refused("   "));
    assert!(refused("null"));
    assert!(refused("1"));
    assert!(refused("\"id\""));
    assert!(refused(&format!("{}x", valid)));
    assert!(refused(&format!("{}{}", valid, valid)));
    assert!(refused(&format!("{},", valid)));
    assert!(refused(&valid.replace("\"id\":1,", "\"id\":1,,")));
    assert!(refused(&valid.replace("null}", "null,}")));
    assert!(refused(&valid.replace("{\"id\"", "{,\"id\"")));
    assert!(refused(&valid.replace("\"id\":1", "\"id\" 1")));
    assert!(refused(&valid.replace("\"id\":1", "\"id\":1:")));
    assert!(refused(&valid.replace("\"id\":1", "id:1")));
    assert!(refused(&valid.replace("\"id\":1,", "\"id\":1 ")));
    assert!(refused(&valid.replace("null", "nul")));
    assert!(refused(&valid.replace("null", "NULL")));
    assert!(refused(&valid.replace("null", "nullx")));
    assert!(refused(&valid.replace("\"c\"", "\"c")));
    assert!(refused(&valid.replace("\"c\"", "'c'")));
}

#[test]
fn spaces_and_the_order_of_the_members_are_free() {
    let expense = read(
        " \t\r\n{ \"description\" : \"d\" ,\n\"date\" : { \"year\" : 2024 , \"day\" : 15 , \"month\" : 6 } , \"category\" :\t\"food\" , \"amount\" : 42.5 , \"id\" : 1 }\n ",
    );
    assert_eq!(expense.id(), 1);
    assert_eq!(expense.amount().literal(), Some("42.5"));
    assert_eq!(expense.category(), "food");
    assert_eq!(expense.date().day(), 15);
    assert_eq!(expense.date().month(), 6);
    assert_eq!(expense.date().year(), 2024);
    assert_eq!(expense.description(), Some("d"));
}

#[test]
fn other_spaces_are_refused() {
    assert!(refused(
        "\u{a0}{\"id\":1,\"amount\":1.5,\"category\":\"c\",\"date\":{\"day\":1,\"month\":2,\"year\":3}}"
    ));
    assert!(refused(
        "{\"id\":1,\"amount\":1.5,\"category\":\"c\",\"date\":{\"day\":1,\"month\":2,\"year\":3}}\u{b}"
    ));
    assert!(refused(
        "\u{feff}{\"id\":1,\"amount\":1.5,\"category\":\"c\",\"date\":{\"day\":1,\"month\":2,\"year\":3}}"
    ));
}

#[test]
fn members_with_other_keys_are_passed_over() {
    let expense = read(
        "{\"a\":null,\"id\":1,\"b\":true,\"amount\":1.5,\"c\":false,\"category\":\"c\",\"d\":[1,-2.5e3,\"x\\u12ab\\ud800\",[],{}, [ ] , { } ],\"date\":{\"day\":1,\"e\":{\"day\":[{\"day\":7}]},\"month\":2,\"year\":3},\"f\":{\"id\":2,\"g\":{\"h\":\"\\\"}\"}},\"i\":\"\",\"j\":-0}",
    );
    assert_eq!(expense.id(), 1);
    assert_eq!(expense.amount().literal(), Some("1.5"));
    assert_eq!(expense.category(), "c");
    assert_eq!(expense.date().day(), 1);
    assert_eq!(expense.date().month(), 2);
    assert_eq!(expense.date().year(), 3);
    assert_eq!(expense.description(), None);
}

#[test]
fn a_member_that_is_passed_over_must_be_json_all_the_same() {
    let with = |extra: &str| {
        format!(
            "{{\"id\":1,\"amount\":1.5,\"category\":\"c\",\"date\":{{\"day\":1,\"month\":2,\"year\":3}},\"x\":{}}}",
            extra
        )
    };
    assert!(!refused(&with("0")));
    assert!(!refused(&with("[1 , 2]")));
    assert!(!refused(&with("{\"a\" : 1 , \"b\" : [ ]}")));
    assert!(refused(&with("")));
    assert!(refused(&with("01")));
    assert!(refused(&with("1.")));
    assert!(refused(&with("+1")));
    assert!(refused(&with("tru")));
    assert!(refused(&with("[1,]")));
    assert!(refused(&with("[,1]")));
    assert!(refused(&with("[1 2]")));
    assert!(refused(&with("[1}")));
    assert!(refused(&with("{1:2}")));
    assert!(refused(&with("{\"a\"}")));
    assert!(refused(&with("{\"a\":1,}")));
    assert!(refused(&with("{\"a\":}")));
    assert!(refused(&with("\"\\x\"")));
    assert!(refused(&with("\"\\u12g4\"")));
    assert!(refused(&with("\"\n\"")));
    assert!(refused(&with("\"open")));
}

#[test]
fn values_that_are_passed_over_nest_to_a_limit() {
    let nested = |depth: usize| {
        format!(
            "{{\"id\":1,\"amount\":1.5,\"category\":\"c\",\"date\":{{\"day\":1,\"month\":2,\"year\":3}},\"x\":{}{}}}",
            "[".repeat(depth),
            "]".repeat(depth)
        )
    };
    assert!(!refused(&nested(1)));
    assert!(!refused(&nested(128)));
    assert!(refused(&nested(129)));
    assert!(refused(&nested(100000)));
}

#[test]
fn a_key_that_comes_twice_is_refused() {
    assert!(refused(
        "{\"id\":1,\"id\":1,\"amount\":1.5,\"category\":\"c\",\"date\":{\"day\":1,\"month\":2,\"year\":3}}"
    ));
    assert!(refused(
        "{\"id\":1,\"amount\":1.5,\"amount\":1.5,\"category\":\"c\",\"date\":{\"day\":1,\"month\":2,\"year\":3}}"
    ));
    assert!(refused(
        "{\"id\":1,\"amount\":1.5,\"category\":\"c\",\"category\":\"c\",\"date\":{\"day\":1,\"month\":2,\"year\":3}}"
    ));
    assert!(refused(
        "{\"id\":1,\"amount\":1.5,\"category\":\"c\",\"date\":{\"day\":1,\"month\":2,\"year\":3},\"date\":{\"day\":1,\"month\":2,\"year\":3}}"
    ));
    assert!(refused(
        "{\"id\":1,\"amount\":1.5,\"category\":\"c\",\"date\":{\"day\":1,\"month\":2,\"year\":3},\"description\":null,\"description\":null}"
    ));
    assert!(refused(
        "{\"id\":1,\"amount\":1.5,\"category\":\"c\",\"date\":{\"day\":1,\"day\":1,\"month\":2,\"year\":3}}"
    ));
    assert!(refused(
        "{\"id\":1,\"amount\":1.5,\"category\":\"c\",\"date\":{\"day\":1,\"month\":2,\"year\":3,\"year\":3}}"
    ));
    assert!(!refused(
        "{\"x\":1,\"x\":2,\"id\":1,\"amount\":1.5,\"category\":\"c\",\"date\":{\"day\":1,\"month\":2,\"year\":3}}"
    ));
}

#[test]
fn a_key_may_be_written_with_escapes() {
    let expense = read(
        "{\"\\u0069d\":9,\"amount\":1.5,\"categor\\u0079\":\"c\",\"date\":{\"da\\u0079\":1,\"month\":2,\"year\":3}}",
    );
    assert_eq!(expense.id(), 9);
    assert_eq!(expense.category(), "c");
    assert_eq!(expense.date().day(), 1);
}

#[test]
fn integers_are_held_to_their_range_and_form() {
    let with_id = |id: &str| {
        format!(
            "{{\"id\":{},\"amount\":1.5,\"category\":\"c\",\"date\":{{\"day\":1,\"month\":2,\"year\":3}}}}",
            id
        )
    };
    assert_eq!(read(&with_id("0")).id(), 0);
    assert_eq!(read(&with_id("4294967295")).id(), 4294967295);
    assert!(refused(&with_id("4294967296")));
    assert!(refused(&with_id("99999999999999999999999999999999")));
    assert!(refused(&with_id("-1")));
    assert!(refused(&with_id("-0")));
    assert!(refused(&with_id("+1")));
    assert!(refused(&with_id("01")));
    assert!(refused(&with_id("00")));
    assert!(refused(&with_id("1.0")));
    assert!(refused(&with_id("1e2")));
    assert!(refused(&with_id("1E2")));
    assert!(refused(&with_id("1.")));
    assert!(refused(&with_id("\"1\"")));
    assert!(refused(&with_id("null")));
    assert!(refused(&with_id("true")));
    assert!(refused(&with_id("0x10")));
    assert!(refused(&with_id("1 2")));
    assert!(refused(&with_id("")));
    let with_date = |day: &str, month: &str, year: &str| {
        format!(
            "{{\"id\":1,\"amount\":1.5,\"category\":\"c\",\"date\":{{\"day\":{},\"month\":{},\"year\":{}}}}}",
            day, month, year
        )
    };
    let date = read(&with_date("255", "0", "65535")).date();
    assert_eq!((date.day(), date.month(), date.year()), (255, 0, 65535));
    assert!(refused(&with_date("256", "1", "1")));
    assert!(refused(&with_date("1", "256", "1")));
    assert!(refused(&with_date("1", "1", "65536")));
    assert!(refused(&with_date("-1", "1", "1")));
    assert!(refused(&with_date("1.5", "1", "1")));
    assert!(refused(&with_date("\"1\"", "1", "1")));
}

#[test]
fn an_amount_is_any_json_number_and_is_kept_as_written() {
    let with_amount = |amount: &str| {
        format!(
            "{{\"id\":1,\"amount\":{},\"category\":\"c\",\"date\":{{\"day\":1,\"month\":2,\"year\":3}}}}",
            amount
        )
    };
    for literal in
        ["0", "-0", "7", "-7", "0.5", "42.50", "1e5", "1E5", "1e+5", "1e-5", "-1.25E-10", "0.0e0", "123456789012345678901234567890"]
    {
        let expense = read(&with_amount(literal));
        assert_eq!(expense.amount().literal(), Some(literal));
        assert!(expense.amount().is_finite());
    }
    assert_eq!(value_of(read(&with_amount("42.50")).amount()), 42.5);
    assert_eq!(value_of(read(&with_amount("1e2")).amount()), 100.0);
    for literal in [
        "", "-", "+1", ".5", "1.", "01", "-01", "1e", "1e+", "1.e5", "1.5.5", "1e5.5", "0x1", "1_000",
        "NaN", "Infinity", "-Infinity", "null", "\"1.5\"", "true", "[1]", "{}", "1,5",
    ] {
        assert!(refused(&with_amount(literal)), "{}", literal);
    }
}

#[test]
fn amounts_are_made_from_numbers_only() {
    for literal in ["0", "-0.0", "42.5", "1e10", "3.4028235e38", "1E-7"] {
        assert_eq!(Amount::finite(literal).unwrap().literal(), Some(literal));
    }
    for literal in ["", " 1", "1 ", "1.", ".1", "01", "+1", "1e", "--1", "1f", "NaN", "null", "١"] {
        assert!(Amount::finite(literal).is_none(), "{}", literal);
    }
    let copy = Amount::finite("2.5").unwrap().clone();
    assert_eq!(copy.literal(), Some("2.5"));
    assert!(Amount::Infinity.clone().literal().is_none());
}

#[test]
fn strings_are_read_with_their_escapes() {
    let with = |category: &str| {
        format!(
            "{{\"id\":1,\"amount\":1.5,\"category\":\"{}\",\"date\":{{\"day\":1,\"month\":2,\"year\":3}}}}",
            category
        )
    };
    assert_eq!(read(&with("")).category(), "");
    assert_eq!(
        read(&with("\\\"\\\\\\/\\b\\f\\n\\r\\t")).category(),
        "\"\\/\u{8}\u{c}\n\r\t"
    );
    assert_eq!(read(&with("\\u0041\\u00e9\\u00E9\\u20AC\\uffff")).category(), "A\u{e9}\u{e9}\u{20ac}\u{ffff}");
    assert_eq!(read(&with("\\ud83d\\ude00")).category(), "\u{1F600}");
    assert_eq!(read(&with("\\uD800\\uDC00\\uDBFF\\uDFFF")).category(), "\u{10000}\u{10FFFF}");
    assert_eq!(read(&with("\\u0000")).category(), "\u{0}");
    assert_eq!(read(&with("\u{7f}\u{e9}\u{1F600}/")).category(), "\u{7f}\u{e9}\u{1F600}/");
    assert!(refused(&with("\\ud83d")));
    assert!(refused(&with("\\ude00")));
    assert!(refused(&with("\\ud83d\\u0041")));
    assert!(refused(&with("\\ud83d\\ud83d")));
    assert!(refused(&with("\\ud83dx")));
    assert!(refused(&with("\\ud83d\\n")));
    assert!(refused(&with("\\u12")));
    assert!(refused(&with("\\u12G4")));
    assert!(refused(&with("\\x41")));
    assert!(refused(&with("\\")));
    assert!(refused(&with("\n")));
    assert!(refused(&with("\t")));
    assert!(refused(&with("\u{0}")));
    assert!(refused(&with("\u{1f}")));
}

#[test]
fn a_description_is_a_string_or_null() {
    let with = |description: &str| {
        format!(
            "{{\"id\":1,\"amount\":1.5,\"category\":\"c\",\"date\":{{\"day\":1,\"month\":2,\"year\":3}},\"description\":{}}}",
            description
        )
    };
    assert_eq!(read(&with("null")).description(), None);
    assert_eq!(read(&with("\"\"")).description(), Some(""));
    assert_eq!(read(&with("\"null\"")).description(), Some("null"));
    assert!(refused(&with("1")));
    assert!(refused(&with("true")));
    assert!(refused(&with("nul")));
    assert!(refused(&with("nulll")));
    assert!(refused(&with("[]")));
    assert!(refused(&with("{}")));
}

#[test]
fn values_of_the_wrong_kind_are_refused() {
    assert!(refused(
        "{\"id\":1,\"amount\":1.5,\"category\":7,\"date\":{\"day\":1,\"month\":2,\"year\":3}}"
    ));
    assert!(refused(
        "{\"id\":1,\"amount\":1.5,\"category\":null,\"date\":{\"day\":1,\"month\":2,\"year\":3}}"
    ));
    assert!(refused("{\"id\":1,\"amount\":1.5,\"category\":\"c\",\"date\":\"2024-06-15\"}"));
    assert!(refused("{\"id\":1,\"amount\":1.5,\"category\":\"c\",\"date\":null}"));
    assert!(refused("{\"id\":1,\"amount\":1.5,\"category\":\"c\",\"date\":20240615}"));
}

#[test]
fn texts_that_serde_json_refuses_are_refused() {
    for text in [
        "{\"id\":1,\"amount\":1.5,\"category\":\"c\",\"date\":{\"day\":1,\"month\":2,\"year\":3},}",
        "{\"id\":1,\"amount\":1.5,\"category\":\"c\",\"date\":{\"day\":1,\"month\":2,\"year\":3}}}",
        "{\"id\":1 \"amount\":1.5,\"category\":\"c\",\"date\":{\"day\":1,\"month\":2,\"year\":3}}",
        "{\"id\":01,\"amount\":1.5,\"category\":\"c\",\"date\":{\"day\":1,\"month\":2,\"year\":3}}",
        "{\"id\":1,\"amount\":1.5e,\"category\":\"c\",\"date\":{\"day\":1,\"month\":2,\"year\":3}}",
        "{\"id\":1,\"amount\":1.5,\"category\":\"c\\q\",\"date\":{\"day\":1,\"month\":2,\"year\":3}}",
        "{\"id\":1,\"amount\":1.5,\"category\":\"c\",\"date\":{\"day\":1,\"month\":2,\"year\":3},\"x\":[}",
    ] {
        assert!(serde_json::from_str::<serde_json::Value>(text).is_err(), "{}", text);
        assert!(refused(text), "{}", text);
    }
}

#[test]
fn an_array_of_the_values_is_read_as_well() {
    let expense = read("[1,42.5,\"food\",[15,6,2024],\"lunch\"]");
    assert_eq!(expense.id(), 1);
    assert_eq!(expense.amount().literal(), Some("42.5"));
    assert_eq!(expense.category(), "food");
    assert_eq!(expense.date().day(), 15);
    assert_eq!(expense.date().month(), 6);
    assert_eq!(expense.date().year(), 2024);
    assert_eq!(expense.description(), Some("lunch"));
    let expense = read(" [ 2 , 1e1 , \"\" , { \"year\" : 3 , \"month\" : 2 , \"day\" : 1 } , null ] ");
    assert_eq!(expense.id(), 2);
    assert_eq!(expense.amount().literal(), Some("1e1"));
    assert_eq!(expense.category(), "");
    assert_eq!(expense.date().day(), 1);
    assert_eq!(expense.date().month(), 2);
    assert_eq!(expense.date().year(), 3);
    assert_eq!(expense.description(), None);
    let expense =
        read("{\"id\":3,\"amount\":0,\"category\":\"c\",\"date\":[ 31 , 12 , 1999 ]}");
    assert_eq!(expense.date().day(), 31);
    assert_eq!(expense.date().month(), 12);
    assert_eq!(expense.date().year(), 1999);
}

#[test]
fn an_array_holds_each_value_and_no_other() {
    for text in [
        "[]",
        "[1]",
        "[1,42.5,\"food\",[15,6,2024]]",
        "[1,42.5,\"food\",[15,6,2024],]",
        "[1,42.5,\"food\",[15,6,2024],\"lunch\",]",
        "[1,42.5,\"food\",[15,6,2024],\"lunch\",null]",
        "[,1,42.5,\"food\",[15,6,2024],\"lunch\"]",
        "[1,,42.5,\"food\",[15,6,2024],\"lunch\"]",
        "[1 42.5,\"food\",[15,6,2024],\"lunch\"]",
        "[1,42.5,\"food\",[15,6,2024],\"lunch\"",
        "[1,42.5,\"food\",[15,6,2024],\"lunch\"}",
        "[1,42.5,\"food\",[15,6,2024],\"lunch\"]]",
        "[42.5,1,\"food\",[15,6,2024],\"lunch\"]",
        "[1,42.5,\"food\",\"lunch\",[15,6,2024]]",
        "[1,42.5,\"food\",[15,6],\"lunch\"]",
        "[1,42.5,\"food\",[15,6,2024,1],\"lunch\"]",
        "[1,42.5,\"food\",[15,6,2024,],\"lunch\"]",
        "[1,42.5,\"food\",[],\"lunch\"]",
        "[1,42.5,\"food\",[256,6,2024],\"lunch\"]",
        "[1,42.5,\"food\",[15,6,65536],\"lunch\"]",
        "[1,null,\"food\",[15,6,2024],\"lunch\"]",
        "[1,42.5,null,[15,6,2024],\"lunch\"]",
        "[1,42.5,\"food\",null,\"lunch\"]",
        "[1,42.5,\"food\",[15,6,2024],7]",
        "[[1,42.5,\"food\",[15,6,2024],\"lunch\"]]",
    ] {
        assert!(refused(text), "{}", text);
    }
}
