use ethos_protocol_backend::clock::{
    day_of_week, hour_of_day, month_of_year, utc_now, whole_seconds, DAY, HOUR, SECOND,
};
use ethos_protocol_backend::json::{JsonField, JsonValue};
use ethos_protocol_backend::measure::Measure;
use ethos_protocol_backend::ordering::{pick, stable_order};
use ethos_protocol_backend::ratio::Ratio;
use ethos_protocol_backend::table::Table;
use ethos_protocol_backend::text::{
    contains_text, decimal_text, equals_ignoring_case, join_texts, parse_u32, parse_u64,
    parse_usize, signed_decimal_text, sort_texts, split_text, strip_trailing, trim, NumberError,
};

fn measure(x: f64) -> Measure {
    Measure { bits: x.to_bits() }
}

#[test]
fn numbers_are_written_and_read() {
    assert_eq!(decimal_text(0), "0");
    assert_eq!(decimal_text(u128::MAX), u128::MAX.to_string());
    assert_eq!(signed_decimal_text(i128::MIN), i128::MIN.to_string());
    assert_eq!(signed_decimal_text(-7), "-7");
    for text in ["", "+", "-1", "0", "007", "+12", "18446744073709551615", "18446744073709551616"] {
        assert_eq!(parse_u64(text), text.parse::<u64>().ok());
        assert_eq!(parse_u32(text), text.parse::<u32>().ok());
    }
    assert_eq!(parse_usize("42"), Ok(42));
    assert_eq!(parse_usize(""), Err(NumberError::Empty));
    assert_eq!(parse_usize("x"), Err(NumberError::InvalidDigit));
    assert_eq!(parse_usize("99999999999999999999999"), Err(NumberError::TooLarge));
}

#[test]
fn texts_are_cut_and_searched() {
    for text in ["", " a ", "\u{a0}x\u{2003}", "\tline\r\n", "no space"] {
        assert_eq!(trim(text), text.trim());
    }
    assert_eq!(split_text("a,b,,c", ','), vec!["a", "b", "", "c"]);
    assert_eq!(split_text("", ','), vec![""]);
    assert!(contains_text("lat_latency", "latency"));
    assert!(contains_text("abc", ""));
    assert!(!contains_text("ab", "abc"));
    assert!(equals_ignoring_case("TrUe", "true"));
    assert!(!equals_ignoring_case("Ä", "ä"));
    assert_eq!(strip_trailing("http://x//", '/'), "http://x");
    let list = vec!["b".to_string(), "a".to_string(), "ab".to_string(), "a".to_string()];
    assert_eq!(sort_texts(&list), vec!["a", "a", "ab", "b"]);
    assert_eq!(join_texts(&list, "-"), "b-a-ab-a");
}

#[test]
fn measures_compare_as_numbers_do() {
    let values = [0.0, -0.0, 1.0, -1.0, 1e300, f64::INFINITY, f64::NEG_INFINITY, f64::NAN, 5e-324];
    for a in values {
        for b in values {
            assert_eq!(measure(a).gt(&measure(b)), a > b);
            assert_eq!(measure(a).ge(&measure(b)), a >= b);
            if !a.is_nan() || !b.is_nan() {
                assert_eq!(f64::from_bits(measure(a).max(&measure(b)).bits), a.max(b));
            }
        }
        assert_eq!(measure(a).abs().bits, a.abs().to_bits());
        assert_eq!(measure(a).is_nan(), a.is_nan());
    }
}

#[test]
fn ratios_compare_as_fractions() {
    let third = Ratio { numerator: 1, denominator: 3 };
    let half = Ratio { numerator: 2, denominator: 4 };
    assert!(half.at_least(&third));
    assert!(!third.at_least(&half));
    assert!(half.at_least(&Ratio { numerator: 1, denominator: 2 }));
    let large = Ratio { numerator: u128::MAX, denominator: u64::MAX };
    assert!(large.at_least(&half));
}

#[test]
fn orders_are_stable() {
    let keys = vec![3, 1, 3, 2];
    assert_eq!(stable_order(&keys, false), vec![1, 3, 0, 2]);
    let order = stable_order(&keys, true);
    assert_eq!(order, vec![0, 2, 3, 1]);
    let items = vec!["a", "b", "c", "d"];
    let picked: Vec<&str> = pick(&items, &order).into_iter().copied().collect();
    assert_eq!(picked, vec!["a", "c", "d", "b"]);
}

#[test]
fn tables_keep_the_order_of_insertion() {
    let mut t: Table<u32> = Table::new();
    assert!(t.is_empty());
    assert_eq!(t.insert("b".to_string(), 1), None);
    assert_eq!(t.insert("a".to_string(), 2), None);
    assert_eq!(t.insert("b".to_string(), 3), Some(1));
    assert_eq!(t.len(), 2);
    assert_eq!(t.key_at(0), "b");
    assert_eq!(*t.value_at(0), 3);
    assert_eq!(t.sorted_keys(), vec!["a", "b"]);
    *t.get_mut("a").unwrap() += 5;
    assert_eq!(t.get("a"), Some(&7));
    assert_eq!(t.remove("b"), Some(3));
    assert_eq!(t.remove("b"), None);
    assert_eq!(t.position("a"), Some(0));
    t.clear();
    assert!(t.get("a").is_none());
}

#[test]
fn fields_are_set_and_read() {
    let mut v = JsonValue::Object(vec![JsonField {
        name: "a".to_string(),
        value: JsonValue::Bool(true),
    }]);
    v.set("b", JsonValue::Text("x".to_string()));
    v.set("a", JsonValue::Null);
    assert_eq!(v.get("a"), Some(&JsonValue::Null));
    assert_eq!(v.get("b").and_then(|b| b.as_str()), Some("x"));
    assert_eq!(v.get("c"), None);
    assert_eq!(v.copy(), v);
    assert_eq!(JsonValue::Bool(false).as_bool(), Some(false));
    assert_eq!(JsonValue::Null.as_bool(), None);
    let nested = JsonValue::List(vec![v.copy(), JsonValue::Number("1.5".to_string())]);
    assert_eq!(nested.copy(), nested);
}

#[test]
fn the_calendar_is_read() {
    assert!(utc_now() > 1_700_000_000 * SECOND);
    assert_eq!(whole_seconds(1_500_000_000), 1);
    assert_eq!(whole_seconds(-1), -1);
    assert_eq!(hour_of_day(25 * HOUR), 1);
    assert_eq!(hour_of_day(-HOUR), 23);
    // The first day of 1970 was a Thursday.
    assert_eq!(day_of_week(0), 3);
    assert_eq!(day_of_week(4 * DAY), 0);
    assert_eq!(month_of_year(0), 0);
    assert_eq!(month_of_year(31 * DAY), 1);
    assert_eq!(month_of_year(-1), 11);
    // The last day of February 2000, and the first day of March.
    assert_eq!(month_of_year(11_016 * DAY), 1);
    assert_eq!(month_of_year(11_017 * DAY), 2);
    // There was no such day in 1900.
    assert_eq!(month_of_year(-25_509 * DAY), 1);
    assert_eq!(month_of_year(-25_508 * DAY), 2);
}
