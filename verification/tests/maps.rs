use lava_eval::error::EvalError;
use lava_eval::eval::{eval_architecture, InputBindings};
use lava_eval::import::{imports_in_source, ImportParseError};
use lava_eval::interface::InterfaceParseError;
use lava_eval::number::{i64_text, parse_i64, u64_text, usize_text};
use lava_eval::schema::input_bag;
use lava_eval::sexpr::ParseError;
use lava_eval::sortedmap::{before, SortedMap};
use lava_eval::text::{glue, glue3, join, replace, trim};

#[test]
fn rendered_integers_read_back() {
    for n in [0, 7, -7, 10, -10, 1234567890, i64::MAX, i64::MIN] {
        let text = i64_text(n);
        assert_eq!(text, n.to_string());
        let cs: Vec<char> = text.chars().collect();
        assert_eq!(parse_i64(&cs), Some(n));
    }
    assert_eq!(u64_text(u64::MAX), "18446744073709551615");
    assert_eq!(usize_text(0), "0");
}

#[test]
fn only_integers_read_as_integers() {
    for s in ["", "+", "-", "1 ", " 1", "1.0", "0x1", "--1", "9223372036854775808", "\u{661}"] {
        let cs: Vec<char> = s.chars().collect();
        assert_eq!(parse_i64(&cs), None, "{s}");
        assert!(s.parse::<i64>().is_err());
    }
    for s in ["+5", "-0", "007", "-9223372036854775808"] {
        let cs: Vec<char> = s.chars().collect();
        assert_eq!(parse_i64(&cs), s.parse::<i64>().ok(), "{s}");
    }
}

#[test]
fn sorted_maps_order_their_keys_and_keep_the_last_value() {
    let mut m: SortedMap<String> = SortedMap::new();
    for (k, v) in [("b", "1"), ("a", "2"), ("ab", "3"), ("b", "4"), ("", "5"), ("·", "6")] {
        m.insert(k.to_string(), v.to_string());
    }
    let pairs: Vec<(&str, &str)> =
        (0..m.len()).map(|i| m.at(i)).map(|(k, v)| (k.as_str(), v.as_str())).collect();
    assert_eq!(pairs, vec![("", "5"), ("a", "2"), ("ab", "3"), ("b", "4"), ("·", "6")]);
    assert_eq!(m.get("b").map(|s| s.as_str()), Some("4"));
    assert!(m.get("c").is_none());
    assert_eq!(m.clone().len(), 5);
}

#[test]
fn strings_are_ordered_as_std_orders_them() {
    let words = ["", "a", "ab", "b", "Z", "·", "\u{10348}", "\u{ffff}"];
    for a in words {
        for b in words {
            assert_eq!(before(a, b), a < b, "{a} {b}");
        }
    }
}

#[test]
fn text_helpers_do_what_std_does() {
    for s in ["", " ", "a", " a ", "\u{a0}\u{3000}x\u{2003}", "\u{200b}", "\u{85}y\u{1680}"] {
        let cs: Vec<char> = s.chars().collect();
        let t: String = trim(&cs).iter().collect();
        assert_eq!(t, s.trim());
    }
    assert_eq!(replace("a-b--c", '-', '_'), "a_b__c");
    assert_eq!(glue("a", "b"), "ab");
    assert_eq!(glue3("a", "", "c"), "ac");
    assert_eq!(join(&vec![], ","), "");
    assert_eq!(join(&vec!["a".to_string(), "b".to_string()], ", "), "a, b");
}

#[test]
fn the_bag_lists_strings_then_lists_by_name() {
    let mut b = InputBindings::new();
    b.set_str("z", "1");
    b.set_str("a", "2");
    b.set_list("m", vec!["p".to_string(), "q".to_string()]);
    b.set_list("a", vec!["r".to_string()]);
    b.set_list("empty", vec![]);
    let bag = input_bag(&b);
    let pairs: Vec<(&str, &str)> = bag.iter().map(|(k, v)| (k.as_str(), v.as_str())).collect();
    assert_eq!(pairs, vec![("a", "r"), ("z", "1"), ("empty", ""), ("m", "p,q")]);
}

#[test]
fn the_last_output_of_a_name_counts() {
    let arch = eval_architecture(
        "(deflava-architecture x :resources () :outputs (:a-b 1 :c 2 :a-b 3))",
        &InputBindings::new(),
    )
    .unwrap();
    assert_eq!(arch.outputs.len(), 2);
    assert_eq!(arch.outputs.at(0).unwrap().0, "a-b");
    assert!(matches!(arch.outputs.get("a-b"), Some(lava_eval::datum::Datum::Int(3))));
}

#[test]
fn unknown_import_clauses_are_ignored() {
    let plain = imports_in_source("(deflava-import t :as n)").unwrap();
    let more = imports_in_source("(deflava-import t :pin \"v1\" :as n 5 6 :left)").unwrap();
    assert_eq!(plain, more);
}

#[test]
fn reading_errors_convert_into_every_other_error() {
    let e = ParseError::UnclosedList(3);
    assert!(matches!(EvalError::from(e), EvalError::Parse(ParseError::UnclosedList(3))));
    assert!(matches!(ImportParseError::from(e), ImportParseError::Parse(_)));
    assert!(matches!(InterfaceParseError::from(e), InterfaceParseError::Parse(_)));
}
