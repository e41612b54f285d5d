use monb::cli::{BAction, BArg, BScope, BValue, Getter};
use monb::parser::{
    calculate_final_value, match_barg, parse_barg, parse_barg_from_captures, parse_bargs,
    parse_brightness_value_from_str, parse_denominator_value_from_str, ParseErrorKind,
};
use monb::text::str_to_chars;

fn arg(scope: BScope, action: BAction, brightness: Option<usize>) -> BArg {
    BArg { scope, value: BValue { action, brightness } }
}

#[test]
fn ratio_with_percent_clamps_to_hundred() {
    let r = parse_barg("50/2%").unwrap();
    assert_eq!(r, arg(BScope::Global, BAction::Assign, Some(100)));
}

#[test]
fn ratio_without_percent_divides() {
    let r = parse_barg("50/2").unwrap();
    assert_eq!(r, arg(BScope::Global, BAction::Assign, Some(25)));
}

#[test]
fn zero_numerator_ratio_is_zero() {
    let r = parse_barg("0/5").unwrap();
    assert_eq!(r, arg(BScope::Global, BAction::Assign, Some(0)));
}

#[test]
fn zero_denominator_is_division_by_zero() {
    let e = parse_barg("10/0").unwrap_err();
    assert_eq!(e.kind, ParseErrorKind::DivisionByZero);
}

#[test]
fn zero_denominator_with_percent_is_division_by_zero() {
    let e = parse_barg("10/0%").unwrap_err();
    assert_eq!(e.kind, ParseErrorKind::DivisionByZero);
}

#[test]
fn max_keyword_sets_hundred() {
    assert_eq!(parse_barg("max").unwrap(), arg(BScope::Global, BAction::Assign, Some(100)));
}

#[test]
fn minus_max_sets_zero() {
    assert_eq!(parse_barg("-max").unwrap(), arg(BScope::Global, BAction::Assign, Some(0)));
}

#[test]
fn plus_max_sets_hundred() {
    assert_eq!(parse_barg("+max").unwrap(), arg(BScope::Global, BAction::Assign, Some(100)));
}

#[test]
fn min_keyword_sets_zero() {
    assert_eq!(parse_barg("min").unwrap(), arg(BScope::Global, BAction::Assign, Some(0)));
}

#[test]
fn plus_min_increments_by_one() {
    assert_eq!(parse_barg("+min").unwrap(), arg(BScope::Global, BAction::Inc, Some(1)));
}

#[test]
fn minus_min_decrements_by_one() {
    assert_eq!(parse_barg("-min").unwrap(), arg(BScope::Global, BAction::Dec, Some(1)));
}

#[test]
fn keywords_are_case_insensitive() {
    assert_eq!(parse_barg("MAX").unwrap(), arg(BScope::Global, BAction::Assign, Some(100)));
    assert_eq!(parse_barg("Maximum").unwrap(), arg(BScope::Global, BAction::Assign, Some(100)));
    assert_eq!(parse_barg("minimal").unwrap(), arg(BScope::Global, BAction::Assign, Some(0)));
    assert_eq!(parse_barg("2:maximal").unwrap(), arg(BScope::Index(2), BAction::Assign, Some(100)));
}

#[test]
fn plain_number_is_global_set() {
    assert_eq!(parse_barg("5").unwrap(), arg(BScope::Global, BAction::Assign, Some(5)));
}

#[test]
fn numbers_above_hundred_clamp() {
    assert_eq!(parse_barg("250").unwrap(), arg(BScope::Global, BAction::Assign, Some(100)));
    assert_eq!(parse_barg("150%").unwrap(), arg(BScope::Global, BAction::Assign, Some(100)));
}

#[test]
fn indexed_increment_clamps_at_parse() {
    assert_eq!(parse_barg("1:+200").unwrap(), arg(BScope::Index(1), BAction::Inc, Some(100)));
}

#[test]
fn bare_scope_is_a_getter() {
    assert_eq!(
        parse_barg("5:").unwrap(),
        arg(BScope::Index(5), BAction::Get, None)
    );
    assert_eq!(parse_barg("*:").unwrap(), arg(BScope::Global, BAction::Get, None));
    assert_eq!(parse_barg("all:").unwrap(), arg(BScope::Global, BAction::Get, None));
    assert_eq!(parse_barg("ALL:").unwrap(), arg(BScope::Global, BAction::Get, None));
    assert_eq!(parse_barg("").unwrap(), arg(BScope::Global, BAction::Get, None));
}

#[test]
fn leading_slash_is_ignored() {
    assert_eq!(parse_barg("/2:max").unwrap(), arg(BScope::Index(2), BAction::Assign, Some(100)));
    assert_eq!(parse_barg("/").unwrap(), arg(BScope::Global, BAction::Get, None));
}

#[test]
fn star_scope_with_value() {
    assert_eq!(parse_barg("*:50").unwrap(), arg(BScope::Global, BAction::Assign, Some(50)));
    assert_eq!(parse_barg("all:min").unwrap(), arg(BScope::Global, BAction::Assign, Some(0)));
}

#[test]
fn ratio_with_scope_and_percent() {
    assert_eq!(parse_barg("2:75/3%").unwrap(), arg(BScope::Index(2), BAction::Assign, Some(100)));
    assert_eq!(parse_barg("2:75/3").unwrap(), arg(BScope::Index(2), BAction::Assign, Some(25)));
}

#[test]
fn grammar_mismatch_is_reported_with_the_token() {
    let e = parse_barg("abc").unwrap_err();
    assert_eq!(e.kind, ParseErrorKind::GrammarMismatch);
    assert_eq!(e.text, "abc");
    assert_eq!(e.message(), "Input `abc` is not a valid brightness argument");
    assert!(parse_barg(":5").is_err());
    assert!(parse_barg("+").is_err());
    assert!(parse_barg("5%%").is_err());
    assert!(parse_barg("min%").is_err());
    assert!(parse_barg("5/").is_err());
    assert!(parse_barg("1:2:3").is_err());
}

#[test]
fn oversized_numbers_are_errors() {
    let e = parse_barg("99999999999999999999999999").unwrap_err();
    assert_eq!(e.kind, ParseErrorKind::BrightnessTooBig);
    let e = parse_barg("99999999999999999999999999:5").unwrap_err();
    assert_eq!(e.kind, ParseErrorKind::IndexTooBig);
    let e = parse_barg("5/99999999999999999999999999").unwrap_err();
    assert_eq!(e.kind, ParseErrorKind::DenominatorTooBig);
}

#[test]
fn percentage_overflow_is_an_error() {
    let max = usize::MAX;
    let tok = format!("{}/3%", max);
    let e = parse_barg(&tok).unwrap_err();
    assert_eq!(e.kind, ParseErrorKind::BrightnessTooBig);
}

#[test]
fn duplicate_indexed_setter_is_dropped() {
    let tokens = vec!["1:50".to_string(), "1:60".to_string()];
    let b = parse_bargs(Some(&tokens)).unwrap();
    assert_eq!(b.setters.len(), 1);
    assert_eq!(b.setters[0], arg(BScope::Index(1), BAction::Assign, Some(50)));
    assert!(b.getters.is_none());
}

#[test]
fn global_setter_moves_last() {
    let tokens = vec!["*:max".to_string(), "2:20".to_string()];
    let b = parse_bargs(Some(&tokens)).unwrap();
    assert_eq!(b.setters.len(), 2);
    assert_eq!(b.setters[0], arg(BScope::Index(2), BAction::Assign, Some(20)));
    assert_eq!(b.setters[1], arg(BScope::Global, BAction::Assign, Some(100)));
}

#[test]
fn second_global_setter_is_dropped() {
    let tokens = vec!["*:10".to_string(), "*:20".to_string(), "1:30".to_string()];
    let b = parse_bargs(Some(&tokens)).unwrap();
    assert_eq!(b.setters.len(), 2);
    assert_eq!(b.setters[0], arg(BScope::Index(1), BAction::Assign, Some(30)));
    assert_eq!(b.setters[1], arg(BScope::Global, BAction::Assign, Some(10)));
}

#[test]
fn global_getter_swallows_indexed_getters() {
    let tokens = vec!["1:".to_string(), "*:".to_string(), "2:".to_string()];
    let b = parse_bargs(Some(&tokens)).unwrap();
    assert!(matches!(b.getters, Some(Getter::Global)));
}

#[test]
fn indexed_getters_deduplicate_in_order() {
    let tokens = vec!["2:".to_string(), "1:".to_string(), "2:".to_string()];
    let b = parse_bargs(Some(&tokens)).unwrap();
    match b.getters {
        Some(Getter::Many(v)) => {
            assert_eq!(v, vec![BScope::Index(2), BScope::Index(1)]);
        }
        other => panic!("expected an index list, got {:?}", other),
    }
}

#[test]
fn no_tokens_means_query_everything() {
    let b = parse_bargs(None).unwrap();
    assert!(matches!(b.getters, Some(Getter::Global)));
    assert!(b.setters.is_empty());
}

#[test]
fn first_bad_token_aborts_the_list() {
    let tokens = vec!["1:50".to_string(), "bad".to_string(), "also bad".to_string()];
    let e = parse_bargs(Some(&tokens)).unwrap_err();
    assert_eq!(e.kind, ParseErrorKind::GrammarMismatch);
    assert_eq!(e.text, "bad");
}

#[test]
fn canonical_text_round_trips() {
    let cases = vec![
        arg(BScope::Global, BAction::Get, None),
        arg(BScope::Index(3), BAction::Get, None),
        arg(BScope::Global, BAction::Assign, Some(50)),
        arg(BScope::Index(1), BAction::Inc, Some(100)),
        arg(BScope::Index(18446744073709551615), BAction::Dec, Some(0)),
    ];
    for a in cases {
        let text = a.to_string();
        assert_eq!(parse_barg(&text).unwrap(), a);
    }
}

#[test]
fn canonical_text_shapes() {
    assert_eq!(arg(BScope::Global, BAction::Assign, Some(50)).to_string(), "*:50");
    assert_eq!(arg(BScope::Index(2), BAction::Inc, Some(10)).to_string(), "2:+10");
    assert_eq!(arg(BScope::Index(1), BAction::Dec, Some(5)).to_string(), "1:-5");
    assert_eq!(arg(BScope::Global, BAction::Get, None).to_string(), "*:");
    assert_eq!(BScope::Index(7).to_string(), "7");
    assert_eq!(BScope::Global.to_string(), "*");
    assert_eq!(BAction::Inc.prefix_str(), "+");
    assert_eq!(BAction::Dec.prefix_str(), "-");
    assert_eq!(BAction::Assign.prefix_str(), "");
}

#[test]
fn matcher_exposes_named_captures() {
    let token = "2:75/3%";
    let chars = str_to_chars(token);
    let caps = match_barg(&chars).unwrap();
    assert_eq!(caps.scope, Some((0, 1)));
    assert_eq!(caps.action, None);
    assert_eq!(caps.brightness, Some((2, 4)));
    assert_eq!(caps.denominator, Some((5, 6)));
    assert!(caps.percentage);
    assert!(!caps.min_kw && !caps.max_kw);
    let resolved = parse_barg_from_captures(token, &chars, &caps).unwrap();
    assert_eq!(resolved, arg(BScope::Index(2), BAction::Assign, Some(100)));
}

#[test]
fn matcher_rejects_what_the_grammar_excludes() {
    assert!(match_barg(&str_to_chars("5//6")).is_none());
    assert!(match_barg(&str_to_chars("minmax")).is_none());
    assert!(match_barg(&str_to_chars("all")).is_none());
    assert!(match_barg(&str_to_chars("*")).is_none());
    assert!(match_barg(&str_to_chars("-")).is_none());
}

#[test]
fn scope_text_parses_on_its_own() {
    assert_eq!(BScope::from_text("*").unwrap(), BScope::Global);
    assert_eq!(BScope::from_text(" ALL ").unwrap(), BScope::Global);
    assert_eq!(BScope::from_text("12").unwrap(), BScope::Index(12));
    assert_eq!(BScope::from_text("+3").unwrap(), BScope::Index(3));
    let e = BScope::from_text("two").unwrap_err();
    assert_eq!(e.kind, ParseErrorKind::IndexInvalid);
    assert_eq!(e.message(), "Index `two` is not a number");
    let e = BScope::from_text("99999999999999999999999999").unwrap_err();
    assert_eq!(e.kind, ParseErrorKind::IndexTooBig);
}

#[test]
fn resolver_pieces_work_on_raw_text() {
    assert_eq!(parse_brightness_value_from_str("150", false).unwrap(), 100);
    assert_eq!(parse_brightness_value_from_str("150", true).unwrap(), 150);
    assert_eq!(parse_brightness_value_from_str("+42", false).unwrap(), 42);
    let e = parse_brightness_value_from_str("nope", false).unwrap_err();
    assert_eq!(e.kind, ParseErrorKind::BrightnessInvalid);
    assert_eq!(e.message(), "Brightness value `nope` is not valid");

    assert_eq!(parse_denominator_value_from_str("4").unwrap(), Some(4));
    let e = parse_denominator_value_from_str("x").unwrap_err();
    assert_eq!(e.kind, ParseErrorKind::DenominatorInvalid);
    assert_eq!(e.message(), "Denominator value `x` is not valid");

    assert_eq!(calculate_final_value(50, None, false).unwrap(), 50);
    assert_eq!(calculate_final_value(50, Some(2), false).unwrap(), 25);
    assert_eq!(calculate_final_value(50, Some(2), true).unwrap(), 100);
    assert_eq!(calculate_final_value(0, Some(5), true).unwrap(), 0);
    let e = calculate_final_value(50, Some(0), true).unwrap_err();
    assert_eq!(e.kind, ParseErrorKind::DivisionByZero);
}

#[test]
fn error_messages_name_the_substring() {
    let e = parse_barg("99999999999999999999999999:5").unwrap_err();
    assert_eq!(e.message(), "Index `99999999999999999999999999` is too big");
    let e = parse_barg("10/0").unwrap_err();
    assert_eq!(e.message(), "Denominator value is `0`, cannot divide by zero");
}
