use stylex_evaluate::fold::{
    greatest_of, joined, lists, Bounds, Ceilings, Decline, Depth, Elements, EntryAmplifier,
    Repeats, Totals,
};
use stylex_evaluate::growable_stack::{carriable, claim_for};
use stylex_evaluate::helpers::{
    evaluate_result_vec_to_array_expr, function_fold_to_object, normalize_js_object_method_args,
    normalize_js_object_method_nested_vector_arg, ObjectMethodReceiver, OwnKeysQuestion,
};
use stylex_evaluate::messages::{decimal, expression_too_deep, grown_string_too_large};
use stylex_evaluate::state::DEEPEST_CARRIED;
use stylex_evaluate::syntax::{Elem, Expr, Lit, Prop, PropName};
use stylex_evaluate::text::{units_within, utf16_length};
use stylex_evaluate::value::{EvaluateResultValue, FunctionConfig, FunctionConfigEntry};

fn s(text: &str) -> EvaluateResultValue {
    EvaluateResultValue::Expr(Expr::Lit(Lit::Str(text.to_string())))
}

fn keys_of(props: &[Prop]) -> Vec<String> {
    props
        .iter()
        .map(|p| match p {
            Prop::KeyValue(PropName::Ident(k), _) => k.clone(),
            _ => "?".to_string(),
        })
        .collect()
}

#[test]
fn totals_refuse_past_the_ceiling_and_saturate() {
    let mut totals = Totals::new(Ceilings { characters: 10, entries: 2 });
    assert_eq!(totals.count_characters(6), Ok(()));
    assert_eq!(totals.count_characters(4), Ok(()));
    assert_eq!(totals.count_characters(1), Err(10));
    assert_eq!(totals.count_entries(2), Ok(()));
    assert_eq!(totals.count_entries(u64::MAX), Err(2));
    assert_eq!(totals.entries, u64::MAX);
}

#[test]
fn depth_descends_to_zero_and_then_refuses() {
    let depth = Depth::full(1);
    let one_down = match depth.descend() {
        Ok(d) => d,
        Err(_) => panic!("one level was left"),
    };
    assert_eq!(one_down.left, 0);
    match one_down.descend() {
        Err(Decline::Rule(reason)) => assert_eq!(reason, "The expression nests more than 1 levels deep."),
        _ => panic!("no level was left"),
    }
    assert_eq!(one_down.restart().left, 1);
}

#[test]
fn repeats_multiply_per_element_and_stay_unmeasured() {
    match Repeats::Times(3).per_element(4) {
        Repeats::Times(t) => assert_eq!(t, 12),
        Repeats::Unmeasured => panic!("a count stays a count"),
    }
    match Repeats::Times(u64::MAX).per_element(2) {
        Repeats::Times(t) => assert_eq!(t, u64::MAX),
        Repeats::Unmeasured => panic!("a count stays a count"),
    }
    assert!(matches!(Repeats::Unmeasured.per_element(5), Repeats::Unmeasured));
    match Repeats::Unmeasured.counted("string", "repeat") {
        Err(Decline::Rule(reason)) => {
            assert_eq!(reason, "The string built by repeat inside a callback cannot be measured.")
        },
        _ => panic!("an unmeasured count is refused"),
    }
    assert!(matches!(Repeats::Times(7).counted("a", "b"), Ok(7)));
}

#[test]
fn elements_hold_the_index_first_and_the_element_names_next() {
    let element = Bounds { characters: Some(3), magnitude: None };
    let index = Bounds { characters: None, magnitude: Some(9) };
    let elements = Elements { element_names: (2, 5), element, index: Some((7, index)) };
    assert_eq!(elements.holding(7).and_then(|b| b.magnitude), Some(9));
    assert_eq!(elements.holding(3).and_then(|b| b.characters), Some(3));
    assert!(elements.holding(5).is_none());
}

#[test]
fn lists_and_widths() {
    assert!(lists(&["a", "b"], "b"));
    assert!(!lists(&["a", "b"], "c"));
    assert_eq!(greatest_of(&vec![Some(3), Some(9), Some(4)]), Some(9));
    assert_eq!(greatest_of(&vec![Some(3), None]), None);
    assert_eq!(joined(3, &vec![Some(1), Some(2), Some(3)]), Some(8));
    assert_eq!(joined(0, &vec![]), Some(0));
    assert_eq!(joined(2, &vec![Some(1), None]), None);
}

#[test]
fn the_amplifiers_are_array_and_array_from() {
    assert!(matches!(EntryAmplifier::named("Array", None), Some(EntryAmplifier::Constructor)));
    assert!(matches!(EntryAmplifier::named("Array", Some("from")), Some(EntryAmplifier::From)));
    assert!(EntryAmplifier::named("Array", Some("of")).is_none());
    assert!(EntryAmplifier::named("String", None).is_none());
    assert_eq!(EntryAmplifier::From.name(), "Array.from");
    assert_eq!(EntryAmplifier::Constructor.name(), "Array");
}

#[test]
fn the_stack_claim_is_per_level() {
    assert!(carriable(DEEPEST_CARRIED));
    assert!(!carriable(DEEPEST_CARRIED + 1));
    assert_eq!(claim_for(2), 131072);
    assert_eq!(claim_for(DEEPEST_CARRIED), 512 * 1024 * 1024);
}

#[test]
fn lengths_are_counted_in_utf16_units() {
    assert_eq!(utf16_length("abc"), 3);
    assert_eq!(utf16_length("\u{1F600}"), 2);
    assert_eq!(units_within(2, "ab", 4), Some(4));
    assert_eq!(units_within(2, "abc", 4), None);
    assert_eq!(units_within(usize::MAX, "a", usize::MAX), Some(usize::MAX));
}

#[test]
fn the_sentences_name_their_numbers() {
    assert_eq!(decimal(0), "0");
    assert_eq!(decimal(8192), "8192");
    assert_eq!(expression_too_deep(12), "The expression nests more than 12 levels deep.");
    assert_eq!(
        grown_string_too_large("template literal", 5),
        "The template literal builds a string longer than 5 characters."
    );
}

#[test]
fn an_evaluated_array_is_written_back_as_an_array_literal() {
    let items = vec![s("a"), EvaluateResultValue::Vec(vec![s("b")])];
    match evaluate_result_vec_to_array_expr(&items) {
        Some(Expr::Array(elems)) => {
            assert_eq!(elems.len(), 2);
            assert!(matches!(&elems[1], Elem::Expr(Expr::Array(_))));
        },
        _ => panic!("expected an array literal"),
    }
    assert!(evaluate_result_vec_to_array_expr(&vec![EvaluateResultValue::Null]).is_none());
    assert!(evaluate_result_vec_to_array_expr(&vec![EvaluateResultValue::Callback("f".to_string())]).is_none());
}

#[test]
fn a_function_fold_reads_as_an_object_of_its_functions() {
    let map = EvaluateResultValue::FunctionConfigMap(vec![
        FunctionConfigEntry {
            key: "create".to_string(),
            config: FunctionConfig { is_marker: false, marker_keys: Vec::new() },
        },
        FunctionConfigEntry {
            key: "when".to_string(),
            config: FunctionConfig {
                is_marker: true,
                marker_keys: vec!["ancestor".to_string(), "sibling".to_string()],
            },
        },
    ]);
    let props = function_fold_to_object(&map).expect("a function map has an object form");
    assert_eq!(keys_of(&props), vec!["create", "when"]);
    match &props[1] {
        Prop::KeyValue(_, Expr::Object(inner)) => assert_eq!(keys_of(inner), vec!["ancestor", "sibling"]),
        _ => panic!("expected the markers"),
    }
    match &props[0] {
        Prop::KeyValue(_, Expr::Object(inner)) => assert_eq!(keys_of(inner), vec!["fn"]),
        _ => panic!("expected the wrapper"),
    }
    assert!(function_fold_to_object(&s("x")).is_none());
}

#[test]
fn an_argument_reads_as_an_object_by_position() {
    let args = normalize_js_object_method_args(Some(s("hi"))).expect("a string has characters");
    assert_eq!(keys_of(&args), vec!["0", "1"]);
    let arr = EvaluateResultValue::Vec(vec![
        s("a"),
        EvaluateResultValue::Null,
        EvaluateResultValue::Vec(vec![s("b"), EvaluateResultValue::Null]),
        s("c"),
    ]);
    let props = normalize_js_object_method_args(Some(arr)).expect("an array has elements");
    assert_eq!(keys_of(&props), vec!["0", "3"]);
    assert!(normalize_js_object_method_args(None).is_none());
    let nested = vec![EvaluateResultValue::Vec(vec![s("x"), EvaluateResultValue::Null]), s("y")];
    match normalize_js_object_method_nested_vector_arg(&nested) {
        Some(Expr::Array(elems)) => assert_eq!(elems.len(), 2),
        _ => panic!("expected an array literal"),
    }
}

#[test]
fn the_own_keys_questions_read_keys_values_and_entries() {
    assert!(matches!(OwnKeysQuestion::try_from("keys"), Some(OwnKeysQuestion::Keys)));
    assert!(matches!(OwnKeysQuestion::try_from("entries"), Some(OwnKeysQuestion::Entries)));
    assert!(OwnKeysQuestion::try_from("assign").is_none());
    let props = vec![Prop::KeyValue(PropName::Str("a".to_string()), Expr::Lit(Lit::Num("1".to_string())))];
    match ObjectMethodReceiver::Object(props).own_keys(OwnKeysQuestion::Entries) {
        Ok(Expr::Array(pairs)) => {
            assert_eq!(pairs.len(), 1);
            assert!(matches!(&pairs[0], Elem::Expr(Expr::Array(pair)) if pair.len() == 2));
        },
        _ => panic!("expected the entries"),
    }
    assert_eq!(
        ObjectMethodReceiver::Unreadable.own_keys(OwnKeysQuestion::Keys).err(),
        Some("An array element has no value that can be written.")
    );
    let spread = vec![Prop::Spread(Expr::Lit(Lit::Null))];
    assert_eq!(
        ObjectMethodReceiver::Object(spread).own_keys(OwnKeysQuestion::Values).err(),
        Some("The spread operator is not supported here.")
    );
}
