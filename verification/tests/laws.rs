use stylex_evaluate::evaluator::evaluate;
use stylex_evaluate::fold::{speculate, Decline, Depth};
use stylex_evaluate::syntax::MemberProp;
use stylex_evaluate::grown::GrownString;
use stylex_evaluate::helpers::{ObjectMethodReceiver, OwnKeysQuestion};
use stylex_evaluate::state::{EvaluationState, FunctionMap, NamedValue, StateManager};
use stylex_evaluate::syntax::{BinaryOp, Elem, Expr, Ident, Lit, Prop, PropName, Span, UnaryOp};
use stylex_evaluate::value::{EvaluateResultValue, FunctionConfig, FunctionConfigEntry};

fn name(n: &str) -> Expr {
    Expr::Ident(Ident { sym: n.to_string(), ctxt: 0, span: Span { lo: 0, hi: 0 } })
}

fn s(text: &str) -> Expr {
    Expr::Lit(Lit::Str(text.to_string()))
}

fn no_functions() -> FunctionMap {
    FunctionMap { identifiers: Vec::new(), disable_imports: false }
}

fn text_of(value: &Option<EvaluateResultValue>) -> Option<String> {
    match value {
        Some(EvaluateResultValue::Expr(Expr::Lit(Lit::Str(t)))) => Some(t.clone()),
        _ => None,
    }
}

#[test]
fn the_first_refusal_is_the_one_reported() {
    let mut state = StateManager::default();
    let e = Expr::Array(vec![
        Elem::Expr(name("first")),
        Elem::Expr(Expr::Lit(Lit::BigInt("1".to_string()))),
    ]);
    let r = evaluate(&e, &mut state, &no_functions());
    assert!(!r.confident);
    assert_eq!(r.reason.as_deref(), Some("Referenced constant is not defined."));
}

#[test]
fn an_evaluation_leaves_the_depth_where_it_found_it() {
    let mut state = StateManager::default();
    let e = Expr::Array(vec![Elem::Expr(Expr::Array(vec![Elem::Expr(s("a"))]))]);
    assert!(evaluate(&e, &mut state, &no_functions()).confident);
    assert_eq!(state.evaluation_depth, 0);
    assert!(!state.speculating);
}

#[test]
fn a_nullish_value_is_falsy() {
    let mut state = StateManager::default();
    let e = Expr::Bin(BinaryOp::LogicalOr, Box::new(Expr::Lit(Lit::Null)), Box::new(s("x")));
    assert_eq!(text_of(&evaluate(&e, &mut state, &no_functions()).value).as_deref(), Some("x"));
    let e = Expr::Bin(BinaryOp::LogicalOr, Box::new(name("undefined")), Box::new(s("y")));
    assert_eq!(text_of(&evaluate(&e, &mut state, &no_functions()).value).as_deref(), Some("y"));
}

#[test]
fn a_function_map_is_an_object_to_both_coercions() {
    let mut state = StateManager::default();
    let fns = FunctionMap {
        identifiers: vec![NamedValue {
            name: "stylex".to_string(),
            value: EvaluateResultValue::FunctionConfigMap(vec![FunctionConfigEntry {
                key: "create".to_string(),
                config: FunctionConfig { is_marker: false, marker_keys: Vec::new() },
            }]),
        }],
        disable_imports: false,
    };
    let interpolated = Expr::Tpl(vec!["".to_string(), "".to_string()], vec![name("stylex")]);
    assert_eq!(
        text_of(&evaluate(&interpolated, &mut state, &fns).value).as_deref(),
        Some("[object Object]")
    );
    let kind = Expr::Unary(UnaryOp::TypeOf, Box::new(name("stylex")));
    assert_eq!(text_of(&evaluate(&kind, &mut state, &fns).value).as_deref(), Some("object"));
}

#[test]
fn the_own_keys_questions_answer_lists_of_one_length() {
    let props = || {
        vec![
            Prop::KeyValue(PropName::Ident("a".to_string()), s("x")),
            Prop::KeyValue(PropName::Num("2".to_string()), s("y")),
        ]
    };
    let length = |q| match ObjectMethodReceiver::Object(props()).own_keys(q) {
        Ok(Expr::Array(items)) => items.len(),
        _ => usize::MAX,
    };
    assert_eq!(length(OwnKeysQuestion::Keys), 2);
    assert_eq!(length(OwnKeysQuestion::Values), 2);
    assert_eq!(length(OwnKeysQuestion::Entries), 2);
}

#[test]
fn growth_is_measured_in_total() {
    let mut state = StateManager::default();
    state.character_ceiling = 4;
    let fits = Expr::Tpl(vec!["ab".to_string(), "".to_string()], vec![s("cd")]);
    assert_eq!(text_of(&evaluate(&fits, &mut state, &no_functions()).value).as_deref(), Some("abcd"));
    let passes = Expr::Tpl(vec!["ab".to_string(), "".to_string()], vec![s("cde")]);
    assert!(!evaluate(&passes, &mut state, &no_functions()).confident);
}

#[test]
fn a_grown_string_starts_empty() {
    let grown = GrownString::with_capacity(64, "template literal");
    assert_eq!(grown.into_text(), "");
}

#[test]
fn a_speculative_read_puts_the_evaluation_back() {
    let mut traversal_state = StateManager::default();
    let mut state = EvaluationState {
        confident: true,
        deopt_path: None,
        deopt_reason: None,
        added_imports: Vec::new(),
        functions: no_functions(),
    };
    let refused = speculate(&name("missing"), &mut state, &mut traversal_state, &no_functions());
    assert!(refused.is_none());
    assert!(state.confident);
    assert!(state.deopt_reason.is_none());
    assert!(!traversal_state.speculating);
    let read = speculate(&s("ok"), &mut state, &mut traversal_state, &no_functions());
    assert_eq!(text_of(&read).as_deref(), Some("ok"));
    let missing_again = evaluate(&name("missing"), &mut traversal_state, &no_functions());
    assert_eq!(missing_again.reason.as_deref(), Some("Referenced constant is not defined."));
}

#[test]
fn a_fold_is_answered_from_the_memo_the_next_time() {
    let mut state = StateManager::default();
    let e = Expr::Array(vec![Elem::Expr(s("a")), Elem::Expr(s("b"))]);
    let first = evaluate(&e, &mut state, &no_functions());
    assert!(first.confident);
    let remembered = state.seen.len();
    assert!(remembered > 0);
    let again = evaluate(&e, &mut state, &no_functions());
    assert!(again.confident);
    assert_eq!(state.seen.len(), remembered);
    match (&first.value, &again.value) {
        (Some(EvaluateResultValue::Vec(a)), Some(EvaluateResultValue::Vec(b))) => {
            assert_eq!(a.len(), 2);
            assert_eq!(b.len(), 2);
            assert_eq!(text_of(&Some(copy_of(&b[1]))).as_deref(), Some("b"));
        },
        _ => panic!("an array was expected"),
    }
}

fn copy_of(v: &EvaluateResultValue) -> EvaluateResultValue {
    match v {
        EvaluateResultValue::Expr(Expr::Lit(Lit::Str(t))) => EvaluateResultValue::Expr(s(t)),
        _ => EvaluateResultValue::Null,
    }
}

#[test]
fn an_owned_refusal_is_remembered() {
    let mut state = StateManager::default();
    let first = evaluate(&name("missing"), &mut state, &no_functions());
    assert_eq!(first.reason.as_deref(), Some("Referenced constant is not defined."));
    let again = evaluate(&name("missing"), &mut state, &no_functions());
    assert!(!again.confident);
    assert_eq!(
        again.reason.as_deref(),
        Some("Unexpected error: could not resolve the code being evaluated.")
    );
}

#[test]
fn a_ceiling_allows_that_many_descents() {
    let mut d = Depth::full(3);
    for left in [2usize, 1, 0] {
        d = match d.descend() {
            Ok(next) => next,
            Err(_) => panic!("a level was left"),
        };
        assert_eq!(d.left, left);
        assert_eq!(d.ceiling, 3);
    }
    match d.descend() {
        Err(Decline::Rule(reason)) => {
            assert_eq!(reason, "The expression nests more than 3 levels deep.")
        },
        _ => panic!("the fourth descent is refused"),
    }
}

#[test]
fn a_name_the_function_map_answers_is_its_value() {
    let mut state = StateManager::default();
    let fns = FunctionMap {
        identifiers: vec![NamedValue { name: "color".to_string(), value: EvaluateResultValue::Expr(s("red")) }],
        disable_imports: false,
    };
    let r = evaluate(&Expr::Paren(Box::new(name("color"))), &mut state, &fns);
    assert!(r.confident);
    assert_eq!(text_of(&r.value).as_deref(), Some("red"));
}

#[test]
fn a_spread_argument_refuses_the_call() {
    let mut state = StateManager::default();
    let join = Expr::Member(
        Box::new(Expr::Array(vec![Elem::Expr(s("a"))])),
        MemberProp::Ident("join".to_string()),
    );
    let call = Expr::Call(Box::new(join), vec![Elem::Spread(Expr::Array(vec![Elem::Expr(s(","))]))]);
    let r = evaluate(&call, &mut state, &no_functions());
    assert!(!r.confident);
    assert_eq!(r.reason.as_deref(), Some("Unsupported expression: SpreadElement"));
    assert!(matches!(r.deopt, Some(Expr::Call(_, _))));
}

#[test]
fn typeof_null_is_object_and_stays_confident() {
    let mut state = StateManager::default();
    let r = evaluate(&Expr::Unary(UnaryOp::TypeOf, Box::new(Expr::Lit(Lit::Null))), &mut state, &no_functions());
    assert!(r.confident);
    assert!(r.deopt.is_none());
    assert!(r.reason.is_none());
    assert_eq!(text_of(&r.value).as_deref(), Some("object"));
}

#[test]
fn a_refused_name_is_reported_where_it_was_written() {
    let mut state = StateManager::default();
    let written = Expr::Ident(Ident { sym: "missing".to_string(), ctxt: 0, span: Span { lo: 12, hi: 19 } });
    let r = evaluate(&Expr::Paren(Box::new(written)), &mut state, &no_functions());
    assert!(!r.confident);
    assert_eq!(r.reason.as_deref(), Some("Referenced constant is not defined."));
    match r.deopt {
        Some(Expr::Ident(i)) => {
            assert_eq!(i.sym, "missing");
            assert_eq!(i.span.lo, 12);
            assert_eq!(i.span.hi, 19);
        },
        _ => panic!("the name itself is reported"),
    }
}
