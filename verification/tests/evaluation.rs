use stylex_evaluate::evaluator::{evaluate, EvaluateResult};
use stylex_evaluate::state::{
    BindingId, FunctionMap, ImportBinding, ImportKind, NamedValue, Resolution, StateManager,
    VarDeclarator,
};
use stylex_evaluate::syntax::{
    BinaryOp, Elem, Expr, Ident, Lit, MemberProp, Prop, PropName, Span, UnaryOp,
};
use stylex_evaluate::value::{EnvEntry, EvaluateResultValue, FunctionConfig, FunctionConfigEntry};

fn nowhere() -> Span {
    Span { lo: 0, hi: 0 }
}

fn at(lo: u32, hi: u32) -> Span {
    Span { lo, hi }
}

fn ident(name: &str) -> Ident {
    Ident { sym: name.to_string(), ctxt: 0, span: nowhere() }
}

fn name(n: &str) -> Expr {
    Expr::Ident(ident(n))
}

fn name_at(n: &str, lo: u32, hi: u32) -> Expr {
    Expr::Ident(Ident { sym: n.to_string(), ctxt: 0, span: at(lo, hi) })
}

fn s(text: &str) -> Expr {
    Expr::Lit(Lit::Str(text.to_string()))
}

fn n(text: &str) -> Expr {
    Expr::Lit(Lit::Num(text.to_string()))
}

fn b(v: bool) -> Expr {
    Expr::Lit(Lit::Bool(v))
}

fn null() -> Expr {
    Expr::Lit(Lit::Null)
}

fn array(items: Vec<Expr>) -> Expr {
    Expr::Array(items.into_iter().map(Elem::Expr).collect())
}

fn object(entries: Vec<(&str, Expr)>) -> Expr {
    Expr::Object(
        entries
            .into_iter()
            .map(|(k, v)| Prop::KeyValue(PropName::Ident(k.to_string()), v))
            .collect(),
    )
}

fn member(obj: Expr, prop: &str) -> Expr {
    Expr::Member(Box::new(obj), MemberProp::Ident(prop.to_string()))
}

fn index(obj: Expr, key: Expr) -> Expr {
    Expr::Member(Box::new(obj), MemberProp::Computed(Box::new(key)))
}

fn bin(op: BinaryOp, a: Expr, b: Expr) -> Expr {
    Expr::Bin(op, Box::new(a), Box::new(b))
}

fn unary(op: UnaryOp, a: Expr) -> Expr {
    Expr::Unary(op, Box::new(a))
}

fn call(callee: Expr, args: Vec<Expr>) -> Expr {
    Expr::Call(Box::new(callee), args.into_iter().map(Elem::Expr).collect())
}

fn no_functions() -> FunctionMap {
    FunctionMap { identifiers: Vec::new(), disable_imports: false }
}

fn module() -> StateManager {
    StateManager::default()
}

fn declare(state: &mut StateManager, n: &str, init: Option<Expr>, span: Span) {
    state.declared_bindings.push(BindingId { sym: n.to_string(), ctxt: 0 });
    state.declarations.push(VarDeclarator { name: ident(n), init, span });
}

fn run(path: &Expr, state: &mut StateManager) -> Box<EvaluateResult> {
    evaluate(path, state, &no_functions())
}

fn text_of(r: &EvaluateResult) -> Option<String> {
    match &r.value {
        Some(EvaluateResultValue::Expr(Expr::Lit(Lit::Str(t)))) => Some(t.clone()),
        _ => None,
    }
}

fn number_of(r: &EvaluateResult) -> Option<String> {
    match &r.value {
        Some(EvaluateResultValue::Expr(Expr::Lit(Lit::Num(t)))) => Some(t.clone()),
        _ => None,
    }
}

fn bool_of(r: &EvaluateResult) -> Option<bool> {
    match &r.value {
        Some(EvaluateResultValue::Expr(Expr::Lit(Lit::Bool(v)))) => Some(*v),
        _ => None,
    }
}

fn is_undefined(r: &EvaluateResult) -> bool {
    matches!(&r.value, Some(EvaluateResultValue::Expr(Expr::Ident(i))) if i.sym == "undefined")
}

fn refused_for(r: &EvaluateResult, reason: &str) -> bool {
    !r.confident && r.value.is_none() && r.reason.as_deref() == Some(reason) && r.deopt.is_some()
}

fn string_list(e: &Expr) -> Vec<String> {
    match e {
        Expr::Array(elems) => elems
            .iter()
            .map(|el| match el {
                Elem::Expr(Expr::Lit(Lit::Str(t))) => t.clone(),
                Elem::Expr(Expr::Lit(Lit::Num(t))) => t.clone(),
                _ => "?".to_string(),
            })
            .collect(),
        _ => Vec::new(),
    }
}

#[test]
fn a_literal_evaluates_to_itself() {
    let mut state = module();
    assert_eq!(text_of(&run(&s("red"), &mut state)).as_deref(), Some("red"));
    assert_eq!(number_of(&run(&n("1.5"), &mut state)).as_deref(), Some("1.5"));
    assert_eq!(bool_of(&run(&b(true), &mut state)), Some(true));
    let r = run(&null(), &mut state);
    assert!(r.confident);
    assert!(matches!(r.value, Some(EvaluateResultValue::Expr(Expr::Lit(Lit::Null)))));
}

#[test]
fn a_big_int_and_a_regular_expression_are_refused() {
    let mut state = module();
    let r = run(&Expr::Lit(Lit::BigInt("1".to_string())), &mut state);
    assert!(refused_for(&r, "Unsupported expression: BigIntLiteral"));
    let r = run(&Expr::Lit(Lit::Regex("a".to_string())), &mut state);
    assert!(refused_for(&r, "Unsupported expression: RegExpLiteral"));
}

#[test]
fn parentheses_and_type_wrappers_are_read_through() {
    let mut state = module();
    let e = Expr::Paren(Box::new(Expr::TsWrap(Box::new(s("x")))));
    assert_eq!(text_of(&run(&e, &mut state)).as_deref(), Some("x"));
}

#[test]
fn an_array_keeps_its_holes_as_absent_values() {
    let mut state = module();
    let e = Expr::Array(vec![Elem::Expr(n("1")), Elem::Hole, Elem::Expr(s("a"))]);
    let r = run(&e, &mut state);
    match &r.value {
        Some(EvaluateResultValue::Vec(items)) => {
            assert_eq!(items.len(), 3);
            assert!(matches!(items[1], EvaluateResultValue::Null));
        },
        _ => panic!("expected an array"),
    }
}

#[test]
fn a_spread_in_an_array_is_refused() {
    let mut state = module();
    let e = Expr::Array(vec![Elem::Spread(array(vec![n("1")]))]);
    assert!(refused_for(&run(&e, &mut state), "Unsupported expression: SpreadElement"));
}

#[test]
fn a_repeated_key_keeps_its_place_and_takes_the_later_value() {
    let mut state = module();
    let e = object(vec![("a", n("1")), ("b", s("x")), ("a", n("2"))]);
    let r = run(&e, &mut state);
    match &r.value {
        Some(EvaluateResultValue::Expr(Expr::Object(props))) => {
            assert_eq!(props.len(), 2);
            match &props[0] {
                Prop::KeyValue(PropName::Ident(k), Expr::Lit(Lit::Num(v))) => {
                    assert_eq!(k, "a");
                    assert_eq!(v, "2");
                },
                _ => panic!("expected a first key a"),
            }
        },
        _ => panic!("expected an object"),
    }
}

#[test]
fn a_method_in_an_object_is_refused() {
    let mut state = module();
    let e = Expr::Object(vec![Prop::Method(PropName::Ident("m".to_string()))]);
    assert!(refused_for(&run(&e, &mut state), "Unsupported object method."));
}

#[test]
fn a_member_reads_an_object_key_and_misses_as_undefined() {
    let mut state = module();
    let o = object(vec![("color", s("red"))]);
    assert_eq!(text_of(&run(&member(o, "color"), &mut state)).as_deref(), Some("red"));
    let o = object(vec![("color", s("red"))]);
    assert!(is_undefined(&run(&member(o, "size"), &mut state)));
}

#[test]
fn a_member_reads_an_array_by_index_and_length() {
    let mut state = module();
    let a = array(vec![s("a"), s("b")]);
    assert_eq!(text_of(&run(&index(a, n("1")), &mut state)).as_deref(), Some("b"));
    let a = array(vec![s("a"), s("b")]);
    assert_eq!(number_of(&run(&member(a, "length"), &mut state)).as_deref(), Some("2"));
    let a = array(vec![s("a"), s("b")]);
    assert!(is_undefined(&run(&index(a, n("5")), &mut state)));
    let a = array(vec![s("a")]);
    assert!(refused_for(
        &run(&index(a, n("01")), &mut state),
        "The property being read could not be resolved."
    ));
}

#[test]
fn a_string_reports_its_length_in_utf16_units() {
    let mut state = module();
    let e = member(s("a\u{1F600}"), "length");
    assert_eq!(number_of(&run(&e, &mut state)).as_deref(), Some("3"));
}

#[test]
fn a_conditional_takes_the_branch_its_test_chooses() {
    let mut state = module();
    let e = Expr::Cond(Box::new(s("")), Box::new(s("yes")), Box::new(s("no")));
    assert_eq!(text_of(&run(&e, &mut state)).as_deref(), Some("no"));
    let e = Expr::Cond(Box::new(n("2")), Box::new(s("yes")), Box::new(s("no")));
    assert_eq!(text_of(&run(&e, &mut state)).as_deref(), Some("yes"));
}

#[test]
fn the_logical_operators_pick_an_operand() {
    let mut state = module();
    assert_eq!(
        text_of(&run(&bin(BinaryOp::Nullish, null(), s("fallback")), &mut state)).as_deref(),
        Some("fallback")
    );
    assert_eq!(
        text_of(&run(&bin(BinaryOp::LogicalOr, s(""), s("y")), &mut state)).as_deref(),
        Some("y")
    );
    assert_eq!(
        text_of(&run(&bin(BinaryOp::LogicalAnd, s("a"), s("b")), &mut state)).as_deref(),
        Some("b")
    );
    assert_eq!(
        number_of(&run(&bin(BinaryOp::LogicalAnd, n("0"), s("b")), &mut state)).as_deref(),
        Some("0")
    );
}

#[test]
fn the_unary_operators_fold_their_operand() {
    let mut state = module();
    assert_eq!(text_of(&run(&unary(UnaryOp::TypeOf, s("x")), &mut state)).as_deref(), Some("string"));
    assert_eq!(text_of(&run(&unary(UnaryOp::TypeOf, n("1")), &mut state)).as_deref(), Some("number"));
    assert_eq!(bool_of(&run(&unary(UnaryOp::Bang, n("0")), &mut state)), Some(true));
    assert!(is_undefined(&run(&unary(UnaryOp::Void, n("0")), &mut state)));
    assert_eq!(number_of(&run(&unary(UnaryOp::Minus, n("1")), &mut state)).as_deref(), Some("-1"));
    assert_eq!(number_of(&run(&unary(UnaryOp::Minus, n("-2")), &mut state)).as_deref(), Some("2"));
    assert_eq!(number_of(&run(&unary(UnaryOp::Minus, n("0")), &mut state)).as_deref(), Some("0"));
    assert_eq!(number_of(&run(&unary(UnaryOp::Plus, b(true)), &mut state)).as_deref(), Some("1"));
    assert!(refused_for(&run(&unary(UnaryOp::Tilde, n("1")), &mut state), "Unsupported operator: ~"));
}

#[test]
fn a_template_joins_its_quasis_and_values() {
    let mut state = module();
    let e = Expr::Tpl(vec!["a".to_string(), "b".to_string()], vec![n("1")]);
    assert_eq!(text_of(&run(&e, &mut state)).as_deref(), Some("a1b"));
    let e = Expr::Tpl(
        vec!["[".to_string(), "]".to_string()],
        vec![array(vec![n("1"), null(), s("x")])],
    );
    assert_eq!(text_of(&run(&e, &mut state)).as_deref(), Some("[1,,x]"));
}

#[test]
fn a_template_longer_than_the_ceiling_is_refused() {
    let mut state = module();
    state.character_ceiling = 3;
    let e = Expr::Tpl(vec!["ab".to_string(), "".to_string()], vec![s("cd")]);
    assert!(refused_for(
        &run(&e, &mut state),
        "The template literal builds a string longer than 3 characters."
    ));
}

#[test]
fn adding_a_string_concatenates_and_adding_numbers_is_refused() {
    let mut state = module();
    assert_eq!(
        text_of(&run(&bin(BinaryOp::Add, s("a"), n("1")), &mut state)).as_deref(),
        Some("a1")
    );
    assert_eq!(
        text_of(&run(&bin(BinaryOp::Add, null(), s("b")), &mut state)).as_deref(),
        Some("nullb")
    );
    assert!(refused_for(
        &run(&bin(BinaryOp::Add, n("1"), n("2")), &mut state),
        "Numeric arithmetic is not folded at compile time."
    ));
}

#[test]
fn strict_equality_compares_primitives() {
    let mut state = module();
    assert_eq!(bool_of(&run(&bin(BinaryOp::StrictEq, s("a"), s("a")), &mut state)), Some(true));
    assert_eq!(bool_of(&run(&bin(BinaryOp::StrictEq, n("NaN"), n("NaN")), &mut state)), Some(false));
    assert_eq!(bool_of(&run(&bin(BinaryOp::StrictNotEq, n("1"), s("1")), &mut state)), Some(true));
    assert!(refused_for(
        &run(&bin(BinaryOp::StrictEq, array(vec![]), array(vec![])), &mut state),
        "Only primitive values can be compared at compile time."
    ));
}

#[test]
fn a_constant_resolves_to_its_initializer() {
    let mut state = module();
    declare(&mut state, "color", Some(s("red")), at(10, 20));
    assert_eq!(text_of(&run(&name_at("color", 30, 35), &mut state)).as_deref(), Some("red"));
}

#[test]
fn a_reference_above_its_declarator_is_early() {
    let mut state = module();
    declare(&mut state, "color", Some(s("red")), at(10, 20));
    let r = run(&name_at("color", 5, 10), &mut state);
    assert!(refused_for(&r, "Referenced value is used before declaration."));
}

#[test]
fn a_synthesized_reference_is_never_early() {
    let mut state = module();
    declare(&mut state, "color", Some(s("red")), at(10, 20));
    assert_eq!(text_of(&run(&name("color"), &mut state)).as_deref(), Some("red"));
}

#[test]
fn a_reassigned_or_mutated_binding_is_not_a_constant() {
    let mut state = module();
    declare(&mut state, "a", Some(s("x")), nowhere());
    state.reassigned.push(BindingId { sym: "a".to_string(), ctxt: 0 });
    assert!(refused_for(&run(&name("a"), &mut state), "Referenced value is not a constant."));
    let mut state = module();
    declare(&mut state, "b", Some(s("x")), nowhere());
    state.mutated.push(BindingId { sym: "b".to_string(), ctxt: 0 });
    assert!(refused_for(&run(&name("b"), &mut state), "Referenced value is not a constant."));
}

#[test]
fn the_identifier_globals_are_their_values_unless_bound() {
    let mut state = module();
    assert!(is_undefined(&run(&name("undefined"), &mut state)));
    assert_eq!(number_of(&run(&name("NaN"), &mut state)).as_deref(), Some("NaN"));
    assert_eq!(number_of(&run(&name("Infinity"), &mut state)).as_deref(), Some("Infinity"));
    let mut state = module();
    state.declared_bindings.push(BindingId { sym: "NaN".to_string(), ctxt: 0 });
    assert!(refused_for(&run(&name("NaN"), &mut state), "Referenced constant is not initialized."));
}

#[test]
fn a_name_without_an_initializer_is_refused_for_its_declaration() {
    let mut state = module();
    state.class_name_declarations.push(ident("Widget"));
    let r = run(&name("Widget"), &mut state);
    assert!(refused_for(&r, "Unsupported expression: ClassDeclaration"));
    assert_eq!(state.framed_declaration.as_deref(), Some("Widget"));
    let mut state = module();
    state.function_name_declarations.push(ident("helper"));
    assert!(refused_for(&run(&name("helper"), &mut state), "Unsupported expression: FunctionDeclaration"));
    let mut state = module();
    assert!(refused_for(&run(&name("nothing"), &mut state), "Referenced constant is not defined."));
}

#[test]
fn an_import_resolves_to_a_theme_reference() {
    let mut state = module();
    state.treeshake_compensation = true;
    state.imports.push(ImportBinding {
        local: ident("vars"),
        source: "./tokens.stylex".to_string(),
        kind: ImportKind::Named(None),
    });
    state.resolutions.push(Resolution {
        source: "./tokens.stylex".to_string(),
        path: Some("/src/tokens.stylex.js".to_string()),
    });
    let r = run(&name("vars"), &mut state);
    match &r.value {
        Some(EvaluateResultValue::ThemeRef(t)) => {
            assert_eq!(t.file_name, "/src/tokens.stylex.js");
            assert_eq!(t.export_name, "vars");
            assert_eq!(t.class_name_prefix, "x");
        },
        _ => panic!("expected a theme reference"),
    }
    assert_eq!(state.theme_imports, vec!["./tokens.stylex".to_string()]);
}

#[test]
fn an_import_that_does_not_resolve_is_refused() {
    let mut state = module();
    state.imports.push(ImportBinding {
        local: ident("vars"),
        source: "./missing".to_string(),
        kind: ImportKind::Named(Some("tokens".to_string())),
    });
    assert!(refused_for(&run(&name("vars"), &mut state), "Could not resolve the path to the imported file."));
}

#[test]
fn a_default_import_is_refused() {
    let mut state = module();
    state.imports.push(ImportBinding {
        local: ident("theme"),
        source: "./theme".to_string(),
        kind: ImportKind::Default,
    });
    assert!(refused_for(
        &run(&name("theme"), &mut state),
        "There was an error when attempting to evaluate the imported file."
    ));
}

#[test]
fn a_namespace_import_falls_through_to_undefined() {
    let mut state = module();
    state.imports.push(ImportBinding {
        local: ident("all"),
        source: "./theme".to_string(),
        kind: ImportKind::Namespace,
    });
    assert!(refused_for(&run(&name("all"), &mut state), "Referenced constant is not defined."));
}

#[test]
fn an_injected_name_answers_before_the_module() {
    let mut state = module();
    declare(&mut state, "color", Some(s("red")), nowhere());
    let fns = FunctionMap {
        identifiers: vec![NamedValue {
            name: "color".to_string(),
            value: EvaluateResultValue::Expr(s("blue")),
        }],
        disable_imports: false,
    };
    let r = evaluate(&name("color"), &mut state, &fns);
    assert_eq!(text_of(&r).as_deref(), Some("blue"));
}

#[test]
fn a_write_to_a_property_is_not_a_constant() {
    let mut state = module();
    let e = Expr::Assign(Box::new(member(name("a"), "x")), Box::new(n("1")));
    assert!(refused_for(&run(&e, &mut state), "Referenced value is not a constant."));
    let e = Expr::Assign(Box::new(name("a")), Box::new(n("1")));
    assert!(refused_for(&run(&e, &mut state), "Unsupported expression: AssignmentExpression"));
}

#[test]
fn an_unsupported_node_is_refused_by_its_kind() {
    let mut state = module();
    let e = Expr::Other("ArrowFunctionExpression".to_string());
    assert!(refused_for(&run(&e, &mut state), "Unsupported expression: ArrowFunctionExpression"));
}

#[test]
fn nesting_past_the_ceiling_is_refused() {
    let mut state = module();
    state.evaluation_depth_limit = 2;
    let e = array(vec![array(vec![array(vec![n("1")])])]);
    let r = run(&e, &mut state);
    assert!(refused_for(&r, "The expression nests more than 2 levels deep."));
    assert_eq!(state.evaluation_depth, 0);
    let shallow = array(vec![n("1")]);
    assert!(run(&shallow, &mut state).confident);
}

#[test]
fn a_subtree_is_remembered_and_answered_again() {
    let mut state = module();
    declare(&mut state, "c", Some(s("red")), nowhere());
    let first = run(&name("c"), &mut state);
    assert_eq!(text_of(&first).as_deref(), Some("red"));
    let remembered = state.seen.len();
    assert!(remembered > 0);
    let second = run(&name("c"), &mut state);
    assert_eq!(text_of(&second).as_deref(), Some("red"));
    assert_eq!(state.seen.len(), remembered);
}

#[test]
fn a_remembered_refusal_is_refused_again() {
    let mut state = module();
    let first = run(&name("missing"), &mut state);
    assert!(refused_for(&first, "Referenced constant is not defined."));
    let second = run(&name("missing"), &mut state);
    assert!(refused_for(&second, "Unexpected error: could not resolve the code being evaluated."));
}

#[test]
fn the_own_keys_statics_read_their_receiver() {
    let mut state = module();
    let keys = call(member(name("Object"), "keys"), vec![object(vec![("a", n("1")), ("b", n("2"))])]);
    match &run(&keys, &mut state).value {
        Some(EvaluateResultValue::Expr(e)) => assert_eq!(string_list(e), vec!["a", "b"]),
        _ => panic!("expected a list"),
    }
    let values = call(member(name("Object"), "values"), vec![object(vec![("a", s("x"))])]);
    match &run(&values, &mut state).value {
        Some(EvaluateResultValue::Expr(e)) => assert_eq!(string_list(e), vec!["x"]),
        _ => panic!("expected a list"),
    }
    let chars = call(member(name("Object"), "keys"), vec![s("ab")]);
    match &run(&chars, &mut state).value {
        Some(EvaluateResultValue::Expr(e)) => assert_eq!(string_list(e), vec!["0", "1"]),
        _ => panic!("expected a list"),
    }
    let primitive = call(member(name("Object"), "keys"), vec![n("5")]);
    match &run(&primitive, &mut state).value {
        Some(EvaluateResultValue::Expr(e)) => assert!(string_list(e).is_empty()),
        _ => panic!("expected a list"),
    }
    let nullish = call(member(name("Object"), "entries"), vec![null()]);
    assert!(refused_for(&run(&nullish, &mut state), "Cannot convert undefined or null to object."));
}

#[test]
fn any_other_call_is_refused() {
    let mut state = module();
    let e = call(name("f"), vec![n("1")]);
    assert!(refused_for(&run(&e, &mut state), "Unsupported expression: CallExpression"));
}

#[test]
fn a_function_map_reads_as_its_functions() {
    let mut state = module();
    let fns = FunctionMap {
        identifiers: vec![NamedValue {
            name: "stylex".to_string(),
            value: EvaluateResultValue::FunctionConfigMap(vec![FunctionConfigEntry {
                key: "create".to_string(),
                config: FunctionConfig { is_marker: false, marker_keys: Vec::new() },
            }]),
        }],
        disable_imports: false,
    };
    let r = evaluate(&member(name("stylex"), "create"), &mut state, &fns);
    assert!(matches!(r.value, Some(EvaluateResultValue::FunctionConfig(_))));
    let keys = call(member(name("Object"), "keys"), vec![name("stylex")]);
    match &evaluate(&keys, &mut state, &fns).value {
        Some(EvaluateResultValue::Expr(e)) => assert_eq!(string_list(e), vec!["create"]),
        _ => panic!("expected a list"),
    }
}

#[test]
fn an_array_joins_with_its_separator() {
    let mut state = module();
    let dashed = call(member(array(vec![s("a"), s("b"), n("3")]), "join"), vec![s("-")]);
    assert_eq!(text_of(&run(&dashed, &mut state)).as_deref(), Some("a-b-3"));
    let plain = call(member(array(vec![s("a"), s("b")]), "join"), vec![]);
    assert_eq!(text_of(&run(&plain, &mut state)).as_deref(), Some("a,b"));
    let undefined = call(member(array(vec![s("x"), s("y")]), "join"), vec![name("undefined")]);
    assert_eq!(text_of(&run(&undefined, &mut state)).as_deref(), Some("x,y"));
    let empty = call(member(array(vec![]), "join"), vec![s("+")]);
    assert_eq!(text_of(&run(&empty, &mut state)).as_deref(), Some(""));
}

#[test]
fn a_string_concatenates_its_arguments() {
    let mut state = module();
    let e = call(member(s("a"), "concat"), vec![s("b"), n("1")]);
    assert_eq!(text_of(&run(&e, &mut state)).as_deref(), Some("ab1"));
    let alone = call(member(s("solo"), "concat"), vec![]);
    assert_eq!(text_of(&run(&alone, &mut state)).as_deref(), Some("solo"));
}

#[test]
fn a_method_on_the_wrong_receiver_or_an_unknown_method_is_refused() {
    let mut state = module();
    let join_on_string = call(member(s("ab"), "join"), vec![]);
    assert!(refused_for(&run(&join_on_string, &mut state), "Unsupported expression: CallExpression"));
    let mut state = module();
    let unknown = call(member(array(vec![s("a")]), "reverse"), vec![]);
    assert!(refused_for(&run(&unknown, &mut state), "Unsupported expression: CallExpression"));
}

#[test]
fn an_await_evaluates_its_argument() {
    let mut state = module();
    let e = Expr::Await(Box::new(bin(BinaryOp::Add, s("a"), s("b"))));
    assert_eq!(text_of(&run(&e, &mut state)).as_deref(), Some("ab"));
}

#[test]
fn an_optional_member_reads_through_a_present_base() {
    let mut state = module();
    let base = object(vec![("a", s("x"))]);
    let present = Expr::OptMember(Box::new(base), MemberProp::Ident("a".to_string()));
    assert_eq!(text_of(&run(&present, &mut state)).as_deref(), Some("x"));
    let missing = Expr::OptMember(
        Box::new(object(vec![("a", s("x"))])),
        MemberProp::Ident("b".to_string()),
    );
    assert!(is_undefined(&run(&missing, &mut state)));
}

#[test]
fn an_optional_chain_on_null_or_undefined_is_refused() {
    let mut state = module();
    let on_null = Expr::OptMember(Box::new(null()), MemberProp::Ident("a".to_string()));
    assert!(refused_for(
        &run(&on_null, &mut state),
        "Unsupported expression: OptionalMemberExpression"
    ));
    let mut state = module();
    let on_undefined = Expr::OptMember(Box::new(name("undefined")), MemberProp::Ident("a".to_string()));
    assert!(refused_for(
        &run(&on_undefined, &mut state),
        "Unsupported expression: OptionalMemberExpression"
    ));
    let mut state = module();
    let call_on_null = Expr::OptCall(Box::new(null()), vec![]);
    assert!(refused_for(
        &run(&call_on_null, &mut state),
        "Unsupported expression: OptionalCallExpression"
    ));
}

#[test]
fn an_optional_call_on_a_present_callee_is_the_call() {
    let mut state = module();
    let callee = member(array(vec![s("a"), s("b")]), "length");
    let e = Expr::OptCall(Box::new(callee), vec![]);
    assert!(refused_for(&run(&e, &mut state), "Unsupported expression: CallExpression"));
}

fn with_env() -> FunctionMap {
    FunctionMap {
        identifiers: vec![NamedValue {
            name: "env".to_string(),
            value: EvaluateResultValue::EnvObject(vec![
                EnvEntry { key: "primary".to_string(), value: Some(s("#f00")) },
                EnvEntry { key: "colorMix".to_string(), value: None },
            ]),
        }],
        disable_imports: false,
    }
}

#[test]
fn an_environment_entry_reads_as_its_expression() {
    let mut state = module();
    let r = evaluate(&member(name("env"), "primary"), &mut state, &with_env());
    assert_eq!(text_of(&r).as_deref(), Some("#f00"));
    let template = Expr::Tpl(
        vec!["border: 1px solid ".to_string(), "".to_string()],
        vec![member(name("env"), "primary")],
    );
    let mut state = module();
    let r = evaluate(&template, &mut state, &with_env());
    assert_eq!(text_of(&r).as_deref(), Some("border: 1px solid #f00"));
}

#[test]
fn an_environment_function_reads_as_the_environment_and_a_missing_key_is_refused() {
    let mut state = module();
    let r = evaluate(&member(name("env"), "colorMix"), &mut state, &with_env());
    assert!(matches!(r.value, Some(EvaluateResultValue::EnvObject(ref entries)) if entries.len() == 2));
    let mut state = module();
    let r = evaluate(&member(name("env"), "secondary"), &mut state, &with_env());
    assert!(refused_for(&r, "The referenced property was not found in the stylex.env configuration."));
}

#[test]
fn a_spread_object_sets_its_properties_in_place() {
    let mut state = module();
    let inner = object(vec![("a", s("x")), ("b", s("y"))]);
    let e = Expr::Object(vec![
        Prop::Spread(inner),
        Prop::KeyValue(PropName::Ident("b".to_string()), s("z")),
    ]);
    match &run(&e, &mut state).value {
        Some(EvaluateResultValue::Expr(Expr::Object(props))) => {
            let pairs: Vec<(String, String)> = props
                .iter()
                .map(|p| match p {
                    Prop::KeyValue(PropName::Ident(k), Expr::Lit(Lit::Str(v))) => (k.clone(), v.clone()),
                    _ => ("?".to_string(), "?".to_string()),
                })
                .collect();
            assert_eq!(
                pairs,
                vec![("a".to_string(), "x".to_string()), ("b".to_string(), "z".to_string())]
            );
        },
        _ => panic!("expected an object"),
    }
}

#[test]
fn the_own_keys_of_an_array_literal_are_its_held_positions() {
    let mut state = module();
    let elems = || vec![Elem::Expr(s("a")), Elem::Hole, Elem::Expr(s("c"))];
    let keys = call(member(name("Object"), "keys"), vec![Expr::Array(elems())]);
    match &run(&keys, &mut state).value {
        Some(EvaluateResultValue::Expr(e)) => assert_eq!(string_list(e), vec!["0", "2"]),
        other => panic!("expected a list, got {:?}", other.is_some()),
    }
    let mut state = module();
    let values = call(member(name("Object"), "values"), vec![Expr::Array(elems())]);
    match &run(&values, &mut state).value {
        Some(EvaluateResultValue::Expr(e)) => assert_eq!(string_list(e), vec!["a", "c"]),
        other => panic!("expected a list, got {:?}", other.is_some()),
    }
}
