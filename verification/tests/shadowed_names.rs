use stylex_evaluate::fold::{
    a_global_written_as_a_value, unshadowed_applied_global, unshadowed_receiver_global,
};
use stylex_evaluate::state::{BindingId, StateManager, VarDeclarator};
use stylex_evaluate::syntax::{Expr, Ident, Lit, Span};

const MODULE_CONTEXT: u32 = 0;

fn another_scope() -> u32 {
    1
}

fn nowhere() -> Span {
    Span { lo: 0, hi: 0 }
}

fn ident_in(name: &str, ctxt: u32) -> Ident {
    Ident { sym: name.to_string(), ctxt, span: nowhere() }
}

fn reference(name: &str) -> Expr {
    Expr::Ident(ident_in(name, MODULE_CONTEXT))
}

fn string_expr(text: &str) -> Expr {
    Expr::Lit(Lit::Str(text.to_string()))
}

fn a_module() -> StateManager {
    StateManager::default()
}

fn binding_only(name: &str) -> StateManager {
    let mut state = a_module();
    state.declared_bindings.push(BindingId { sym: name.to_string(), ctxt: MODULE_CONTEXT });
    state
}

fn declared_as_a_const(name: &str, init: Expr) -> StateManager {
    let mut state = binding_only(name);
    state.declarations.push(VarDeclarator {
        name: ident_in(name, MODULE_CONTEXT),
        init: Some(init),
        span: nowhere(),
    });
    state
}

fn assert_applied_global(expr: &Expr, state: &StateManager, expected: Option<&str>) {
    assert_eq!(unshadowed_applied_global(expr, state).map(|name| name.as_str()), expected);
}

fn assert_global_as_a_value(name: &str, state: &StateManager, expected: bool) {
    assert_eq!(a_global_written_as_a_value(&reference(name), state), expected);
}

fn assert_receiver_global(expr: &Expr, state: &StateManager, expected: Option<&str>) {
    assert_eq!(unshadowed_receiver_global(expr, state).map(|name| name.as_str()), expected);
}

#[test]
fn an_undeclared_name_is_the_global_in_both_positions() {
    let state = a_module();

    for name in ["String", "Number", "Object", "Array", "Math"] {
        assert_applied_global(&reference(name), &state, Some(name));
        assert_receiver_global(&reference(name), &state, Some(name));
    }
}

#[test]
fn a_binding_in_another_scope_shadows_neither_position() {
    let mut state = a_module();
    state.declared_bindings.push(BindingId { sym: "String".to_string(), ctxt: another_scope() });

    assert_applied_global(&reference("String"), &state, Some("String"));
    assert_receiver_global(&reference("String"), &state, Some("String"));
}

#[test]
fn a_binding_without_a_declarator_shadows_the_callee_alone() {
    let state = binding_only("Math");

    assert_applied_global(&reference("Math"), &state, None);
    assert_receiver_global(&reference("Math"), &state, Some("Math"));
}

#[test]
fn a_declarator_shadows_both_positions() {
    let state = declared_as_a_const("String", string_expr("abc"));

    assert_applied_global(&reference("String"), &state, None);
    assert_receiver_global(&reference("String"), &state, None);
}

#[test]
fn parentheses_are_read_through_however_many_deep() {
    let state = a_module();
    let wrapped = Expr::Paren(Box::new(Expr::Paren(Box::new(reference("Math")))));

    assert_applied_global(&wrapped, &state, Some("Math"));
    assert_receiver_global(&wrapped, &state, Some("Math"));
    assert!(a_global_written_as_a_value(&wrapped, &state));
}

#[test]
fn a_name_outside_the_owned_set_is_no_global() {
    let state = a_module();

    assert_applied_global(&reference("Reflect"), &state, None);
    assert_receiver_global(&reference("Reflect"), &state, None);
}

#[test]
fn an_expression_that_is_not_a_name_is_no_global() {
    let state = a_module();
    let literal = string_expr("String");

    assert_applied_global(&literal, &state, None);
    assert_receiver_global(&literal, &state, None);
}

#[test]
fn every_global_the_fold_names_is_claimed_in_a_value_position() {
    let state = a_module();

    for name in ["String", "Number", "Object", "Array", "Math", "Boolean"] {
        assert_global_as_a_value(name, &state, true);
    }
}

#[test]
fn a_binding_without_a_declarator_shadows_a_value_position() {
    assert_global_as_a_value("Boolean", &binding_only("Boolean"), false);
}

#[test]
fn a_declarator_shadows_a_value_position() {
    let state = declared_as_a_const("String", string_expr("abc"));

    assert_global_as_a_value("String", &state, false);
}

#[test]
fn a_binding_in_another_scope_shadows_no_value_position() {
    let mut state = a_module();
    state.declared_bindings.push(BindingId { sym: "Boolean".to_string(), ctxt: another_scope() });

    assert_global_as_a_value("Boolean", &state, true);
}

#[test]
fn a_name_outside_the_owned_set_is_no_value_position_global() {
    let state = a_module();

    for name in ["Reflect", "Symbol", "parseInt", "isNaN", "undefined", "Promise"] {
        assert_global_as_a_value(name, &state, false);
    }
}
