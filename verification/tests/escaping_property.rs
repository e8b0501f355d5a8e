use stylex_evaluate::fold::{escaping_property_named, ESCAPING_PROPERTIES};
use stylex_evaluate::syntax::{Expr, Ident, Lit, MemberProp, Span};

fn named(property: &str) -> MemberProp {
    MemberProp::Ident(property.to_string())
}

fn computed(key: Expr) -> MemberProp {
    MemberProp::Computed(Box::new(key))
}

fn string_expr(text: &str) -> Expr {
    Expr::Lit(Lit::Str(text.to_string()))
}

#[test]
fn a_named_read_of_an_escaping_property_is_answered() {
    for property in ESCAPING_PROPERTIES {
        assert_eq!(escaping_property_named(&named(property)), Some(property));
    }
}

#[test]
fn a_string_key_spelling_one_is_answered() {
    assert_eq!(
        escaping_property_named(&computed(string_expr("constructor"))),
        Some("constructor")
    );
}

#[test]
fn a_read_of_any_other_property_is_not_answered() {
    assert!(escaping_property_named(&named("length")).is_none());
    assert!(escaping_property_named(&computed(string_expr("trim"))).is_none());
}

#[test]
fn a_key_with_no_static_name_is_not_answered() {
    let name = Expr::Ident(Ident { sym: "key".to_string(), ctxt: 0, span: Span { lo: 0, hi: 0 } });

    assert!(escaping_property_named(&computed(name)).is_none());
}

#[test]
fn a_private_name_is_not_answered() {
    let private = MemberProp::PrivateName("constructor".to_string());

    assert!(escaping_property_named(&private).is_none());
}
