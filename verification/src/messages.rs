//! The sentences a refusal is reported with.
use vstd::prelude::*;

verus! {

pub const NON_CONSTANT: &'static str = "Referenced value is not a constant.";

pub const USED_BEFORE_DECLARATION: &'static str = "Referenced value is used before declaration.";

pub const UNINITIALIZED_CONST: &'static str = "Referenced constant is not initialized.";

pub const UNDEFINED_CONST: &'static str = "Referenced constant is not defined.";

pub const PATH_WITHOUT_NODE: &'static str = "Unexpected error: could not resolve the code being evaluated.";

pub const IMPORT_FILE_EVAL_ERROR: &'static str =
    "There was an error when attempting to evaluate the imported file.";

pub const IMPORT_PATH_RESOLUTION_ERROR: &'static str = "Could not resolve the path to the imported file.";

pub const SPREAD_ELEMENT: &'static str = "Unsupported expression: SpreadElement";

pub const SPREAD_NOT_SUPPORTED: &'static str = "The spread operator is not supported here.";

pub const OBJECT_METHOD: &'static str = "Unsupported object method.";

pub const ILLEGAL_PROP_ARRAY_VALUE: &'static str = "An array element has no value that can be written.";

pub const NULLISH_TO_OBJECT: &'static str = "Cannot convert undefined or null to object.";

pub const UNEXPECTED_MEMBER_LOOKUP: &'static str =
    "Unexpected error: could not determine the property being accessed.";

pub const NOT_A_STRING: &'static str = "The value has no string form.";

pub const NO_TRUTHINESS: &'static str = "The value has no truthiness that can be read at compile time.";

pub const NOT_A_NUMBER: &'static str = "The value has no number that can be written at compile time.";

pub const SPREAD_MUST_BE_OBJECT: &'static str = "Only an object can be spread into an object.";

pub const THEME_IMPORT_KEY_AS_OBJECT_KEY: &'static str =
    "A theme import cannot be used as an object key.";

pub const MEMBER_NOT_RESOLVED: &'static str = "The property being read could not be resolved.";

pub const ENV_PROPERTY_NOT_FOUND: &'static str =
    "The referenced property was not found in the stylex.env configuration.";

pub const NOT_COMPARABLE: &'static str = "Only primitive values can be compared at compile time.";

pub const NO_ARITHMETIC: &'static str = "Numeric arithmetic is not folded at compile time.";

pub const VALUE_MUST_BE_STATIC: &'static str = "The property value must be a static expression.";

pub const ILLEGAL_PROP_VALUE: &'static str = "The key is not a value that can be written.";

pub const KEY_NOT_A_STRING: &'static str = "Key is not a string";

pub open spec fn spec_decimal(n: nat) -> Seq<char>
    decreases n,
{
    if n < 10 {
        seq![digit_char(n)]
    } else {
        spec_decimal(n / 10).push(digit_char(n % 10))
    }
}

pub open spec fn digit_char(d: nat) -> char {
    if d == 0 {
        '0'
    } else if d == 1 {
        '1'
    } else if d == 2 {
        '2'
    } else if d == 3 {
        '3'
    } else if d == 4 {
        '4'
    } else if d == 5 {
        '5'
    } else if d == 6 {
        '6'
    } else if d == 7 {
        '7'
    } else if d == 8 {
        '8'
    } else {
        '9'
    }
}

fn digit(d: usize) -> (c: &'static str)
    requires
        d < 10,
    ensures
        c@ == seq![digit_char(d as nat)],
{
    if d == 0 {
        proof {
            reveal_strlit("0");
        }
        "0"
    } else if d == 1 {
        proof {
            reveal_strlit("1");
        }
        "1"
    } else if d == 2 {
        proof {
            reveal_strlit("2");
        }
        "2"
    } else if d == 3 {
        proof {
            reveal_strlit("3");
        }
        "3"
    } else if d == 4 {
        proof {
            reveal_strlit("4");
        }
        "4"
    } else if d == 5 {
        proof {
            reveal_strlit("5");
        }
        "5"
    } else if d == 6 {
        proof {
            reveal_strlit("6");
        }
        "6"
    } else if d == 7 {
        proof {
            reveal_strlit("7");
        }
        "7"
    } else if d == 8 {
        proof {
            reveal_strlit("8");
        }
        "8"
    } else {
        proof {
            reveal_strlit("9");
        }
        "9"
    }
}

/// `n` in decimal, as `Number.prototype.toString` writes an integer.
pub fn decimal(n: usize) -> (r: String)
    ensures
        r@ == spec_decimal(n as nat),
    decreases n,
{
    if n < 10 {
        String::from_str(digit(n))
    } else {
        let mut s = decimal(n / 10);
        s.append(digit(n % 10));
        s
    }
}

/// `text` followed by `more`.
pub fn joined_text(text: &str, more: &str) -> (r: String)
    ensures
        r@ == text@ + more@,
{
    let mut s = String::from_str(text);
    s.append(more);
    s
}

/// An expression of a kind the evaluator has no arm for.
pub fn unsupported_expression(kind: &str) -> (r: String)
    ensures
        r@ == "Unsupported expression: "@ + kind@,
{
    joined_text("Unsupported expression: ", kind)
}

/// An operator the evaluator has no arm for.
pub fn unsupported_operator(op: &str) -> (r: String)
    ensures
        r@ == "Unsupported operator: "@ + op@,
{
    joined_text("Unsupported operator: ", op)
}

/// The evaluation went deeper than `ceiling` levels.
pub fn expression_too_deep(ceiling: usize) -> (r: String)
    ensures
        r@ == "The expression nests more than "@ + spec_decimal(ceiling as nat)
            + " levels deep."@,
{
    let n = decimal(ceiling);
    let mut s = String::from_str("The expression nests more than ");
    s.append(n.as_str());
    s.append(" levels deep.");
    s
}

/// A string the evaluator grew passed the character ceiling.
pub fn grown_string_too_large(kind: &str, ceiling: usize) -> (r: String)
    ensures
        r@ == "The "@ + kind@ + " builds a string longer than "@ + spec_decimal(ceiling as nat)
            + " characters."@,
{
    let n = decimal(ceiling);
    let mut s = String::from_str("The ");
    s.append(kind);
    s.append(" builds a string longer than ");
    s.append(n.as_str());
    s.append(" characters.");
    s
}

} // verus!
