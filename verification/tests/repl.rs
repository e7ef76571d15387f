//! Evaluation behaviour through `rep`: arithmetic, special forms, scoping
//! and the documented quirks.

use mal_core::env::{init_symbols, Env};
use mal_core::errors::ReplError;
use mal_core::eval::eval;
use mal_core::rep;
use mal_core::types::{MalType, Primitive};
use mal_core::EVAL_FUEL;

#[test]
fn addition_folds_left_to_right() {
    let mut env = Env::new();
    assert_eq!(rep("(+ 1 2 3)", &mut env), Ok("6\n".to_owned()));
}

#[test]
fn subtraction_folds_from_first_operand() {
    let mut env = Env::new();
    assert_eq!(rep("(- 10 3 2)", &mut env), Ok("5\n".to_owned()));
}

#[test]
fn empty_multiplication_is_missing_arguments() {
    let mut env = Env::new();
    assert_eq!(
        rep("(*)", &mut env),
        Err(ReplError::Arguments("*".to_owned()))
    );
    assert_eq!(
        rep("(+)", &mut env),
        Err(ReplError::Arguments("+".to_owned()))
    );
}

#[test]
fn division_by_zero_fails() {
    let mut env = Env::new();
    assert_eq!(rep("(/ 4 0)", &mut env), Err(ReplError::ZeroDivision));
}

#[test]
fn zero_as_first_operand_is_only_the_accumulator() {
    let mut env = Env::new();
    assert_eq!(rep("(/ 0 5)", &mut env), Ok("0\n".to_owned()));
}

#[test]
fn nested_lists_evaluate_inside_the_fold() {
    let mut env = Env::new();
    assert_eq!(rep("(+ (* 2 3) 4)", &mut env), Ok("10\n".to_owned()));
}

#[test]
fn let_star_later_bindings_see_earlier_ones() {
    let mut env = Env::new();
    assert_eq!(
        rep("(let* (x 2 y (+ x 1)) (+ x y))", &mut env),
        Ok("5\n".to_owned())
    );
}

#[test]
fn let_star_accepts_vector_bindings() {
    let mut env = Env::new();
    assert_eq!(rep("(let* [x 3] x)", &mut env), Ok("3\n".to_owned()));
}

#[test]
fn def_binds_in_the_session_environment() {
    let mut env = Env::new();
    assert_eq!(rep("(def! x 5)", &mut env), Ok("5\n".to_owned()));
    assert_eq!(rep("x", &mut env), Ok("5\n".to_owned()));
}

#[test]
fn odd_binding_count_fails() {
    let mut env = Env::new();
    assert_eq!(rep("(let* (x) x)", &mut env), Err(ReplError::OddLet));
}

#[test]
fn unknown_symbol_in_operands_fails() {
    let mut env = Env::new();
    assert_eq!(
        rep("(+ y 1)", &mut env),
        Err(ReplError::UnknownSymbol("y".to_owned()))
    );
}

#[test]
fn failed_let_star_body_pops_its_frame() {
    let mut env = Env::new();
    assert_eq!(rep("(def! x 1)", &mut env), Ok("1\n".to_owned()));
    assert_eq!(
        rep("(let* (x 2) (+ x missing))", &mut env),
        Err(ReplError::UnknownSymbol("missing".to_owned()))
    );
    assert_eq!(rep("x", &mut env), Ok("1\n".to_owned()));
}

#[test]
fn vectors_and_maps_evaluate_their_children() {
    let mut env = Env::new();
    assert_eq!(rep("[1 (+ 1 1)]", &mut env), Ok("[1 2]\n".to_owned()));
    assert_eq!(rep("{1 (+ 1 1)}", &mut env), Ok("{1 2}\n".to_owned()));
}

#[test]
fn empty_list_evaluates_to_itself() {
    let mut env = Env::new();
    assert_eq!(rep("()", &mut env), Ok("()\n".to_owned()));
}

#[test]
fn literals_evaluate_to_themselves() {
    let mut env = Env::new();
    assert_eq!(rep("7", &mut env), Ok("7\n".to_owned()));
    assert_eq!(rep("true", &mut env), Ok("true\n".to_owned()));
    assert_eq!(rep("nil", &mut env), Ok("nil\n".to_owned()));
    assert_eq!(rep("\"ab\"", &mut env), Ok("\"ab\"\n".to_owned()));
}

#[test]
fn symbols_resolve_through_the_fold() {
    let mut env = Env::new();
    assert_eq!(rep("(def! x 2)", &mut env), Ok("2\n".to_owned()));
    assert_eq!(rep("(+ x 3)", &mut env), Ok("5\n".to_owned()));
}

#[test]
fn non_numeric_symbol_operand_fails() {
    let mut env = Env::new();
    assert_eq!(rep("(def! b true)", &mut env), Ok("true\n".to_owned()));
    assert_eq!(
        rep("(+ b 1)", &mut env),
        Err(ReplError::Type {
            expected: "number".to_owned(),
            received: "bool".to_owned()
        })
    );
}

#[test]
fn head_must_be_a_symbol() {
    let mut env = Env::new();
    assert_eq!(
        rep("(1 2)", &mut env),
        Err(ReplError::Type {
            expected: "symbol".to_owned(),
            received: "number".to_owned()
        })
    );
}

#[test]
fn def_key_must_be_a_symbol() {
    let mut env = Env::new();
    assert_eq!(
        rep("(def! 5 5)", &mut env),
        Err(ReplError::Type {
            expected: "symbol".to_owned(),
            received: "number".to_owned()
        })
    );
}

#[test]
fn head_bound_to_plain_value_returns_the_value() {
    let mut env = Env::new();
    assert_eq!(rep("(def! x 5)", &mut env), Ok("5\n".to_owned()));
    assert_eq!(rep("(x 1 2)", &mut env), Ok("5\n".to_owned()));
}

#[test]
fn unary_minus_and_division_return_the_operand() {
    let mut env = Env::new();
    assert_eq!(rep("(- 5)", &mut env), Ok("5\n".to_owned()));
    assert_eq!(rep("(/ 5)", &mut env), Ok("5\n".to_owned()));
    assert_eq!(
        rep("(-)", &mut env),
        Err(ReplError::Arguments("-".to_owned()))
    );
    assert_eq!(
        rep("(/)", &mut env),
        Err(ReplError::Arguments("/".to_owned()))
    );
}

#[test]
fn division_truncates_toward_zero() {
    let mut env = Env::new();
    assert_eq!(rep("(/ 20 2 2)", &mut env), Ok("5\n".to_owned()));
    assert_eq!(rep("(/ -7 2)", &mut env), Ok("-3\n".to_owned()));
}

#[test]
fn division_pre_evaluates_symbol_headed_operands() {
    // The documented quirk: with a symbol as the first operand, the whole
    // operand list is evaluated once more first. `x` resolves to a plain
    // value, so the form evaluates to that value and no division happens.
    let mut env = Env::new();
    assert_eq!(rep("(def! x 8)", &mut env), Ok("8\n".to_owned()));
    assert_eq!(rep("(/ x 2)", &mut env), Ok("8\n".to_owned()));
}

#[test]
fn addition_wraps_at_the_128_bit_boundary() {
    let mut env = Env::new();
    assert_eq!(
        rep("(+ 170141183460469231731687303715884105727 1)", &mut env),
        Ok("-170141183460469231731687303715884105728\n".to_owned())
    );
}

#[test]
fn def_inside_operands_mutates_the_session() {
    let mut env = Env::new();
    assert_eq!(rep("(+ (def! x 5) 1)", &mut env), Ok("6\n".to_owned()));
    assert_eq!(rep("x", &mut env), Ok("5\n".to_owned()));
}

#[test]
fn division_chains_past_the_nesting_limit_fail() {
    // Each `/` whose first operand is a symbol re-evaluates its argument
    // list, peeling one operand per step; a chain deeper than the documented
    // limit fails instead of overrunning the host stack.
    let mut env = Env::new();
    let mut line = String::from("(/");
    for _ in 0..1030 {
        line.push_str(" /");
    }
    line.push(')');
    assert_eq!(rep(&line, &mut env), Err(ReplError::RecursionLimit));

    let mut short = String::from("(/");
    for _ in 0..5 {
        short.push_str(" /");
    }
    short.push(')');
    assert_eq!(
        rep(&short, &mut env),
        Err(ReplError::Arguments("/".to_owned()))
    );
}

#[test]
fn eval_leaves_plain_terms_unchanged() {
    let mut env = Env::new();
    assert_eq!(
        eval(&MalType::Number(5), &mut env, EVAL_FUEL),
        Ok(MalType::Number(5))
    );
    assert_eq!(eval(&MalType::Nil, &mut env, EVAL_FUEL), Ok(MalType::Nil));
}

#[test]
fn primitives_apply_to_bare_numbers_and_lists() {
    let mut env = Env::new();
    let bare = MalType::Number(9);
    assert_eq!(
        mal_core::arith::add(&bare, &mut env, EVAL_FUEL),
        Ok(MalType::Number(9))
    );
    let operands = MalType::List {
        tokens: vec![MalType::Number(10), MalType::Number(4)],
    };
    assert_eq!(
        mal_core::arith::sub(&operands, &mut env, EVAL_FUEL),
        Ok(MalType::Number(6))
    );
    let operands = MalType::List {
        tokens: vec![MalType::Number(3), MalType::Number(5)],
    };
    assert_eq!(
        mal_core::arith::mult(&operands, &mut env, EVAL_FUEL),
        Ok(MalType::Number(15))
    );
    let operands = MalType::List {
        tokens: vec![MalType::Number(9), MalType::Number(2)],
    };
    assert_eq!(
        mal_core::arith::div(&operands, &mut env, EVAL_FUEL),
        Ok(MalType::Number(4))
    );
    assert_eq!(
        mal_core::arith::add(&MalType::Nil, &mut env, EVAL_FUEL),
        Err(ReplError::Type {
            expected: "list or number".to_owned(),
            received: "nil".to_owned()
        })
    );
}

#[test]
fn environment_scopes_shadow_and_restore() {
    let mut env = Env::new();
    env.set("k".to_owned(), MalType::Number(1));
    assert_eq!(env.get("k"), Some(MalType::Number(1)));
    env.new_env();
    env.set("k".to_owned(), MalType::Number(2));
    assert_eq!(env.get("k"), Some(MalType::Number(2)));
    env.pop_env();
    assert_eq!(env.get("k"), Some(MalType::Number(1)));
    assert_eq!(env.get("missing"), None);
}

#[test]
fn initial_environment_holds_the_primitives() {
    let mut env = Env::new();
    assert_eq!(env.get("+"), Some(MalType::Function(Primitive::Add)));
    assert_eq!(env.get("/"), Some(MalType::Function(Primitive::Div)));
    init_symbols(&mut env);
    assert_eq!(env.get("*"), Some(MalType::Function(Primitive::Mul)));
}
