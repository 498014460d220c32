use minijs::num;
use minijs::parser::Parser;
use minijs::runtime::{statements_wf, OutputEvent, Runtime, RuntimeError};
use minijs::values::RuntimeValue;
use minijs::tokenizer::Tokenizer;

fn run(source: &str) -> Vec<OutputEvent> {
    let mut tokenizer = Tokenizer::new(source.into());
    let tokens = tokenizer.tokenize().unwrap();
    let mut parser = Parser::new(tokens);
    let ast = parser.parse().unwrap();
    assert!(statements_wf(&ast));
    let mut runtime = Runtime::new();
    runtime.interpret(ast)
}

fn n(x: f64) -> RuntimeValue {
    RuntimeValue::Number(x.to_bits())
}

#[test]
fn arithmetic_with_grouping_and_precedence() {
    assert_eq!(run("1 + 5 * (1 + 9);"), vec![OutputEvent::Value(n(51.0))]);
}

#[test]
fn declarations_and_lookup() {
    assert_eq!(
        run("const x = 5; let y = x; y;"),
        vec![
            OutputEvent::Created { name: "x".into(), value: n(5.0) },
            OutputEvent::Created { name: "y".into(), value: n(5.0) },
            OutputEvent::Value(n(5.0)),
        ]
    );
}

#[test]
fn function_call_binds_and_returns() {
    assert_eq!(
        run("function add(x, y) { return x + y; } add(2, 3);"),
        vec![
            OutputEvent::CreatedFunction { name: "add".into(), params: vec!["x".into(), "y".into()] },
            OutputEvent::FunctionCalled { name: "add".into(), args: vec![n(2.0), n(3.0)] },
            OutputEvent::FunctionReturned { name: "add".into(), value: n(5.0) },
            OutputEvent::Value(n(5.0)),
        ]
    );
}

#[test]
fn empty_body_returns_undefined() {
    assert_eq!(
        run("function noop() {} noop();"),
        vec![
            OutputEvent::CreatedFunction { name: "noop".into(), params: vec![] },
            OutputEvent::FunctionCalled { name: "noop".into(), args: vec![] },
            OutputEvent::FunctionReturned { name: "noop".into(), value: RuntimeValue::Undefined },
            OutputEvent::Value(RuntimeValue::Undefined),
        ]
    );
}

#[test]
fn null_and_undefined_equality() {
    assert_eq!(run("null == undefined;"), vec![OutputEvent::Value(RuntimeValue::Boolean(true))]);
    assert_eq!(run("null === undefined;"), vec![OutputEvent::Value(RuntimeValue::Boolean(false))]);
}

#[test]
fn string_order_and_bad_binary_continues() {
    assert_eq!(run("\"a\" < \"b\";"), vec![OutputEvent::Value(RuntimeValue::Boolean(true))]);
    assert_eq!(
        run("\"a\" + 1; 2;"),
        vec![OutputEvent::Error(RuntimeError::BadBinary), OutputEvent::Value(n(2.0))]
    );
}

#[test]
fn already_declared_is_an_error() {
    assert_eq!(
        run("let x = 1; let x = 2;"),
        vec![
            OutputEvent::Created { name: "x".into(), value: n(1.0) },
            OutputEvent::Error(RuntimeError::AlreadyDeclared("x".into())),
        ]
    );
}

#[test]
fn unknown_function_is_an_error() {
    assert_eq!(
        run("f();"),
        vec![OutputEvent::Error(RuntimeError::UndefinedFunction("f".into()))]
    );
}

#[test]
fn unary_minus_needs_a_number() {
    assert_eq!(run("-null;"), vec![OutputEvent::Error(RuntimeError::BadUnary)]);
    assert_eq!(run("-3;"), vec![OutputEvent::Value(n(-3.0))]);
}

#[test]
fn mixed_comparison_is_an_error() {
    assert_eq!(run("1 < null;"), vec![OutputEvent::Error(RuntimeError::BadComparison)]);
}

#[test]
fn top_level_return_is_an_error() {
    assert_eq!(
        run("return 1;"),
        vec![OutputEvent::Error(RuntimeError::ReturnOutsideFunction)]
    );
}

#[test]
fn runaway_recursion_hits_the_depth_limit() {
    let events = run("function f() { return f(); } f();");
    assert!(matches!(events[0], OutputEvent::CreatedFunction { .. }));
    assert_eq!(*events.last().unwrap(), OutputEvent::Error(RuntimeError::CallDepthExceeded));
}

#[test]
fn division_follows_ieee_semantics() {
    assert_eq!(run("1 / 0;"), vec![OutputEvent::Value(n(f64::INFINITY))]);
    assert_eq!(run("10 / 4;"), vec![OutputEvent::Value(n(2.5))]);
    assert_eq!(run("1 - 10 / 2;"), vec![OutputEvent::Value(n(-4.0))]);
    assert_eq!(run("2 * 3;"), vec![OutputEvent::Value(n(6.0))]);
}

#[test]
fn missing_arguments_become_undefined() {
    assert_eq!(
        run("function first(a, b) { return a; } first(7);"),
        vec![
            OutputEvent::CreatedFunction {
                name: "first".into(),
                params: vec!["a".into(), "b".into()]
            },
            OutputEvent::FunctionCalled { name: "first".into(), args: vec![n(7.0)] },
            OutputEvent::FunctionReturned { name: "first".into(), value: n(7.0) },
            OutputEvent::Value(n(7.0)),
        ]
    );
}

#[test]
fn unknown_identifier_is_undefined() {
    assert_eq!(run("ghostly;"), vec![OutputEvent::Value(RuntimeValue::Undefined)]);
}

#[test]
fn numeric_self_equality_follows_ieee() {
    let samples = [0.0f64, -0.0, 1.5, -2.25, f64::INFINITY, f64::NEG_INFINITY];
    for x in samples {
        assert!(num::num_eq(x.to_bits(), x.to_bits()));
    }
    let nan = f64::NAN.to_bits();
    assert!(!num::num_eq(nan, nan));
}

#[test]
fn numeric_comparisons_match_the_hardware() {
    let samples = [
        0.0f64,
        -0.0,
        1.0,
        -1.0,
        2.5,
        f64::INFINITY,
        f64::NEG_INFINITY,
        f64::NAN,
        f64::MIN_POSITIVE,
    ];
    for a in samples {
        for b in samples {
            let (x, y) = (a.to_bits(), b.to_bits());
            assert_eq!(num::num_eq(x, y), a == b);
            assert_eq!(num::num_lt(x, y), a < b);
            assert_eq!(num::num_le(x, y), a <= b);
            assert_eq!(num::num_gt(x, y), a > b);
            assert_eq!(num::num_ge(x, y), a >= b);
            let sum = f64::from_bits(num::num_add(x, y));
            let hw = a + b;
            if hw.is_nan() {
                assert!(sum.is_nan());
            } else {
                assert_eq!(sum.to_bits(), hw.to_bits());
            }
        }
    }
    assert_eq!(f64::from_bits(num::num_neg(1.5f64.to_bits())), -1.5);
}

#[test]
fn decimal_conversion_matches_the_hardware() {
    for text in ["123", "12.3", "0", "0.0", ".123", "51"] {
        let parsed: f64 = text.parse().unwrap();
        assert_eq!(num::num_from_decimal(text), Some(parsed.to_bits()));
    }
    assert_eq!(num::num_from_decimal(""), None);
}
