use scriptlang::interpreter::interpret_ast;
use scriptlang::lexer::{lexer_init, Lexer};
use scriptlang::parser::Parser;
use scriptlang::semantics::RuntimeError;
use scriptlang::value::{ArithOp, CompareOp, Number, NumberSystem, ResultType};

/// IEEE-754 doubles, as the language's numbers are.
struct Floats;

fn float(n: Number) -> f64 {
    f64::from_bits(n.bits)
}

fn number(x: f64) -> Number {
    Number { bits: x.to_bits() }
}

impl NumberSystem for Floats {
    fn from_integer(&self, v: i64) -> Number {
        number(v as f64)
    }

    fn from_decimal(&self, text: &str) -> Number {
        number(text.parse::<f64>().unwrap_or(f64::NAN))
    }

    fn arith(&self, op: ArithOp, a: Number, b: Number) -> Number {
        let (x, y) = (float(a), float(b));
        number(match op {
            ArithOp::Add => x + y,
            ArithOp::Sub => x - y,
            ArithOp::Mul => x * y,
            ArithOp::Div => x / y,
            ArithOp::Rem => x % y,
            ArithOp::Pow => x.powf(y),
        })
    }

    fn compare(&self, op: CompareOp, a: Number, b: Number) -> bool {
        let (x, y) = (float(a), float(b));
        match op {
            CompareOp::Eq => x == y,
            CompareOp::Ne => x != y,
            CompareOp::Lt => x < y,
            CompareOp::Le => x <= y,
            CompareOp::Gt => x > y,
            CompareOp::Ge => x >= y,
        }
    }

    fn display(&self, a: Number) -> String {
        format!("{}", float(a))
    }

    fn whole_count(&self, a: Number) -> Option<usize> {
        let x = float(a);
        if x.is_sign_positive() && x.is_finite() && x == x.ceil() && x <= usize::MAX as f64 {
            Some(x as usize)
        } else {
            None
        }
    }
}

fn run(src: &str) -> (Result<ResultType, RuntimeError>, String) {
    let mut lexer = lexer_init(src.to_string());
    lexer.tokenize().expect("lexes");
    let mut parser = Parser::new(lexer.tokens);
    let node = parser.parse().expect("parses");
    interpret_ast(&node, &Floats, u64::MAX)
}

fn output(src: &str) -> String {
    let (r, out) = run(src);
    assert!(r.is_ok(), "run failed: {:?}", r);
    out
}

#[test]
fn arithmetic_and_precedence() {
    assert_eq!(output("println 2 + 3 * 4 ^ 2"), "50\n");
}

#[test]
fn true_modulo() {
    assert_eq!(output("println (-7) % 3"), "2\n");
}

#[test]
fn modulo_takes_sign_of_divisor() {
    assert_eq!(output("println 7 % (-3)"), "-2\n");
    assert_eq!(output("println 7 % 3"), "1\n");
}

#[test]
fn string_times_number_repeats() {
    assert_eq!(output("println \"ab\" * 3"), "ababab\n");
    assert_eq!(output("println 2 * 'xy'"), "xyxy\n");
}

#[test]
fn scope_walk_rebinds_global() {
    assert_eq!(output("x := 1\nfunc f() x := 2 end\nf()\nprintln x"), "2\n");
}

#[test]
fn local_assignment_does_not_rebind_global() {
    assert_eq!(output("x := 1\nfunc f() local x := 2 end\nf()\nprintln x"), "1\n");
}

#[test]
fn early_return_through_loop() {
    let src = "func g()\n  for i := 1, 10 then\n    if i == 3 then ret i end\n  end\n  ret 0\nend\nprintln g()";
    assert_eq!(output(src), "3\n");
}

#[test]
fn or_short_circuits() {
    let src = "x := 0\nfunc side() x := 1 ret true end\nif true or side() then println x end";
    assert_eq!(output(src), "0\n");
}

#[test]
fn and_short_circuits() {
    let src = "x := 0\nfunc side() x := 1 ret true end\nif false and side() then println 5 end\nprintln x";
    assert_eq!(output(src), "0\n");
}

#[test]
fn grouping_is_transparent() {
    assert_eq!(output("println (1 + 2)"), output("println 1 + 2"));
}

#[test]
fn string_concatenation_and_escapes() {
    assert_eq!(output("println 'a' + 1"), "a1\n");
    assert_eq!(output("print \"x\\ty\\n\""), "x\ty\n");
}

#[test]
fn bool_number_coercion() {
    assert_eq!(output("println true + 1"), "2\n");
    assert_eq!(output("println 1 == true"), "true\n");
}

#[test]
fn while_loop_shares_its_scope() {
    let src = "i := 0\nwhile i < 3 then\n  i := i + 1\n  n := i\nend\nprintln i";
    assert_eq!(output(src), "3\n");
}

#[test]
fn for_loop_with_equal_bounds_runs_nothing() {
    assert_eq!(output("for i := 2, 2 then println i end\nprintln 9"), "9\n");
}

#[test]
fn float_literals_and_division() {
    assert_eq!(output("println 7 / 2"), "3.5\n");
    assert_eq!(output("println 1.5 + 1"), "2.5\n");
}

#[test]
fn unknown_identifier_is_an_error() {
    assert_eq!(run("println y").0.unwrap_err(), RuntimeError::UnknownIdentifier);
}

#[test]
fn unknown_function_is_an_error() {
    assert_eq!(run("f()").0.unwrap_err(), RuntimeError::UnknownFunction);
}

#[test]
fn argument_count_mismatch_is_an_error() {
    assert_eq!(run("func f(a) ret a end\nf()").0.unwrap_err(), RuntimeError::ArgumentCount);
}

#[test]
fn incompatible_operation_is_an_error() {
    assert_eq!(run("println true - 'a'").0.unwrap_err(), RuntimeError::IncompatibleOperation);
}

#[test]
fn fuel_bounds_loops() {
    let mut lexer = lexer_init("while true then end".to_string());
    lexer.tokenize().unwrap();
    let node = Parser::new(lexer.tokens).parse().unwrap();
    assert_eq!(interpret_ast(&node, &Floats, 100).0.unwrap_err(), RuntimeError::OutOfFuel);
}

#[test]
fn not_keyword_negates() {
    assert_eq!(output("println not true"), "false\n");
    assert_eq!(output("println ~false"), "true\n");
}

#[test]
fn exponent_is_right_associative() {
    assert_eq!(output("println 2 ^ 3 ^ 2"), "512\n");
}

#[test]
fn unknown_function_is_found_before_arguments_run() {
    let (r, out) = run("func p() println 5 ret 1 end\nh(p())");
    assert_eq!(r.unwrap_err(), RuntimeError::UnknownFunction);
    assert_eq!(out, "");
}

#[test]
fn argument_count_is_checked_before_arguments_run() {
    let (r, out) = run("func p() println 5 ret 1 end\nfunc f(a, b) ret a end\nf(p())");
    assert_eq!(r.unwrap_err(), RuntimeError::ArgumentCount);
    assert_eq!(out, "");
}

#[test]
fn ret_inside_while_leaves_function() {
    let src = "func g()\n  i := 0\n  while true then\n    i := i + 1\n    if i == 4 then ret i end\n  end\nend\nprintln g()";
    assert_eq!(output(src), "4\n");
}
