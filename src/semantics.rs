//! The meaning of programs: a big-step semantics over the scope chain and
//! the output, given the replies of the number system in the order asked.
//!
//! Loops and calls draw on a budget (`fuel`): each iteration of a loop and
//! each call takes one unit, so every run ends; when it is spent the run
//! stops with [`RuntimeError::OutOfFuel`].
use vstd::prelude::*;

use crate::model::{args_size_from, expr_size, stmt_size, stmts_size_from, Expression, Node, Statement};
use crate::state::{
    assign_local, assign_var, declare_fn, empty_frame, lookup_fn, lookup_var, Frame,
};
use crate::token::TokenType;
use crate::value::{Answer, ArithOp, CompareOp, Number, Query, Reply, Value};

verus! {

broadcast use vstd::std_specs::vec::axiom_vec_index_decreases;

/// Why a run stopped.
#[derive(Debug, Clone, Copy, PartialEq, Eq, Structural)]
pub enum RuntimeError {
    /// A variable that no scope binds.
    UnknownIdentifier,
    /// A function that no scope declares.
    UnknownFunction,
    /// A call whose argument count differs from the parameter count.
    ArgumentCount,
    /// An operator applied to values it does not take.
    IncompatibleOperation,
    /// `null` as the test of an `if` or `while`.
    NullTest,
    /// An assignment, or a loop variable, that is not an identifier.
    NotAnIdentifier,
    /// A declared function that is not a function declaration.
    NotAFunction,
    /// The budget of loop iterations and calls is spent.
    OutOfFuel,
}

/// What a run can see and change: the scopes and the output so far.
pub struct Run {
    pub env: Seq<Frame>,
    pub out: Seq<char>,
}

/// The end of a step: its outcome, the run after it, and the replies left.
pub struct Step {
    pub outcome: Result<Value, RuntimeError>,
    pub run: Run,
    pub rest: Seq<Reply>,
}

/// The end of evaluating a list of arguments.
pub struct ArgsStep {
    pub outcome: Result<Seq<Value>, RuntimeError>,
    pub run: Run,
    pub rest: Seq<Reply>,
}

/// The answer to `q`, taken from the front of the replies, and the replies
/// left. A reply to another question is not taken, and the replies left then
/// begin with `unanswered()`, so that a run that skips a question cannot end
/// with the replies it was given.
pub open spec fn ask(q: Query, rs: Seq<Reply>) -> (Answer, Seq<Reply>) {
    if rs.len() > 0 && rs[0].query == q {
        (rs[0].answer, rs.drop_first())
    } else {
        (Answer::Count(None), seq![unanswered()] + rs)
    }
}

pub open spec fn ask_number(q: Query, rs: Seq<Reply>) -> (Number, Seq<Reply>) {
    let (a, rest) = ask(q, rs);
    (
        match a {
            Answer::Number(n) => n,
            _ => Number { bits: 0 },
        },
        rest,
    )
}

pub open spec fn ask_truth(q: Query, rs: Seq<Reply>) -> (bool, Seq<Reply>) {
    let (a, rest) = ask(q, rs);
    (
        match a {
            Answer::Truth(b) => b,
            _ => false,
        },
        rest,
    )
}

pub open spec fn ask_text(q: Query, rs: Seq<Reply>) -> (Seq<char>, Seq<Reply>) {
    let (a, rest) = ask(q, rs);
    (
        match a {
            Answer::Text(s) => s,
            _ => Seq::empty(),
        },
        rest,
    )
}

pub open spec fn ask_count(q: Query, rs: Seq<Reply>) -> (Option<usize>, Seq<Reply>) {
    let (a, rest) = ask(q, rs);
    (
        match a {
            Answer::Count(c) => c,
            _ => None,
        },
        rest,
    )
}

/// The character that `\c` stands for.
pub open spec fn escaped(c: char) -> char {
    if c == 'n' {
        '\n'
    } else if c == 'r' {
        '\r'
    } else if c == 't' {
        '\t'
    } else {
        c
    }
}

/// The text with its escape sequences interpreted: `\n`, `\r`, `\t` stand for
/// control characters, and `\` before any other character stands for that
/// character; a final lone `\` is dropped.
pub open spec fn unescape(s: Seq<char>) -> Seq<char>
    decreases s.len(),
{
    if s.len() == 0 {
        Seq::empty()
    } else if s[0] == '\\' {
        if s.len() == 1 {
            Seq::empty()
        } else {
            seq![escaped(s[1])] + unescape(s.subrange(2, s.len() as int))
        }
    } else {
        seq![s[0]] + unescape(s.subrange(1, s.len() as int))
    }
}

/// `s` written `n` times.
pub open spec fn repeat(s: Seq<char>, n: nat) -> Seq<char>
    decreases n,
{
    if n == 0 {
        Seq::empty()
    } else {
        repeat(s, (n - 1) as nat) + s
    }
}

/// The display form of a value, and the replies left.
pub open spec fn display(v: Value, rs: Seq<Reply>) -> (Seq<char>, Seq<Reply>)
    decreases v,
{
    match v {
        Value::Number(n) => ask_text(Query::Display(n), rs),
        Value::Bool(b) => (
            if b {
                seq!['t', 'r', 'u', 'e']
            } else {
                seq!['f', 'a', 'l', 's', 'e']
            },
            rs,
        ),
        Value::Str(s) => (unescape(s), rs),
        Value::Null => (Seq::empty(), rs),
        Value::Return(inner) => display(*inner, rs),
    }
}

pub open spec fn arith_of(t: TokenType) -> Option<ArithOp> {
    match t {
        TokenType::TokPlus => Some(ArithOp::Add),
        TokenType::TokMinus => Some(ArithOp::Sub),
        TokenType::TokStar => Some(ArithOp::Mul),
        TokenType::TokSlash => Some(ArithOp::Div),
        TokenType::TokCaret => Some(ArithOp::Pow),
        _ => None,
    }
}

pub open spec fn compare_of(t: TokenType) -> Option<CompareOp> {
    match t {
        TokenType::TokEq => Some(CompareOp::Eq),
        TokenType::TokNe => Some(CompareOp::Ne),
        TokenType::TokLt => Some(CompareOp::Lt),
        TokenType::TokLe => Some(CompareOp::Le),
        TokenType::TokGt => Some(CompareOp::Gt),
        TokenType::TokGe => Some(CompareOp::Ge),
        _ => None,
    }
}

/// A value and the replies left.
pub type Valued = (Result<Value, RuntimeError>, Seq<Reply>);

pub open spec fn incompatible(rs: Seq<Reply>) -> Valued {
    (Err(RuntimeError::IncompatibleOperation), rs)
}

/// Arithmetic and comparison on two numbers. `%` is the true modulo
/// `((a rem b) + b) rem b`, which takes the sign of the divisor.
pub open spec fn number_binary(t: TokenType, a: Number, b: Number, rs: Seq<Reply>) -> Valued {
    if t is TokMod {
        let (n1, r1) = ask_number(Query::Arith(ArithOp::Rem, a, b), rs);
        let (n2, r2) = ask_number(Query::Arith(ArithOp::Add, n1, b), r1);
        let (n3, r3) = ask_number(Query::Arith(ArithOp::Rem, n2, b), r2);
        (Ok(Value::Number(n3)), r3)
    } else if let Some(op) = arith_of(t) {
        let (n, r1) = ask_number(Query::Arith(op, a, b), rs);
        (Ok(Value::Number(n)), r1)
    } else if let Some(op) = compare_of(t) {
        let (c, r1) = ask_truth(Query::Compare(op, a, b), rs);
        (Ok(Value::Bool(c)), r1)
    } else {
        incompatible(rs)
    }
}

/// `n * s` or `s * n`: `s` repeated when `n` is a non-negative whole number.
pub open spec fn repeat_by(s: Seq<char>, n: Number, rs: Seq<Reply>) -> Valued {
    let (c, rest) = ask_count(Query::WholeCount(n), rs);
    match c {
        Some(k) => (Ok(Value::Str(repeat(s, k as nat))), rest),
        None => incompatible(rest),
    }
}

/// A binary operator on two values: the coercion matrix of the language.
pub open spec fn sem_binary(t: TokenType, l: Value, r: Value, rs: Seq<Reply>) -> Valued {
    match (l, r) {
        (Value::Number(a), Value::Number(b)) => number_binary(t, a, b, rs),
        (Value::Number(a), Value::Str(s)) => if t is TokPlus {
            let (text, rest) = ask_text(Query::Display(a), rs);
            (Ok(Value::Str(text + s)), rest)
        } else if t is TokStar {
            repeat_by(s, a, rs)
        } else {
            incompatible(rs)
        },
        (Value::Bool(a), Value::Bool(b)) => if t is TokEq {
            (Ok(Value::Bool(a == b)), rs)
        } else if t is TokNe {
            (Ok(Value::Bool(a != b)), rs)
        } else {
            incompatible(rs)
        },
        (Value::Bool(a), Value::Number(b)) => if t is TokEq || t is TokNe || t is TokPlus
            || t is TokMinus || t is TokStar || t is TokSlash {
            number_binary(t, Number::from_bool_spec(a), b, rs)
        } else {
            incompatible(rs)
        },
        (Value::Number(a), Value::Bool(b)) => if t is TokEq || t is TokNe || t is TokPlus
            || t is TokMinus || t is TokStar || t is TokSlash {
            number_binary(t, a, Number::from_bool_spec(b), rs)
        } else {
            incompatible(rs)
        },
        (Value::Str(a), Value::Str(b)) => if t is TokPlus {
            (Ok(Value::Str(a + b)), rs)
        } else if t is TokEq {
            (Ok(Value::Bool(a == b)), rs)
        } else if t is TokNe {
            (Ok(Value::Bool(a != b)), rs)
        } else {
            incompatible(rs)
        },
        (Value::Str(a), Value::Number(b)) => if t is TokPlus {
            let (text, rest) = ask_text(Query::Display(b), rs);
            (Ok(Value::Str(a + text)), rest)
        } else if t is TokStar {
            repeat_by(a, b, rs)
        } else {
            incompatible(rs)
        },
        _ => incompatible(rs),
    }
}

/// A unary operator on a value.
pub open spec fn sem_unary(t: TokenType, v: Value) -> Result<Value, RuntimeError> {
    match (t, v) {
        (TokenType::TokMinus, Value::Number(n)) => Ok(Value::Number(n.negate_spec())),
        (TokenType::TokPlus, Value::Number(n)) => Ok(Value::Number(n)),
        (TokenType::TokNot, Value::Bool(b)) => Ok(Value::Bool(!b)),
        _ => Err(RuntimeError::IncompatibleOperation),
    }
}

/// Truthiness: `true`, a non-zero number and a non-empty string hold;
/// `null` is an error.
pub open spec fn truth(v: Value) -> Result<bool, RuntimeError> {
    match v {
        Value::Bool(b) => Ok(b),
        Value::Number(n) => Ok(!n.zero_spec()),
        Value::Str(s) => Ok(s.len() > 0),
        _ => Err(RuntimeError::NullTest),
    }
}

pub open spec fn fail(e: RuntimeError, run: Run, rs: Seq<Reply>) -> Step {
    Step { outcome: Err(e), run, rest: rs }
}

pub open spec fn done(v: Value, run: Run, rs: Seq<Reply>) -> Step {
    Step { outcome: Ok(v), run, rest: rs }
}

/// A step that ends the enclosing statement list: an error or a `ret`.
pub open spec fn stops(s: Step) -> bool {
    s.outcome is Err || s.outcome matches Ok(Value::Return(_))
}

/// `env` with one scope more, for a block.
pub open spec fn enter(run: Run) -> Run {
    Run { env: run.env.push(empty_frame()), out: run.out }
}

/// The step with its innermost scope closed.
pub open spec fn leave(s: Step) -> Step {
    Step { outcome: s.outcome, run: Run { env: s.run.env.drop_last(), out: s.run.out }, rest: s.rest }
}

/// The parameters bound, in the innermost scope, to the first `n` values.
pub open spec fn bind_params(env: Seq<Frame>, params: Vec<Statement>, vals: Seq<Value>, n: nat) -> Seq<
    Frame,
>
    decreases n,
{
    if n == 0 {
        env
    } else {
        let e = bind_params(env, params, vals, (n - 1) as nat);
        match params[n - 1] {
            Statement::Parameter { name } => assign_local(e, name@, vals[n - 1]),
            _ => e,
        }
    }
}

/// Evaluates an expression.
pub open spec fn sem_expr(fuel: nat, e: Expression, run: Run, rs: Seq<Reply>) -> Step
    decreases fuel, expr_size(e), 1int,
{
    match e {
        Expression::Integer { value } => {
            let (n, rest) = ask_number(Query::FromInteger(value), rs);
            done(Value::Number(n), run, rest)
        },
        Expression::Float { value } => {
            let (n, rest) = ask_number(Query::FromDecimal(value@), rs);
            done(Value::Number(n), run, rest)
        },
        Expression::Bool { value } => done(Value::Bool(value), run, rs),
        Expression::Str { value } => done(Value::Str(value@), run, rs),
        Expression::Identifier { name } => match lookup_var(run.env, name@) {
            Some(v) => done(v, run, rs),
            None => fail(RuntimeError::UnknownIdentifier, run, rs),
        },
        Expression::Grouping { value } => sem_expr(fuel, *value, run, rs),
        Expression::UnaryOp { op, exp } => {
            let s = sem_expr(fuel, *exp, run, rs);
            match s.outcome {
                Ok(v) => Step { outcome: sem_unary(op.token_type, v), run: s.run, rest: s.rest },
                Err(_) => s,
            }
        },
        Expression::LogicalOp { op, left, right } => {
            let l = sem_expr(fuel, *left, run, rs);
            match l.outcome {
                Ok(v) => if (op.token_type is TokOr && v == Value::Bool(true)) || (
                op.token_type is TokAnd && v == Value::Bool(false)) {
                    l
                } else {
                    sem_expr(fuel, *right, l.run, l.rest)
                },
                Err(_) => l,
            }
        },
        Expression::BinOp { op, left, right } => {
            let l = sem_expr(fuel, *left, run, rs);
            match l.outcome {
                Ok(a) => {
                    let r = sem_expr(fuel, *right, l.run, l.rest);
                    match r.outcome {
                        Ok(b) => {
                            let (o, rest) = sem_binary(op.token_type, a, b, r.rest);
                            Step { outcome: o, run: r.run, rest }
                        },
                        Err(_) => r,
                    }
                },
                Err(_) => l,
            }
        },
        Expression::FunctionCall { name, args } => match call_check(run.env, name@, args@.len()) {
            Some(err) => fail(err, run, rs),
            None => {
                let a = sem_args(fuel, args, 0, run, rs);
                match a.outcome {
                    Ok(vals) => sem_call(fuel, e, vals, a.run, a.rest),
                    Err(err) => fail(err, a.run, a.rest),
                }
            },
        },
    }
}

/// Evaluates `args[i..]` from left to right.
pub open spec fn sem_args(fuel: nat, args: Vec<Expression>, i: int, run: Run, rs: Seq<Reply>) -> ArgsStep
    decreases fuel, args_size_from(args, i), 1int,
{
    if i < 0 || i >= args.len() {
        ArgsStep { outcome: Ok(Seq::empty()), run, rest: rs }
    } else {
        let h = sem_expr(fuel, args[i], run, rs);
        match h.outcome {
            Ok(v) => {
                let t = sem_args(fuel, args, i + 1, h.run, h.rest);
                match t.outcome {
                    Ok(vs) => ArgsStep { outcome: Ok(seq![v] + vs), run: t.run, rest: t.rest },
                    Err(_) => t,
                }
            },
            Err(err) => ArgsStep { outcome: Err(err), run: h.run, rest: h.rest },
        }
    }
}

/// What stops a call of `name` with `n` arguments before its arguments are
/// evaluated: an unknown function, or a parameter count other than `n`.
pub open spec fn call_check(env: Seq<Frame>, name: Seq<char>, n: nat) -> Option<RuntimeError> {
    match lookup_fn(env, name) {
        Some(Statement::FunctionDeclaration { name: _, params, stmts: _ }) => if params.len() != n {
            Some(RuntimeError::ArgumentCount)
        } else {
            None
        },
        Some(_) => Some(RuntimeError::NotAFunction),
        None => Some(RuntimeError::UnknownFunction),
    }
}

/// The reply that stands in front of the replies when a question was not
/// answered in turn: an answer of a kind that no number system gives to it.
pub open spec fn unanswered() -> Reply {
    Reply { query: Query::FromInteger(0), answer: Answer::Count(None) }
}

/// The call `call` with its arguments' values `vals`: the body of the
/// function that the call names runs in a new scope inside the caller's,
/// with the parameters bound there; a `ret` ends the call with its value.
pub open spec fn sem_call(fuel: nat, call: Expression, vals: Seq<Value>, run: Run, rs: Seq<Reply>) -> Step
    decreases fuel, expr_size(call), 0int,
{
    let name = match call {
        Expression::FunctionCall { name, args: _ } => name@,
        _ => Seq::empty(),
    };
    match lookup_fn(run.env, name) {
        Some(Statement::FunctionDeclaration { name: _, params, stmts }) => if params.len()
            != vals.len() {
            fail(RuntimeError::ArgumentCount, run, rs)
        } else if fuel == 0 {
            fail(RuntimeError::OutOfFuel, run, rs)
        } else {
            let env = bind_params(run.env.push(empty_frame()), params, vals, vals.len());
            let b = leave(sem_stmts((fuel - 1) as nat, stmts, 0, Run { env, out: run.out }, rs));
            match b.outcome {
                Ok(Value::Return(v)) => Step { outcome: Ok(*v), run: b.run, rest: b.rest },
                _ => b,
            }
        },
        Some(_) => fail(RuntimeError::NotAFunction, run, rs),
        None => fail(RuntimeError::UnknownFunction, run, rs),
    }
}

/// Runs `ss[i..]` in order, stopping at an error or a `ret`.
pub open spec fn sem_stmts(fuel: nat, ss: Vec<Statement>, i: int, run: Run, rs: Seq<Reply>) -> Step
    decreases fuel, stmts_size_from(ss, i), 1int,
{
    if i < 0 || i >= ss.len() {
        done(Value::Null, run, rs)
    } else {
        let h = sem_stmt(fuel, ss[i], run, rs);
        if stops(h) {
            h
        } else {
            sem_stmts(fuel, ss, i + 1, h.run, h.rest)
        }
    }
}

/// Writes the display form of the evaluated value, then `suffix`.
pub open spec fn printed(v: Step, suffix: Seq<char>) -> Step {
    match v.outcome {
        Ok(x) => {
            let (text, rest) = display(x, v.rest);
            done(Value::Null, Run { env: v.run.env, out: v.run.out + text + suffix }, rest)
        },
        Err(_) => v,
    }
}

/// A `print` or `println` statement: evaluates its value and writes its
/// display form, then the newline of `println`.
pub open spec fn sem_print(fuel: nat, s: Statement, run: Run, rs: Seq<Reply>) -> Step
    decreases fuel, stmt_size(s), 3int,
{
    match s {
        Statement::PrintlnStatement { value } => printed(sem_expr(fuel, value, run, rs), seq!['\n']),
        Statement::PrintStatement { value } => printed(sem_expr(fuel, value, run, rs), Seq::empty()),
        _ => done(Value::Null, run, rs),
    }
}

/// Runs one statement.
pub open spec fn sem_stmt(fuel: nat, s: Statement, run: Run, rs: Seq<Reply>) -> Step
    decreases fuel, stmt_size(s), 4int,
{
    match s {
        Statement::PrintStatement { value: _ } => sem_print(fuel, s, run, rs),
        Statement::PrintlnStatement { value: _ } => sem_print(fuel, s, run, rs),
        Statement::Assignment { left, right } => {
            let v = sem_expr(fuel, right, run, rs);
            match v.outcome {
                Ok(x) => match left {
                    Expression::Identifier { name } => done(
                        Value::Null,
                        Run { env: assign_var(v.run.env, name@, x), out: v.run.out },
                        v.rest,
                    ),
                    _ => fail(RuntimeError::NotAnIdentifier, v.run, v.rest),
                },
                Err(_) => v,
            }
        },
        Statement::LocalAssignment { left, right } => {
            let v = sem_expr(fuel, right, run, rs);
            match v.outcome {
                Ok(x) => match left {
                    Expression::Identifier { name } => done(
                        Value::Null,
                        Run { env: assign_local(v.run.env, name@, x), out: v.run.out },
                        v.rest,
                    ),
                    _ => fail(RuntimeError::NotAnIdentifier, v.run, v.rest),
                },
                Err(_) => v,
            }
        },
        Statement::Return { val } => {
            let v = sem_expr(fuel, val, run, rs);
            match v.outcome {
                Ok(x) => done(Value::Return(Box::new(x)), v.run, v.rest),
                Err(_) => v,
            }
        },
        Statement::FunctionDeclaration { name, params: _, stmts: _ } => done(
            Value::Null,
            Run { env: declare_fn(run.env, name@, s), out: run.out },
            rs,
        ),
        Statement::FunctionCall { expr } => sem_expr(fuel, expr, run, rs),
        Statement::Parameter { name: _ } => done(Value::Null, run, rs),
        Statement::IfStatement { test, then_stmts, else_stmts } => {
            let t = sem_expr(fuel, test, run, rs);
            match t.outcome {
                Ok(Value::Return(v)) => t,
                Ok(v) => match truth(v) {
                    Ok(b) => leave(
                        sem_stmts(
                            fuel,
                            if b {
                                then_stmts
                            } else {
                                else_stmts
                            },
                            0,
                            enter(t.run),
                            t.rest,
                        ),
                    ),
                    Err(err) => fail(err, t.run, t.rest),
                },
                Err(_) => t,
            }
        },
        Statement::While { test: _, stmts: _ } => leave(sem_while(fuel, s, enter(run), rs)),
        Statement::For { identifier, start, end, step, stmts: _ } => match identifier {
            Expression::Identifier { name } => leave(sem_for_start(fuel, s, enter(run), rs)),
            _ => fail(RuntimeError::NotAnIdentifier, run, rs),
        },
    }
}

/// The iterations of a `while` loop, in the loop's scope.
pub open spec fn sem_while(fuel: nat, s: Statement, run: Run, rs: Seq<Reply>) -> Step
    decreases fuel, stmt_size(s), 3int,
{
    match s {
        Statement::While { test, stmts } => if fuel == 0 {
            fail(RuntimeError::OutOfFuel, run, rs)
        } else {
            let t = sem_expr(fuel, test, run, rs);
            match t.outcome {
                Ok(Value::Return(v)) => t,
                Ok(v) => match truth(v) {
                    Ok(true) => {
                        let b = sem_stmts(fuel, stmts, 0, t.run, t.rest);
                        if stops(b) {
                            b
                        } else {
                            sem_while((fuel - 1) as nat, s, b.run, b.rest)
                        }
                    },
                    Ok(false) => done(Value::Null, t.run, t.rest),
                    Err(err) => fail(err, t.run, t.rest),
                },
                Err(_) => t,
            }
        },
        _ => done(Value::Null, run, rs),
    }
}

/// The name of a loop variable.
pub open spec fn loop_var(e: Expression) -> Seq<char> {
    match e {
        Expression::Identifier { name } => name@,
        _ => Seq::empty(),
    }
}

/// A `for` loop in its scope: the loop variable is assigned the start, then
/// the end and the step are evaluated; a start, end or step that is not a
/// number runs no iteration.
pub open spec fn sem_for_start(fuel: nat, s: Statement, run: Run, rs: Seq<Reply>) -> Step
    decreases fuel, stmt_size(s), 3int,
{
    match s {
        Statement::For { identifier, start, end, step, stmts } => {
            let a = sem_expr(fuel, start, run, rs);
            match a.outcome {
                Ok(Value::Number(sv)) => sem_for_bounds(
                    fuel,
                    s,
                    sv,
                    Run { env: assign_var(a.run.env, loop_var(identifier), Value::Number(sv)), out: a.run.out },
                    a.rest,
                ),
                Ok(_) => done(Value::Null, a.run, a.rest),
                Err(_) => a,
            }
        },
        _ => done(Value::Null, run, rs),
    }
}

/// A `for` loop once its variable holds the start `sv`: the end and the
/// step, then the iterations.
pub open spec fn sem_for_bounds(fuel: nat, s: Statement, sv: Number, run: Run, rs: Seq<Reply>) -> Step
    decreases fuel, stmt_size(s), 2int,
{
    match s {
        Statement::For { identifier, start, end, step, stmts } => {
            let b = sem_expr(fuel, end, run, rs);
            match b.outcome {
                Ok(ev) => sem_for_step(fuel, s, sv, ev, b.run, b.rest),
                Err(_) => b,
            }
        },
        _ => done(Value::Null, run, rs),
    }
}

/// A `for` loop once its start `sv` and its end `ev` are known: the step,
/// then the iterations.
pub open spec fn sem_for_step(fuel: nat, s: Statement, sv: Number, ev: Value, run: Run, rs: Seq<Reply>) -> Step
    decreases fuel, stmt_size(s), 1int,
{
    match s {
        Statement::For { identifier, start, end, step, stmts } => {
            let c = sem_expr(fuel, step, run, rs);
            match c.outcome {
                Ok(stv) => if ev is Number && stv is Number {
                    sem_for(fuel, s, sv, ev->Number_0, stv->Number_0, c.run, c.rest)
                } else {
                    done(Value::Null, c.run, c.rest)
                },
                Err(_) => c,
            }
        },
        _ => done(Value::Null, run, rs),
    }
}

/// Whether a `for` loop from `sv` to `ev` is over at `cur`:
/// `(sv >= ev && cur <= ev) || (sv <= ev && cur >= ev)`, each comparison
/// asked from left to right and only while the answer is open.
pub open spec fn for_over(sv: Number, ev: Number, cur: Number, rs: Seq<Reply>) -> (bool, Seq<Reply>) {
    let (c1, r1) = ask_truth(Query::Compare(CompareOp::Ge, sv, ev), rs);
    let (left, r2) = if c1 {
        ask_truth(Query::Compare(CompareOp::Le, cur, ev), r1)
    } else {
        (false, r1)
    };
    if left {
        (true, r2)
    } else {
        let (c3, r3) = ask_truth(Query::Compare(CompareOp::Le, sv, ev), r2);
        if c3 {
            ask_truth(Query::Compare(CompareOp::Ge, cur, ev), r3)
        } else {
            (false, r3)
        }
    }
}

/// The iterations of a `for` loop: while the loop variable is not past the
/// end, run the body, then set the variable to its value before the body
/// plus the step.
#[verifier::opaque]
pub open spec fn sem_for(
    fuel: nat,
    s: Statement,
    sv: Number,
    ev: Number,
    st: Number,
    run: Run,
    rs: Seq<Reply>,
) -> Step
    decreases fuel, stmt_size(s), 0int,
{
    match s {
        Statement::For { identifier, start, end, step, stmts } => {
            if fuel == 0 {
                fail(RuntimeError::OutOfFuel, run, rs)
            } else {
                match lookup_var(run.env, loop_var(identifier)) {
                    Some(Value::Number(cur)) => {
                        let (over, r1) = for_over(sv, ev, cur, rs);
                        if over {
                            done(Value::Null, run, r1)
                        } else {
                            let b = sem_stmts(fuel, stmts, 0, run, r1);
                            if stops(b) {
                                b
                            } else {
                                let (next, r2) = ask_number(Query::Arith(ArithOp::Add, cur, st), b.rest);
                                let run2 = Run {
                                    env: assign_var(b.run.env, loop_var(identifier), Value::Number(next)),
                                    out: b.run.out,
                                };
                                sem_for((fuel - 1) as nat, s, sv, ev, st, run2, r2)
                            }
                        }
                    },
                    _ => fail(RuntimeError::IncompatibleOperation, run, rs),
                }
            }
        },
        _ => done(Value::Null, run, rs),
    }
}

/// Runs a node: a statement list, a statement or an expression.
pub open spec fn sem_node(fuel: nat, node: Node, run: Run, rs: Seq<Reply>) -> Step {
    match node {
        Node::Stmts(ss) => sem_stmts(fuel, ss, 0, run, rs),
        Node::Stmt(s) => sem_stmt(fuel, s, run, rs),
        Node::Expr(e) => sem_expr(fuel, e, run, rs),
    }
}

} // verus!
