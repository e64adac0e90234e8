//! The evaluator: runs a syntax tree over the chain of scopes, writing the
//! output of `print` and `println` to a buffer.
use vstd::prelude::*;

use crate::model::{
    args_size_from, expr_size, stmt_size, stmts_size_from, Expression, Node, Statement,
};
use crate::semantics::{
    arith_of, ask, ask_count, ask_number, ask_text, ask_truth, bind_params, compare_of, display,
    done, enter, escaped, fail, for_over, leave, printed, repeat, sem_args, sem_binary, sem_call,
    sem_expr, sem_node, sem_for, sem_for_bounds, sem_for_start, sem_for_step, sem_print, sem_stmt, sem_stmts, sem_unary, sem_while,
    number_binary, repeat_by, stops, truth, unescape, call_check, ArgsStep, Run, RuntimeError,
    Step,
};
use crate::state::{empty_frame, lookup_fn};
use crate::state::State;
use crate::text::{chars_of, push_char, str_equal};
use crate::token::TokenType;
use crate::value::{
    Answer, ArithOp, CompareOp, Number, NumberSystem, Query, Reply, ResultType, Value,
};

verus! {

broadcast use vstd::std_specs::vec::axiom_vec_index_decreases;

/// Taking the answer to `q` from replies that start with it.
pub proof fn lemma_ask(q: Query, a: Answer, rest: Seq<Reply>)
    ensures
        ask(q, seq![Reply { query: q, answer: a }] + rest) == (a, rest),
{
    assert((seq![Reply { query: q, answer: a }] + rest).drop_first() =~= rest);
}

/// The outcome as values.
pub open spec fn outcome_view(r: Result<ResultType, RuntimeError>) -> Result<Value, RuntimeError> {
    match r {
        Ok(v) => Ok(v@),
        Err(e) => Err(e),
    }
}

/// The values of a list of runtime values.
pub open spec fn views(v: Seq<ResultType>) -> Seq<Value> {
    v.map_values(|x: ResultType| x@)
}

/// The character that `\c` stands for.
fn escaped_char(c: char) -> (r: char)
    ensures
        r == escaped(c),
{
    if c == 'n' {
        '\n'
    } else if c == 'r' {
        '\r'
    } else if c == 't' {
        '\t'
    } else {
        c
    }
}

/// The text with its escape sequences interpreted.
pub fn unescape_string(s: &str) -> (r: String)
    ensures
        r@ == unescape(s@),
{
    let cs = chars_of(s);
    let n = cs.len();
    let mut out = String::new();
    let mut i: usize = 0;
    assert(cs@.subrange(0, n as int) =~= cs@);
    while i < n
        invariant
            i <= n,
            n == cs@.len(),
            cs@ == s@,
            out@ + unescape(cs@.subrange(i as int, n as int)) == unescape(s@),
        decreases n - i,
    {
        let ghost sub = cs@.subrange(i as int, n as int);
        if cs[i] == '\\' {
            if i + 1 < n {
                push_char(&mut out, escaped_char(cs[i + 1]));
                assert(sub.subrange(2, sub.len() as int) =~= cs@.subrange(i + 2, n as int));
                assert(out@ + unescape(cs@.subrange(i + 2, n as int)) =~= unescape(s@));
                i = i + 2;
            } else {
                assert(out@ =~= unescape(s@));
                i = n;
                assert(cs@.subrange(i as int, n as int) =~= Seq::<char>::empty());
                assert(out@ + unescape(cs@.subrange(i as int, n as int)) =~= unescape(s@));
            }
        } else {
            push_char(&mut out, cs[i]);
            assert(sub.subrange(1, sub.len() as int) =~= cs@.subrange(i + 1, n as int));
            assert(out@ + unescape(cs@.subrange(i + 1, n as int)) =~= unescape(s@));
            i = i + 1;
        }
    }
    assert(cs@.subrange(n as int, n as int) =~= Seq::<char>::empty());
    assert(out@ =~= unescape(s@));
    out
}

/// `s` written `n` times.
pub fn repeat_string(s: &str, n: usize) -> (r: String)
    ensures
        r@ == repeat(s@, n as nat),
{
    let mut out = String::new();
    let mut k: usize = 0;
    assert(out@ =~= repeat(s@, 0));
    while k < n
        invariant
            k <= n,
            out@ == repeat(s@, k as nat),
        decreases n - k,
    {
        out.append(s);
        k = k + 1;
    }
    out
}

/// Concatenation.
fn concat(a: &str, b: &str) -> (r: String)
    ensures
        r@ == a@ + b@,
{
    let mut out = String::new();
    out.append(a);
    out.append(b);
    assert(out@ =~= a@ + b@);
    out
}

pub fn arith_op(t: TokenType) -> (r: Option<ArithOp>)
    ensures
        r == arith_of(t),
{
    match t {
        TokenType::TokPlus => Some(ArithOp::Add),
        TokenType::TokMinus => Some(ArithOp::Sub),
        TokenType::TokStar => Some(ArithOp::Mul),
        TokenType::TokSlash => Some(ArithOp::Div),
        TokenType::TokCaret => Some(ArithOp::Pow),
        _ => None,
    }
}

pub fn compare_op(t: TokenType) -> (r: Option<CompareOp>)
    ensures
        r == compare_of(t),
{
    match t {
        TokenType::TokEq => Some(CompareOp::Eq),
        TokenType::TokNe => Some(CompareOp::Ne),
        TokenType::TokLt => Some(CompareOp::Lt),
        TokenType::TokLe => Some(CompareOp::Le),
        TokenType::TokGt => Some(CompareOp::Gt),
        TokenType::TokGe => Some(CompareOp::Ge),
        _ => None,
    }
}

/// Truthiness of a value.
pub fn truth_of(v: &ResultType) -> (r: Result<bool, RuntimeError>)
    ensures
        r == truth(v@),
{
    match v {
        ResultType::Bool(b) => Ok(*b),
        ResultType::Number(n) => Ok(!n.is_zero()),
        ResultType::Str(s) => Ok(s.as_str().unicode_len() > 0),
        _ => Err(RuntimeError::NullTest),
    }
}

/// A unary operator on a value.
pub fn unary(t: TokenType, v: ResultType) -> (r: Result<ResultType, RuntimeError>)
    ensures
        outcome_view(r) == sem_unary(t, v@),
{
    match (t, v) {
        (TokenType::TokMinus, ResultType::Number(n)) => Ok(ResultType::Number(n.negate())),
        (TokenType::TokPlus, ResultType::Number(n)) => Ok(ResultType::Number(n)),
        (TokenType::TokNot, ResultType::Bool(b)) => Ok(ResultType::Bool(!b)),
        _ => Err(RuntimeError::IncompatibleOperation),
    }
}

/// What a runtime value's view is, variant by variant.
pub proof fn lemma_view(v: &ResultType)
    ensures
        match v {
            ResultType::Number(n) => v@ == Value::Number(*n),
            ResultType::Bool(b) => v@ == Value::Bool(*b),
            ResultType::Str(s) => v@ == Value::Str(s@),
            ResultType::Null => v@ == Value::Null,
            ResultType::Return(x) => v@ == Value::Return(Box::new((**x)@)),
        },
{
}

/// Replies as the evaluator receives them.
pub type Replies = Ghost<Seq<Reply>>;

/// The result of evaluating: an outcome and the replies received.
pub type Evaluated = (Result<ResultType, RuntimeError>, Replies);

/// Asking the number system, and recording the question and the answer.
pub struct Asker<'n, N: NumberSystem> {
    pub ns: &'n N,
}

impl<'n, N: NumberSystem> Asker<'n, N> {
    fn number(&self, q: Ghost<Query>, n: Number) -> (r: (Number, Replies))
        ensures
            r.0 == n,
            forall|rest: Seq<Reply>| #[trigger]
                ask_number(q@, r.1@ + rest) == (n, rest),
    {
        let ghost g = seq![Reply { query: q@, answer: Answer::Number(n) }];
        proof {
            assert forall|rest: Seq<Reply>| #[trigger] ask_number(q@, g + rest) == (n, rest) by {
                lemma_ask(q@, Answer::Number(n), rest);
            }
        }
        (n, Ghost(g))
    }

    fn from_integer(&self, v: i64) -> (r: (Number, Replies))
        ensures
            forall|rest: Seq<Reply>| #[trigger]
                ask_number(Query::FromInteger(v), r.1@ + rest) == (r.0, rest),
    {
        let n = self.ns.from_integer(v);
        self.number(Ghost(Query::FromInteger(v)), n)
    }

    fn from_decimal(&self, text: &str) -> (r: (Number, Replies))
        ensures
            forall|rest: Seq<Reply>| #[trigger]
                ask_number(Query::FromDecimal(text@), r.1@ + rest) == (r.0, rest),
    {
        let n = self.ns.from_decimal(text);
        self.number(Ghost(Query::FromDecimal(text@)), n)
    }

    fn arith(&self, op: ArithOp, a: Number, b: Number) -> (r: (Number, Replies))
        ensures
            forall|rest: Seq<Reply>| #[trigger]
                ask_number(Query::Arith(op, a, b), r.1@ + rest) == (r.0, rest),
    {
        let n = self.ns.arith(op, a, b);
        self.number(Ghost(Query::Arith(op, a, b)), n)
    }

    fn compare(&self, op: CompareOp, a: Number, b: Number) -> (r: (bool, Replies))
        ensures
            forall|rest: Seq<Reply>| #[trigger]
                ask_truth(Query::Compare(op, a, b), r.1@ + rest) == (r.0, rest),
    {
        let c = self.ns.compare(op, a, b);
        let ghost q = Query::Compare(op, a, b);
        let ghost g = seq![Reply { query: q, answer: Answer::Truth(c) }];
        proof {
            assert forall|rest: Seq<Reply>| #[trigger] ask_truth(q, g + rest) == (c, rest) by {
                lemma_ask(q, Answer::Truth(c), rest);
            }
        }
        (c, Ghost(g))
    }

    fn display_number(&self, a: Number) -> (r: (String, Replies))
        ensures
            forall|rest: Seq<Reply>| #[trigger]
                ask_text(Query::Display(a), r.1@ + rest) == (r.0@, rest),
    {
        let s = self.ns.display(a);
        let ghost q = Query::Display(a);
        let ghost g = seq![Reply { query: q, answer: Answer::Text(s@) }];
        proof {
            assert forall|rest: Seq<Reply>| #[trigger] ask_text(q, g + rest) == (s@, rest) by {
                lemma_ask(q, Answer::Text(s@), rest);
            }
        }
        (s, Ghost(g))
    }

    fn whole_count(&self, a: Number) -> (r: (Option<usize>, Replies))
        ensures
            forall|rest: Seq<Reply>| #[trigger]
                ask_count(Query::WholeCount(a), r.1@ + rest) == (r.0, rest),
    {
        let c = self.ns.whole_count(a);
        let ghost q = Query::WholeCount(a);
        let ghost g = seq![Reply { query: q, answer: Answer::Count(c) }];
        proof {
            assert forall|rest: Seq<Reply>| #[trigger] ask_count(q, g + rest) == (c, rest) by {
                lemma_ask(q, Answer::Count(c), rest);
            }
        }
        (c, Ghost(g))
    }
}

impl<'n, N: NumberSystem> Asker<'n, N> {
    /// The display form of a value.
    fn display(&self, v: &ResultType) -> (r: (String, Replies))
        ensures
            forall|rest: Seq<Reply>| #[trigger] display(v@, r.1@ + rest) == (r.0@, rest),
        decreases v,
    {
        proof {
            lemma_view(v);
        }
        match v {
            ResultType::Number(n) => {
                let (s, g) = self.display_number(*n);
                assert forall|rest: Seq<Reply>| #[trigger] display(v@, g@ + rest) == (s@, rest) by {
                    assert(ask_text(Query::Display(*n), g@ + rest) == (s@, rest));
                    assert(display(Value::Number(*n), g@ + rest) == ask_text(Query::Display(*n), g@ + rest));
                }
                (s, g)
            },
            ResultType::Bool(b) => {
                let s = if *b {
                    proof {
                        reveal_strlit("true");
                    }
                    "true".to_owned()
                } else {
                    proof {
                        reveal_strlit("false");
                    }
                    "false".to_owned()
                };
                let ghost g = Seq::<Reply>::empty();
                assert(s@ =~= display(v@, g).0);
                assert forall|rest: Seq<Reply>| #[trigger] display(v@, g + rest) == (s@, rest) by {
                    assert(g + rest =~= rest);
                }
                (s, Ghost(g))
            },
            ResultType::Str(s) => {
                let u = unescape_string(s.as_str());
                let ghost g = Seq::<Reply>::empty();
                assert forall|rest: Seq<Reply>| #[trigger] display(v@, g + rest) == (u@, rest) by {
                    assert(g + rest =~= rest);
                }
                (u, Ghost(g))
            },
            ResultType::Null => {
                let u = String::new();
                let ghost g = Seq::<Reply>::empty();
                assert forall|rest: Seq<Reply>| #[trigger] display(v@, g + rest) == (u@, rest) by {
                    assert(g + rest =~= rest);
                }
                (u, Ghost(g))
            },
            ResultType::Return(inner) => {
                let (s, g) = self.display(inner);
                assert forall|rest: Seq<Reply>| #[trigger] display(v@, g@ + rest) == (s@, rest) by {
                    assert(display((**inner)@, g@ + rest) == (s@, rest));
                }
                (s, g)
            },
        }
    }

    /// Arithmetic and comparison on two numbers.
    fn number_binary(&self, t: TokenType, a: Number, b: Number) -> (r: Evaluated)
        ensures
            forall|rest: Seq<Reply>| #[trigger]
                number_binary(t, a, b, r.1@ + rest) == (outcome_view(r.0), rest),
    {
        if t == TokenType::TokMod {
            let (n1, g1) = self.arith(ArithOp::Rem, a, b);
            let (n2, g2) = self.arith(ArithOp::Add, n1, b);
            let (n3, g3) = self.arith(ArithOp::Rem, n2, b);
            let ghost g = g1@ + g2@ + g3@;
            let res = Ok(ResultType::Number(n3));
            assert forall|rest: Seq<Reply>| #[trigger]
                number_binary(t, a, b, g + rest) == (outcome_view(res), rest) by {
                assert(g + rest =~= g1@ + (g2@ + (g3@ + rest)));
            }
            return (res, Ghost(g));
        }
        match arith_op(t) {
            Some(op) => {
                let (n, g) = self.arith(op, a, b);
                return (Ok(ResultType::Number(n)), g);
            },
            None => {},
        }
        match compare_op(t) {
            Some(op) => {
                let (c, g) = self.compare(op, a, b);
                return (Ok(ResultType::Bool(c)), g);
            },
            None => {},
        }
        let ghost g = Seq::<Reply>::empty();
        let res = Err(RuntimeError::IncompatibleOperation);
        assert forall|rest: Seq<Reply>| #[trigger]
            number_binary(t, a, b, g + rest) == (outcome_view(res), rest) by {
            assert(g + rest =~= rest);
        }
        (res, Ghost(g))
    }

    /// `s` repeated by the whole number `n`.
    fn repeat_by(&self, s: &str, n: Number) -> (r: Evaluated)
        ensures
            forall|rest: Seq<Reply>| #[trigger]
                repeat_by(s@, n, r.1@ + rest) == (outcome_view(r.0), rest),
    {
        let (c, g) = self.whole_count(n);
        match c {
            Some(k) => (Ok(ResultType::Str(repeat_string(s, k))), g),
            None => (Err(RuntimeError::IncompatibleOperation), g),
        }
    }

    /// Whether a `for` loop from `sv` to `ev` is over at `cur`.
    fn for_over(&self, sv: Number, ev: Number, cur: Number) -> (r: (bool, Replies))
        ensures
            forall|rest: Seq<Reply>| #[trigger] for_over(sv, ev, cur, r.1@ + rest) == (r.0, rest),
    {
        let (c1, g1) = self.compare(CompareOp::Ge, sv, ev);
        if c1 {
            let (c2, g2) = self.compare(CompareOp::Le, cur, ev);
            if c2 {
                let ghost g = g1@ + g2@;
                assert forall|rest: Seq<Reply>| #[trigger] for_over(sv, ev, cur, g + rest) == (true, rest) by {
                    assert(g + rest =~= g1@ + (g2@ + rest));
                }
                return (true, Ghost(g));
            }
            let (c3, g3) = self.compare(CompareOp::Le, sv, ev);
            if c3 {
                let (c4, g4) = self.compare(CompareOp::Ge, cur, ev);
                let ghost g = g1@ + g2@ + g3@ + g4@;
                assert forall|rest: Seq<Reply>| #[trigger] for_over(sv, ev, cur, g + rest) == (c4, rest) by {
                    assert(g + rest =~= g1@ + (g2@ + (g3@ + (g4@ + rest))));
                }
                return (c4, Ghost(g));
            }
            let ghost g = g1@ + g2@ + g3@;
            assert forall|rest: Seq<Reply>| #[trigger] for_over(sv, ev, cur, g + rest) == (false, rest) by {
                assert(g + rest =~= g1@ + (g2@ + (g3@ + rest)));
            }
            (false, Ghost(g))
        } else {
            let (c3, g3) = self.compare(CompareOp::Le, sv, ev);
            if c3 {
                let (c4, g4) = self.compare(CompareOp::Ge, cur, ev);
                let ghost g = g1@ + g3@ + g4@;
                assert forall|rest: Seq<Reply>| #[trigger] for_over(sv, ev, cur, g + rest) == (c4, rest) by {
                    assert(g + rest =~= g1@ + (g3@ + (g4@ + rest)));
                }
                return (c4, Ghost(g));
            }
            let ghost g = g1@ + g3@;
            assert forall|rest: Seq<Reply>| #[trigger] for_over(sv, ev, cur, g + rest) == (false, rest) by {
                assert(g + rest =~= g1@ + (g3@ + rest));
            }
            (false, Ghost(g))
        }
    }

    /// A binary operator on two values.
    fn binary(&self, t: TokenType, l: &ResultType, r: &ResultType) -> (res: Evaluated)
        ensures
            forall|rest: Seq<Reply>| #[trigger]
                sem_binary(t, l@, r@, res.1@ + rest) == (outcome_view(res.0), rest),
    {
        let ghost none = Seq::<Reply>::empty();
        proof {
            lemma_view(l);
            lemma_view(r);
        }
        let out: Evaluated = match (l, r) {
            (ResultType::Number(a), ResultType::Number(b)) => {
                return self.number_binary(t, *a, *b);
            },
            (ResultType::Number(a), ResultType::Str(s)) => {
                if t == TokenType::TokPlus {
                    let (text, g) = self.display_number(*a);
                    return (Ok(ResultType::Str(concat(text.as_str(), s.as_str()))), g);
                } else if t == TokenType::TokStar {
                    return self.repeat_by(s.as_str(), *a);
                } else {
                    (Err(RuntimeError::IncompatibleOperation), Ghost(none))
                }
            },
            (ResultType::Bool(a), ResultType::Bool(b)) => {
                if t == TokenType::TokEq {
                    (Ok(ResultType::Bool(*a == *b)), Ghost(none))
                } else if t == TokenType::TokNe {
                    (Ok(ResultType::Bool(*a != *b)), Ghost(none))
                } else {
                    (Err(RuntimeError::IncompatibleOperation), Ghost(none))
                }
            },
            (ResultType::Bool(a), ResultType::Number(b)) => {
                if t == TokenType::TokEq || t == TokenType::TokNe || t == TokenType::TokPlus || t
                    == TokenType::TokMinus || t == TokenType::TokStar || t == TokenType::TokSlash {
                    return self.number_binary(t, Number::from_bool(*a), *b);
                } else {
                    (Err(RuntimeError::IncompatibleOperation), Ghost(none))
                }
            },
            (ResultType::Number(a), ResultType::Bool(b)) => {
                if t == TokenType::TokEq || t == TokenType::TokNe || t == TokenType::TokPlus || t
                    == TokenType::TokMinus || t == TokenType::TokStar || t == TokenType::TokSlash {
                    return self.number_binary(t, *a, Number::from_bool(*b));
                } else {
                    (Err(RuntimeError::IncompatibleOperation), Ghost(none))
                }
            },
            (ResultType::Str(a), ResultType::Str(b)) => {
                if t == TokenType::TokPlus {
                    (Ok(ResultType::Str(concat(a.as_str(), b.as_str()))), Ghost(none))
                } else if t == TokenType::TokEq {
                    (Ok(ResultType::Bool(str_equal(a.as_str(), b.as_str()))), Ghost(none))
                } else if t == TokenType::TokNe {
                    (Ok(ResultType::Bool(!str_equal(a.as_str(), b.as_str()))), Ghost(none))
                } else {
                    (Err(RuntimeError::IncompatibleOperation), Ghost(none))
                }
            },
            (ResultType::Str(a), ResultType::Number(b)) => {
                if t == TokenType::TokPlus {
                    let (text, g) = self.display_number(*b);
                    return (Ok(ResultType::Str(concat(a.as_str(), text.as_str()))), g);
                } else if t == TokenType::TokStar {
                    return self.repeat_by(a.as_str(), *b);
                } else {
                    (Err(RuntimeError::IncompatibleOperation), Ghost(none))
                }
            },
            _ => (Err(RuntimeError::IncompatibleOperation), Ghost(none)),
        };
        assert forall|rest: Seq<Reply>| #[trigger]
            sem_binary(t, l@, r@, none + rest) == (outcome_view(out.0), rest) by {
            assert(none + rest =~= rest);
        }
        out
    }
}

/// The values of an argument list's outcome.
pub open spec fn args_view(r: Result<Vec<ResultType>, RuntimeError>) -> Result<Seq<Value>, RuntimeError> {
    match r {
        Ok(vs) => Ok(views(vs@)),
        Err(e) => Err(e),
    }
}

proof fn lemma_stmt_size_in(ss: Vec<Statement>, i: int, j: int)
    requires
        0 <= j <= i < ss.len(),
    ensures
        stmt_size(ss[i]) < stmts_size_from(ss, j),
    decreases i - j,
{
    if j < i {
        lemma_stmt_size_in(ss, i, j + 1);
    }
}

/// The number that a value holds, if it is a number.
fn number_of(v: &ResultType) -> (r: Option<Number>)
    ensures
        (r is Some) == (v@ is Number),
        r matches Some(n) ==> v@ == Value::Number(n),
{
    proof {
        lemma_view(v);
    }
    match v {
        ResultType::Number(n) => Some(*n),
        _ => None,
    }
}

/// Whether an outcome ends the enclosing statement list.
fn stops_here(r: &Result<ResultType, RuntimeError>) -> (b: bool)
    ensures
        b == (outcome_view(*r) is Err || outcome_view(*r) matches Ok(Value::Return(_))),
{
    match r {
        Err(_) => true,
        Ok(v) => {
            proof {
                lemma_view(v);
            }
            match v {
                ResultType::Return(_) => true,
                _ => false,
            }
        },
    }
}

/// A running program: the number system it asks, its scopes and its output.
pub struct Evaluator<'a, 'n, N: NumberSystem> {
    pub asker: Asker<'n, N>,
    pub state: State<'a>,
    pub output: String,
}

impl<'a, 'n, N: NumberSystem> Evaluator<'a, 'n, N> {
    pub open spec fn run(&self) -> Run {
        Run { env: self.state@, out: self.output@ }
    }

    /// Evaluates an expression.
    fn eval_expr(&mut self, fuel: u64, e: &'a Expression) -> (r: Evaluated)
        requires
            old(self).state@.len() > 0,
        ensures
            final(self).state@.len() == old(self).state@.len(),
            forall|rest: Seq<Reply>| #[trigger]
                sem_expr(fuel as nat, *e, old(self).run(), r.1@ + rest) == (Step {
                    outcome: outcome_view(r.0),
                    run: final(self).run(),
                    rest,
                }),
        decreases fuel, expr_size(*e), 2int,
    {
        let ghost run0 = self.run();
        let ghost none = Seq::<Reply>::empty();
        match e {
            Expression::Integer { value } => {
                let (n, g) = self.asker.from_integer(*value);
                (Ok(ResultType::Number(n)), g)
            },
            Expression::Float { value } => {
                let (n, g) = self.asker.from_decimal(value.as_str());
                (Ok(ResultType::Number(n)), g)
            },
            Expression::Grouping { value } => {
                let (v, g) = self.eval_expr(fuel, value);
                assert forall|rest: Seq<Reply>| #[trigger]
                    sem_expr(fuel as nat, *e, run0, g@ + rest) == (Step {
                        outcome: outcome_view(v),
                        run: self.run(),
                        rest,
                    }) by {
                    assert(sem_expr(fuel as nat, **value, run0, g@ + rest) == (Step {
                        outcome: outcome_view(v),
                        run: self.run(),
                        rest,
                    }));
                }
                (v, g)
            },
            Expression::UnaryOp { op, exp } => {
                let (v, g) = self.eval_expr(fuel, exp);
                let ghost o1 = outcome_view(v);
                let res = match v {
                    Ok(x) => unary(op.token_type, x),
                    Err(err) => Err(err),
                };
                assert forall|rest: Seq<Reply>| #[trigger]
                    sem_expr(fuel as nat, *e, run0, g@ + rest) == (Step {
                        outcome: outcome_view(res),
                        run: self.run(),
                        rest,
                    }) by {
                    assert(sem_expr(fuel as nat, **exp, run0, g@ + rest) == (Step {
                        outcome: o1,
                        run: self.run(),
                        rest,
                    }));
                }
                (res, g)
            },
            Expression::LogicalOp { op: _, left: _, right: _ } => self.eval_logical(fuel, e),
            Expression::BinOp { op: _, left: _, right: _ } => self.eval_binop(fuel, e),
            Expression::FunctionCall { name: _, args: _ } => self.eval_call(fuel, e),
            _ => {
                let res = match e {
                    Expression::Bool { value } => Ok(ResultType::Bool(*value)),
                    Expression::Str { value } => Ok(ResultType::Str(value.clone())),
                    Expression::Identifier { name } => match self.state.get_item(name.as_str()) {
                        Some(v) => Ok(v),
                        None => Err(RuntimeError::UnknownIdentifier),
                    },
                    _ => Err(RuntimeError::IncompatibleOperation),
                };
                assert forall|rest: Seq<Reply>| #[trigger]
                    sem_expr(fuel as nat, *e, run0, none + rest) == (Step {
                        outcome: outcome_view(res),
                        run: self.run(),
                        rest,
                    }) by {
                    assert(none + rest =~= rest);
                }
                (res, Ghost(none))
            },
        }
    }

    /// Evaluates `and` and `or`, the right operand only when the left one
    /// leaves the answer open.
    fn eval_logical(&mut self, fuel: u64, e: &'a Expression) -> (r: Evaluated)
        requires
            old(self).state@.len() > 0,
            *e is LogicalOp,
        ensures
            final(self).state@.len() == old(self).state@.len(),
            forall|rest: Seq<Reply>| #[trigger]
                sem_expr(fuel as nat, *e, old(self).run(), r.1@ + rest) == (Step {
                    outcome: outcome_view(r.0),
                    run: final(self).run(),
                    rest,
                }),
        decreases fuel, expr_size(*e), 1int,
    {
        let ghost run0 = self.run();
        let (op, left, right) = match e {
            Expression::LogicalOp { op, left, right } => (op, left, right),
            _ => {
                return (Err(RuntimeError::IncompatibleOperation), Ghost(Seq::empty()));
            },
        };
        assert(*e == Expression::LogicalOp { op: *op, left: *left, right: *right });
        let (lv, g1) = self.eval_expr(fuel, left);
        let ghost run1 = self.run();
        let short = match &lv {
            Ok(ResultType::Bool(b)) => (op.token_type == TokenType::TokOr && *b) || (op.token_type
                == TokenType::TokAnd && !*b),
            _ => false,
        };
        proof {
            if let Ok(x) = &lv {
                lemma_view(x);
            }
        }
        if lv.is_err() || short {
            assert forall|rest: Seq<Reply>| #[trigger]
                sem_expr(fuel as nat, *e, run0, g1@ + rest) == (Step {
                    outcome: outcome_view(lv),
                    run: self.run(),
                    rest,
                }) by {
                assert(sem_expr(fuel as nat, **left, run0, g1@ + rest) == (Step {
                    outcome: outcome_view(lv),
                    run: run1,
                    rest,
                }));
            }
            return (lv, g1);
        }
        let (rv, g2) = self.eval_expr(fuel, right);
        let ghost g = g1@ + g2@;
        assert forall|rest: Seq<Reply>| #[trigger]
            sem_expr(fuel as nat, *e, run0, g + rest) == (Step {
                outcome: outcome_view(rv),
                run: self.run(),
                rest,
            }) by {
            assert(g + rest =~= g1@ + (g2@ + rest));
            assert(sem_expr(fuel as nat, **left, run0, g1@ + (g2@ + rest)) == (Step {
                outcome: outcome_view(lv),
                run: run1,
                rest: g2@ + rest,
            }));
            assert(sem_expr(fuel as nat, **right, run1, g2@ + rest) == (Step {
                outcome: outcome_view(rv),
                run: self.run(),
                rest,
            }));
        }
        (rv, Ghost(g))
    }

    /// Evaluates a binary operator: the left operand, the right one, then
    /// the operator on their values.
    fn eval_binop(&mut self, fuel: u64, e: &'a Expression) -> (r: Evaluated)
        requires
            old(self).state@.len() > 0,
            *e is BinOp,
        ensures
            final(self).state@.len() == old(self).state@.len(),
            forall|rest: Seq<Reply>| #[trigger]
                sem_expr(fuel as nat, *e, old(self).run(), r.1@ + rest) == (Step {
                    outcome: outcome_view(r.0),
                    run: final(self).run(),
                    rest,
                }),
        decreases fuel, expr_size(*e), 1int,
    {
        let ghost run0 = self.run();
        let (op, left, right) = match e {
            Expression::BinOp { op, left, right } => (op, left, right),
            _ => {
                return (Err(RuntimeError::IncompatibleOperation), Ghost(Seq::empty()));
            },
        };
        assert(*e == Expression::BinOp { op: *op, left: *left, right: *right });
        let (lv, g1) = self.eval_expr(fuel, left);
        let ghost run1 = self.run();
        let ghost o1 = outcome_view(lv);
        let a = match lv {
            Ok(a) => a,
            Err(err) => {
                assert forall|rest: Seq<Reply>| #[trigger]
                    sem_expr(fuel as nat, *e, run0, g1@ + rest) == (Step {
                        outcome: Err(err),
                        run: self.run(),
                        rest,
                    }) by {
                    assert(sem_expr(fuel as nat, **left, run0, g1@ + rest) == (Step {
                        outcome: o1,
                        run: run1,
                        rest,
                    }));
                }
                return (Err(err), g1);
            },
        };
        let (rv, g2) = self.eval_expr(fuel, right);
        let ghost run2 = self.run();
        let ghost o2 = outcome_view(rv);
        let b = match rv {
            Ok(b) => b,
            Err(err) => {
                let ghost g = g1@ + g2@;
                assert forall|rest: Seq<Reply>| #[trigger]
                    sem_expr(fuel as nat, *e, run0, g + rest) == (Step {
                        outcome: Err(err),
                        run: self.run(),
                        rest,
                    }) by {
                    assert(g + rest =~= g1@ + (g2@ + rest));
                    assert(sem_expr(fuel as nat, **left, run0, g1@ + (g2@ + rest)) == (Step {
                        outcome: o1,
                        run: run1,
                        rest: g2@ + rest,
                    }));
                    assert(sem_expr(fuel as nat, **right, run1, g2@ + rest) == (Step {
                        outcome: o2,
                        run: run2,
                        rest,
                    }));
                }
                return (Err(err), Ghost(g));
            },
        };
        let (o, g3) = self.asker.binary(op.token_type, &a, &b);
        let ghost g = g1@ + g2@ + g3@;
        assert forall|rest: Seq<Reply>| #[trigger]
            sem_expr(fuel as nat, *e, run0, g + rest) == (Step {
                outcome: outcome_view(o),
                run: self.run(),
                rest,
            }) by {
            assert(g + rest =~= g1@ + (g2@ + (g3@ + rest)));
            assert(sem_expr(fuel as nat, **left, run0, g1@ + (g2@ + (g3@ + rest))) == (Step {
                outcome: o1,
                run: run1,
                rest: g2@ + (g3@ + rest),
            }));
            assert(sem_expr(fuel as nat, **right, run1, g2@ + (g3@ + rest)) == (Step {
                outcome: o2,
                run: run2,
                rest: g3@ + rest,
            }));
            assert(sem_binary(op.token_type, a@, b@, g3@ + rest) == (outcome_view(o), rest));
        }
        (o, Ghost(g))
    }

    /// Evaluates a call: its arguments, then the call.
    fn eval_call(&mut self, fuel: u64, e: &'a Expression) -> (r: Evaluated)
        requires
            old(self).state@.len() > 0,
            *e is FunctionCall,
        ensures
            final(self).state@.len() == old(self).state@.len(),
            forall|rest: Seq<Reply>| #[trigger]
                sem_expr(fuel as nat, *e, old(self).run(), r.1@ + rest) == (Step {
                    outcome: outcome_view(r.0),
                    run: final(self).run(),
                    rest,
                }),
        decreases fuel, expr_size(*e), 1int,
    {
        let ghost run0 = self.run();
        let (name, args) = match e {
            Expression::FunctionCall { name, args } => (name, args),
            _ => {
                return (Err(RuntimeError::IncompatibleOperation), Ghost(Seq::empty()));
            },
        };
        assert(*e == Expression::FunctionCall { name: *name, args: *args });
        let check = match self.state.get_function(name.as_str()) {
            None => Some(RuntimeError::UnknownFunction),
            Some(d) => match d {
                Statement::FunctionDeclaration { name: _, params, stmts: _ } => {
                    if params.len() != args.len() {
                        Some(RuntimeError::ArgumentCount)
                    } else {
                        None
                    }
                },
                _ => Some(RuntimeError::NotAFunction),
            },
        };
        assert(check == call_check(run0.env, name@, args@.len()));
        if let Some(err) = check {
            let ghost none = Seq::<Reply>::empty();
            assert forall|rest: Seq<Reply>| #[trigger]
                sem_expr(fuel as nat, *e, run0, none + rest) == (Step {
                    outcome: Err(err),
                    run: self.run(),
                    rest,
                }) by {
                assert(none + rest =~= rest);
            }
            return (Err(err), Ghost(none));
        }
        let (av, g1) = self.eval_args(fuel, args, 0);
        let ghost run1 = self.run();
        let ghost o1 = args_view(av);
        let vals = match av {
            Ok(vals) => vals,
            Err(err) => {
                assert forall|rest: Seq<Reply>| #[trigger]
                    sem_expr(fuel as nat, *e, run0, g1@ + rest) == (Step {
                        outcome: Err(err),
                        run: self.run(),
                        rest,
                    }) by {
                    assert(sem_args(fuel as nat, *args, 0, run0, g1@ + rest) == (ArgsStep {
                        outcome: o1,
                        run: run1,
                        rest,
                    }));
                }
                return (Err(err), g1);
            },
        };
        let (c, g2) = self.call(fuel, e, vals);
        let ghost g = g1@ + g2@;
        assert forall|rest: Seq<Reply>| #[trigger]
            sem_expr(fuel as nat, *e, run0, g + rest) == (Step {
                outcome: outcome_view(c),
                run: self.run(),
                rest,
            }) by {
            assert(g + rest =~= g1@ + (g2@ + rest));
            assert(sem_args(fuel as nat, *args, 0, run0, g1@ + (g2@ + rest)) == (ArgsStep {
                outcome: o1,
                run: run1,
                rest: g2@ + rest,
            }));
            assert(sem_call(fuel as nat, *e, views(vals@), run1, g2@ + rest) == (Step {
                outcome: outcome_view(c),
                run: self.run(),
                rest,
            }));
        }
        (c, Ghost(g))
    }

    /// Evaluates `args[i..]` from left to right.
    fn eval_args(&mut self, fuel: u64, args: &'a Vec<Expression>, i: usize) -> (r: (
        Result<Vec<ResultType>, RuntimeError>,
        Replies,
    ))
        requires
            old(self).state@.len() > 0,
            i <= args@.len(),
        ensures
            final(self).state@.len() == old(self).state@.len(),
            forall|rest: Seq<Reply>| #[trigger]
                sem_args(fuel as nat, *args, i as int, old(self).run(), r.1@ + rest) == (ArgsStep {
                    outcome: args_view(r.0),
                    run: final(self).run(),
                    rest,
                }),
        decreases fuel, args_size_from(*args, i as int), 2int,
    {
        let ghost run0 = self.run();
        let ghost none = Seq::<Reply>::empty();
        if i >= args.len() {
            let res = Ok(Vec::new());
            assert forall|rest: Seq<Reply>| #[trigger]
                sem_args(fuel as nat, *args, i as int, run0, none + rest) == (ArgsStep {
                    outcome: args_view(res),
                    run: self.run(),
                    rest,
                }) by {
                assert(none + rest =~= rest);
                assert(views(Seq::<ResultType>::empty()) =~= Seq::<Value>::empty());
            }
            return (res, Ghost(none));
        }
        let (h, g1) = self.eval_expr(fuel, &args[i]);
        let ghost run1 = self.run();
        let ghost o1 = outcome_view(h);
        let v = match h {
            Ok(v) => v,
            Err(err) => {
                assert forall|rest: Seq<Reply>| #[trigger]
                    sem_args(fuel as nat, *args, i as int, run0, g1@ + rest) == (ArgsStep {
                        outcome: Err(err),
                        run: self.run(),
                        rest,
                    }) by {
                    assert(sem_expr(fuel as nat, args@[i as int], run0, g1@ + rest) == (Step {
                        outcome: o1,
                        run: run1,
                        rest,
                    }));
                }
                return (Err(err), g1);
            },
        };
        let ghost vview = v@;
        let (tl, g2) = self.eval_args(fuel, args, i + 1);
        let ghost run2 = self.run();
        let ghost o2 = args_view(tl);
        let ghost g = g1@ + g2@;
        let res = match tl {
            Ok(vs) => {
                let mut out = Vec::new();
                out.push(v);
                let mut vs = vs;
                let ghost vv = vs@;
                out.append(&mut vs);
                assert(views(out@) =~= seq![vview] + views(vv));
                Ok(out)
            },
            Err(err) => Err(err),
        };
        assert forall|rest: Seq<Reply>| #[trigger]
            sem_args(fuel as nat, *args, i as int, run0, g + rest) == (ArgsStep {
                outcome: args_view(res),
                run: self.run(),
                rest,
            }) by {
            assert(g + rest =~= g1@ + (g2@ + rest));
            assert(sem_expr(fuel as nat, args@[i as int], run0, g1@ + (g2@ + rest)) == (Step {
                outcome: o1,
                run: run1,
                rest: g2@ + rest,
            }));
            assert(sem_args(fuel as nat, *args, i + 1, run1, g2@ + rest) == (ArgsStep {
                outcome: o2,
                run: run2,
                rest,
            }));
        }
        (res, Ghost(g))
    }

    /// Calls the function that `e` names on the values `vals`.
    #[verifier::spinoff_prover]
    #[verifier::rlimit(60)]
    fn call(&mut self, fuel: u64, e: &'a Expression, vals: Vec<ResultType>) -> (r: Evaluated)
        requires
            old(self).state@.len() > 0,
            *e is FunctionCall,
        ensures
            final(self).state@.len() == old(self).state@.len(),
            forall|rest: Seq<Reply>| #[trigger]
                sem_call(fuel as nat, *e, views(vals@), old(self).run(), r.1@ + rest) == (Step {
                    outcome: outcome_view(r.0),
                    run: final(self).run(),
                    rest,
                }),
        decreases fuel, expr_size(*e), 0int,
    {
        let ghost run0 = self.run();
        let ghost none = Seq::<Reply>::empty();
        let name = match e {
            Expression::FunctionCall { name, args: _ } => name,
            _ => {
                return (Err(RuntimeError::UnknownFunction), Ghost(none));
            },
        };
        let res: Result<ResultType, RuntimeError> = match self.state.get_function(name.as_str()) {
            None => Err(RuntimeError::UnknownFunction),
            Some(d) => match d {
                Statement::FunctionDeclaration { name: _, params, stmts } => {
                    if params.len() != vals.len() {
                        Err(RuntimeError::ArgumentCount)
                    } else if fuel == 0 {
                        Err(RuntimeError::OutOfFuel)
                    } else {
                        self.state.get_child_env();
                        let ghost env1 = self.state@;
                        let mut i: usize = 0;
                        while i < params.len()
                            invariant
                                i <= params@.len(),
                                params@.len() == vals@.len(),
                                self.state@ == bind_params(env1, *params, views(vals@), i as nat),
                                self.state@.len() == env1.len(),
                                env1.len() > 0,
                                env1 == run0.env.push(empty_frame()),
                                self.output@ == run0.out,
                            decreases params@.len() - i,
                        {
                            match &params[i] {
                                Statement::Parameter { name } => {
                                    self.state.set_local_item(name.clone(), vals[i].duplicate());
                                },
                                _ => {},
                            }
                            i = i + 1;
                        }
                        let ghost run_b = self.run();
                        let (b, g) = self.eval_stmts(fuel - 1, stmts);
                        let ghost run_e = self.run();
                        self.state.drop_child_env();
                        let ghost ob = outcome_view(b);
                        proof {
                            if let Ok(x) = &b {
                                lemma_view(x);
                            }
                        }
                        let out = match b {
                            Ok(ResultType::Return(v)) => Ok(*v),
                            other => other,
                        };
                        assert forall|rest: Seq<Reply>| #[trigger]
                            sem_call(fuel as nat, *e, views(vals@), run0, g@ + rest) == (Step {
                                outcome: outcome_view(out),
                                run: self.run(),
                                rest,
                            }) by {
                            assert(lookup_fn(run0.env, name@) == Some(*d));
                            assert(run_b == (Run {
                                env: bind_params(run0.env.push(empty_frame()), *params, views(vals@), views(vals@).len()),
                                out: run0.out,
                            }));
                            assert(sem_stmts((fuel - 1) as nat, *stmts, 0, run_b, g@ + rest) == (Step {
                                outcome: ob,
                                run: run_e,
                                rest,
                            }));
                        }
                        return (out, g);
                    }
                },
                _ => Err(RuntimeError::NotAFunction),
            },
        };
        assert forall|rest: Seq<Reply>| #[trigger]
            sem_call(fuel as nat, *e, views(vals@), run0, none + rest) == (Step {
                outcome: outcome_view(res),
                run: self.run(),
                rest,
            }) by {
            assert(none + rest =~= rest);
        }
        (res, Ghost(none))
    }

    /// Runs a statement list in order, stopping at an error or a `ret`.
    #[verifier::spinoff_prover]
    #[verifier::rlimit(60)]
    fn eval_stmts(&mut self, fuel: u64, ss: &'a Vec<Statement>) -> (r: Evaluated)
        requires
            old(self).state@.len() > 0,
        ensures
            final(self).state@.len() == old(self).state@.len(),
            forall|rest: Seq<Reply>| #[trigger]
                sem_stmts(fuel as nat, *ss, 0, old(self).run(), r.1@ + rest) == (Step {
                    outcome: outcome_view(r.0),
                    run: final(self).run(),
                    rest,
                }),
        decreases fuel, stmts_size_from(*ss, 0), 1int,
    {
        let ghost run0 = self.run();
        let ghost len0 = self.state@.len();
        let ghost mut g = Seq::<Reply>::empty();
        let mut i: usize = 0;
        assert forall|rest: Seq<Reply>| #[trigger]
            sem_stmts(fuel as nat, *ss, 0, run0, g + rest) == sem_stmts(
                fuel as nat,
                *ss,
                i as int,
                self.run(),
                rest,
            ) by {
            assert(g + rest =~= rest);
        }
        loop
            invariant
                i <= ss@.len(),
                self.state@.len() == len0,
                len0 == old(self).state@.len(),
                run0 == old(self).run(),
                len0 > 0,
                forall|rest: Seq<Reply>| #[trigger]
                    sem_stmts(fuel as nat, *ss, 0, run0, g + rest) == sem_stmts(
                        fuel as nat,
                        *ss,
                        i as int,
                        self.run(),
                        rest,
                    ),
            decreases ss@.len() - i,
        {
            if i >= ss.len() {
                return (Ok(ResultType::Null), Ghost(g));
            }
            proof {
                lemma_stmt_size_in(*ss, i as int, 0);
            }
            let ghost run_i = self.run();
            let (h, gh) = self.eval_stmt(fuel, &ss[i]);
            let ghost run_h = self.run();
            let ghost step_h = Step { outcome: outcome_view(h), run: run_h, rest: Seq::<Reply>::empty() };
            assert forall|rest: Seq<Reply>|
                sem_stmts(fuel as nat, *ss, i as int, run_i, #[trigger] (gh@ + rest)) == if stops(
                    Step { outcome: outcome_view(h), run: run_h, rest },
                ) {
                    Step { outcome: outcome_view(h), run: run_h, rest }
                } else {
                    sem_stmts(fuel as nat, *ss, i + 1, run_h, rest)
                } by {
                assert(sem_stmt(fuel as nat, ss@[i as int], run_i, gh@ + rest) == (Step {
                    outcome: outcome_view(h),
                    run: run_h,
                    rest,
                }));
            }
            if stops_here(&h) {
                let ghost g2 = g + gh@;
                assert forall|rest: Seq<Reply>| #[trigger]
                    sem_stmts(fuel as nat, *ss, 0, run0, g2 + rest) == (Step {
                        outcome: outcome_view(h),
                        run: self.run(),
                        rest,
                    }) by {
                    assert(g2 + rest =~= g + (gh@ + rest));
                    assert(sem_stmts(fuel as nat, *ss, 0, run0, g + (gh@ + rest)) == sem_stmts(
                        fuel as nat,
                        *ss,
                        i as int,
                        run_i,
                        gh@ + rest,
                    ));
                    assert(stops(Step { outcome: outcome_view(h), run: run_h, rest }));
                }
                return (h, Ghost(g2));
            }
            let ghost g_old = g;
            proof {
                g = g + gh@;
            }
            i = i + 1;
            assert forall|rest: Seq<Reply>| #[trigger]
                sem_stmts(fuel as nat, *ss, 0, run0, g + rest) == sem_stmts(
                    fuel as nat,
                    *ss,
                    i as int,
                    self.run(),
                    rest,
                ) by {
                assert(g + rest =~= g_old + (gh@ + rest));
                assert(sem_stmts(fuel as nat, *ss, 0, run0, g_old + (gh@ + rest)) == sem_stmts(
                    fuel as nat,
                    *ss,
                    i - 1,
                    run_i,
                    gh@ + rest,
                ));
                assert(!stops(Step { outcome: outcome_view(h), run: run_h, rest }));
            }
        }
    }

    /// Runs one statement.
    fn eval_stmt(&mut self, fuel: u64, s: &'a Statement) -> (r: Evaluated)
        requires
            old(self).state@.len() > 0,
        ensures
            final(self).state@.len() == old(self).state@.len(),
            forall|rest: Seq<Reply>| #[trigger]
                sem_stmt(fuel as nat, *s, old(self).run(), r.1@ + rest) == (Step {
                    outcome: outcome_view(r.0),
                    run: final(self).run(),
                    rest,
                }),
        decreases fuel, stmt_size(*s), 5int,
    {
        let ghost run0 = self.run();
        let ghost none = Seq::<Reply>::empty();
        match s {
            Statement::PrintStatement { value: _ } => self.exec_print(fuel, s),
            Statement::PrintlnStatement { value: _ } => self.exec_print(fuel, s),
            Statement::Assignment { left: _, right: _ } => self.exec_assign(fuel, s),
            Statement::LocalAssignment { left: _, right: _ } => self.exec_assign(fuel, s),
            Statement::Return { val } => {
                let (v, g) = self.eval_expr(fuel, val);
                let ghost o1 = outcome_view(v);
                let res = match v {
                    Ok(x) => Ok(ResultType::Return(Box::new(x))),
                    Err(err) => Err(err),
                };
                assert forall|rest: Seq<Reply>| #[trigger]
                    sem_stmt(fuel as nat, *s, run0, g@ + rest) == (Step {
                        outcome: outcome_view(res),
                        run: self.run(),
                        rest,
                    }) by {
                    assert(sem_expr(fuel as nat, *val, run0, g@ + rest) == (Step {
                        outcome: o1,
                        run: self.run(),
                        rest,
                    }));
                }
                (res, g)
            },
            Statement::FunctionCall { expr } => {
                let (v, g) = self.eval_expr(fuel, expr);
                assert forall|rest: Seq<Reply>| #[trigger]
                    sem_stmt(fuel as nat, *s, run0, g@ + rest) == (Step {
                        outcome: outcome_view(v),
                        run: self.run(),
                        rest,
                    }) by {
                    assert(sem_expr(fuel as nat, *expr, run0, g@ + rest) == (Step {
                        outcome: outcome_view(v),
                        run: self.run(),
                        rest,
                    }));
                }
                (v, g)
            },
            Statement::IfStatement { test: _, then_stmts: _, else_stmts: _ } => self.exec_if(fuel, s),
            Statement::While { test: _, stmts: _ } => {
                self.state.get_child_env();
                let ghost run1 = self.run();
                let (r, g) = self.exec_while(fuel, s);
                let ghost run2 = self.run();
                self.state.drop_child_env();
                assert forall|rest: Seq<Reply>| #[trigger]
                    sem_stmt(fuel as nat, *s, run0, g@ + rest) == (Step {
                        outcome: outcome_view(r),
                        run: self.run(),
                        rest,
                    }) by {
                    assert(run1 == enter(run0));
                    assert(sem_while(fuel as nat, *s, run1, g@ + rest) == (Step {
                        outcome: outcome_view(r),
                        run: run2,
                        rest,
                    }));
                }
                (r, g)
            },
            Statement::For { identifier, start: _, end: _, step: _, stmts: _ } => {
                if let Expression::Identifier { name: _ } = identifier {
                    self.state.get_child_env();
                    let ghost run1 = self.run();
                    let (r, g) = self.exec_for(fuel, s);
                    let ghost run2 = self.run();
                    self.state.drop_child_env();
                    assert forall|rest: Seq<Reply>| #[trigger]
                        sem_stmt(fuel as nat, *s, run0, g@ + rest) == (Step {
                            outcome: outcome_view(r),
                            run: self.run(),
                            rest,
                        }) by {
                        assert(run1 == enter(run0));
                        assert(sem_for_start(fuel as nat, *s, run1, g@ + rest) == (Step {
                            outcome: outcome_view(r),
                            run: run2,
                            rest,
                        }));
                    }
                    (r, g)
                } else {
                    assert forall|rest: Seq<Reply>| #[trigger]
                        sem_stmt(fuel as nat, *s, run0, none + rest) == (Step {
                            outcome: Err(RuntimeError::NotAnIdentifier),
                            run: self.run(),
                            rest,
                        }) by {
                        assert(none + rest =~= rest);
                    }
                    (Err(RuntimeError::NotAnIdentifier), Ghost(none))
                }
            },
            Statement::FunctionDeclaration { name, params: _, stmts: _ } => {
                self.state.set_function(name.clone(), s);
                assert forall|rest: Seq<Reply>| #[trigger]
                    sem_stmt(fuel as nat, *s, run0, none + rest) == (Step {
                        outcome: Ok(Value::Null),
                        run: self.run(),
                        rest,
                    }) by {
                    assert(none + rest =~= rest);
                }
                (Ok(ResultType::Null), Ghost(none))
            },
            Statement::Parameter { name: _ } => {
                assert forall|rest: Seq<Reply>| #[trigger]
                    sem_stmt(fuel as nat, *s, run0, none + rest) == (Step {
                        outcome: Ok(Value::Null),
                        run: self.run(),
                        rest,
                    }) by {
                    assert(none + rest =~= rest);
                }
                (Ok(ResultType::Null), Ghost(none))
            },
        }
    }

    /// `print` and `println`.
    fn exec_print(&mut self, fuel: u64, s: &'a Statement) -> (r: Evaluated)
        requires
            old(self).state@.len() > 0,
            *s is PrintStatement || *s is PrintlnStatement,
        ensures
            final(self).state@.len() == old(self).state@.len(),
            forall|rest: Seq<Reply>| #[trigger]
                sem_stmt(fuel as nat, *s, old(self).run(), r.1@ + rest) == (Step {
                    outcome: outcome_view(r.0),
                    run: final(self).run(),
                    rest,
                }),
        decreases fuel, stmt_size(*s), 4int,
    {
        let ghost run0 = self.run();
        let (value, newline) = match s {
            Statement::PrintlnStatement { value } => (value, true),
            Statement::PrintStatement { value } => (value, false),
            _ => {
                return (Err(RuntimeError::IncompatibleOperation), Ghost(Seq::empty()));
            },
        };
        assert(newline ==> *s == Statement::PrintlnStatement { value: *value });
        assert(!newline ==> *s == Statement::PrintStatement { value: *value });
        let (v, g1) = self.eval_expr(fuel, value);
        let ghost run1 = self.run();
        let ghost o1 = outcome_view(v);
        let x = match v {
            Ok(x) => x,
            Err(err) => {
                assert forall|rest: Seq<Reply>| #[trigger]
                    sem_stmt(fuel as nat, *s, run0, g1@ + rest) == (Step {
                        outcome: Err(err),
                        run: self.run(),
                        rest,
                    }) by {
                    assert(sem_expr(fuel as nat, *value, run0, g1@ + rest) == (Step {
                        outcome: o1,
                        run: run1,
                        rest,
                    }));
                }
                return (Err(err), g1);
            },
        };
        let ghost out1 = self.output@;
        let (text, g2) = self.asker.display(&x);
        self.output.append(text.as_str());
        let ghost suffix = if newline {
            seq!['\n']
        } else {
            Seq::<char>::empty()
        };
        if newline {
            proof {
                reveal_strlit("\n");
            }
            self.output.append("\n");
            assert("\n"@ =~= seq!['\n']);
        }
        assert(self.output@ =~= out1 + text@ + suffix);
        let ghost g = g1@ + g2@;
        assert forall|rest: Seq<Reply>| #[trigger]
            sem_stmt(fuel as nat, *s, run0, g + rest) == (Step {
                outcome: Ok(Value::Null),
                run: self.run(),
                rest,
            }) by {
            assert(g + rest =~= g1@ + (g2@ + rest));
            assert(sem_expr(fuel as nat, *value, run0, g1@ + (g2@ + rest)) == (Step {
                outcome: o1,
                run: run1,
                rest: g2@ + rest,
            }));
            assert(display(x@, g2@ + rest) == (text@, rest));
        }
        (Ok(ResultType::Null), Ghost(g))
    }

    /// Assignment and local assignment.
    fn exec_assign(&mut self, fuel: u64, s: &'a Statement) -> (r: Evaluated)
        requires
            old(self).state@.len() > 0,
            *s is Assignment || *s is LocalAssignment,
        ensures
            final(self).state@.len() == old(self).state@.len(),
            forall|rest: Seq<Reply>| #[trigger]
                sem_stmt(fuel as nat, *s, old(self).run(), r.1@ + rest) == (Step {
                    outcome: outcome_view(r.0),
                    run: final(self).run(),
                    rest,
                }),
        decreases fuel, stmt_size(*s), 4int,
    {
        let ghost run0 = self.run();
        let (left, right, local) = match s {
            Statement::Assignment { left, right } => (left, right, false),
            Statement::LocalAssignment { left, right } => (left, right, true),
            _ => {
                return (Err(RuntimeError::IncompatibleOperation), Ghost(Seq::empty()));
            },
        };
        assert(local ==> *s == Statement::LocalAssignment { left: *left, right: *right });
        assert(!local ==> *s == Statement::Assignment { left: *left, right: *right });
        let (v, g) = self.eval_expr(fuel, right);
        let ghost run1 = self.run();
        let ghost o1 = outcome_view(v);
        let res = match v {
            Ok(x) => match left {
                Expression::Identifier { name } => {
                    if local {
                        self.state.set_local_item(name.clone(), x);
                    } else {
                        self.state.set_item(name.clone(), x);
                    }
                    Ok(ResultType::Null)
                },
                _ => Err(RuntimeError::NotAnIdentifier),
            },
            Err(err) => Err(err),
        };
        assert forall|rest: Seq<Reply>| #[trigger]
            sem_stmt(fuel as nat, *s, run0, g@ + rest) == (Step {
                outcome: outcome_view(res),
                run: self.run(),
                rest,
            }) by {
            assert(sem_expr(fuel as nat, *right, run0, g@ + rest) == (Step {
                outcome: o1,
                run: run1,
                rest,
            }));
        }
        (res, g)
    }

    /// `if`: the branch that the test picks runs in a new scope.
    fn exec_if(&mut self, fuel: u64, s: &'a Statement) -> (r: Evaluated)
        requires
            old(self).state@.len() > 0,
            *s is IfStatement,
        ensures
            final(self).state@.len() == old(self).state@.len(),
            forall|rest: Seq<Reply>| #[trigger]
                sem_stmt(fuel as nat, *s, old(self).run(), r.1@ + rest) == (Step {
                    outcome: outcome_view(r.0),
                    run: final(self).run(),
                    rest,
                }),
        decreases fuel, stmt_size(*s), 4int,
    {
        let ghost run0 = self.run();
        let (test, then_stmts, else_stmts) = match s {
            Statement::IfStatement { test, then_stmts, else_stmts } => (test, then_stmts, else_stmts),
            _ => {
                return (Err(RuntimeError::IncompatibleOperation), Ghost(Seq::empty()));
            },
        };
        assert(*s == Statement::IfStatement {
            test: *test,
            then_stmts: *then_stmts,
            else_stmts: *else_stmts,
        });
        let (t, g1) = self.eval_expr(fuel, test);
        let ghost run1 = self.run();
        let ghost tv = outcome_view(t);
        assert forall|rest: Seq<Reply>|
            sem_expr(fuel as nat, *test, run0, #[trigger] (g1@ + rest)) == (Step {
                outcome: tv,
                run: run1,
                rest,
            }) by {
            assert(sem_expr(fuel as nat, *test, run0, g1@ + rest) == (Step {
                outcome: tv,
                run: run1,
                rest,
            }));
        }
        let v = match t {
            Ok(v) => v,
            Err(err) => {
                return (Err(err), g1);
            },
        };
        proof {
            lemma_view(&v);
        }
        if let ResultType::Return(_) = v {
            return (Ok(v), g1);
        }
        let b = match truth_of(&v) {
            Ok(b) => b,
            Err(err) => {
                return (Err(err), g1);
            },
        };
        self.state.get_child_env();
        let ghost run2 = self.run();
        let (r, g2) = if b {
            self.eval_stmts(fuel, then_stmts)
        } else {
            self.eval_stmts(fuel, else_stmts)
        };
        let ghost run3 = self.run();
        self.state.drop_child_env();
        let ghost g = g1@ + g2@;
        assert forall|rest: Seq<Reply>| #[trigger]
            sem_stmt(fuel as nat, *s, run0, g + rest) == (Step {
                outcome: outcome_view(r),
                run: self.run(),
                rest,
            }) by {
            assert(g + rest =~= g1@ + (g2@ + rest));
            assert(sem_expr(fuel as nat, *test, run0, g1@ + (g2@ + rest)) == (Step {
                outcome: tv,
                run: run1,
                rest: g2@ + rest,
            }));
            assert(run2 == enter(run1));
            assert(sem_stmts(fuel as nat, if b { *then_stmts } else { *else_stmts }, 0, run2, g2@ + rest) == (Step {
                outcome: outcome_view(r),
                run: run3,
                rest,
            }));
        }
        (r, Ghost(g))
    }

    /// The iterations of a `while` loop `s`, in the loop's scope.
    #[verifier::spinoff_prover]
    #[verifier::rlimit(60)]
    fn exec_while(&mut self, fuel: u64, s: &'a Statement) -> (r: Evaluated)
        requires
            old(self).state@.len() > 0,
            *s is While,
        ensures
            final(self).state@.len() == old(self).state@.len(),
            forall|rest: Seq<Reply>| #[trigger]
                sem_while(fuel as nat, *s, old(self).run(), r.1@ + rest) == (Step {
                    outcome: outcome_view(r.0),
                    run: final(self).run(),
                    rest,
                }),
        decreases fuel, stmt_size(*s), 4int,
    {
        let ghost run0 = self.run();
        let ghost len0 = self.state@.len();
        let ghost none = Seq::<Reply>::empty();
        let (test, stmts) = match s {
            Statement::While { test, stmts } => (test, stmts),
            _ => {
                return (Ok(ResultType::Null), Ghost(none));
            },
        };
        assert(*s == Statement::While { test: *test, stmts: *stmts });
        let mut f = fuel;
        let ghost mut g = none;
        assert forall|rest: Seq<Reply>| #[trigger]
            sem_while(fuel as nat, *s, run0, g + rest) == sem_while(f as nat, *s, self.run(), rest) by {
            assert(g + rest =~= rest);
        }
        loop
            invariant
                f <= fuel,
                self.state@.len() == len0,
                len0 == old(self).state@.len(),
                run0 == old(self).run(),
                len0 > 0,
                *s == (Statement::While { test: *test, stmts: *stmts }),
                forall|rest: Seq<Reply>| #[trigger]
                    sem_while(fuel as nat, *s, run0, g + rest) == sem_while(
                        f as nat,
                        *s,
                        self.run(),
                        rest,
                    ),
            decreases f,
        {
            let ghost run_i = self.run();
            if f == 0 {
                assert forall|rest: Seq<Reply>| #[trigger]
                    sem_while(fuel as nat, *s, run0, g + rest) == (Step {
                        outcome: Err(RuntimeError::OutOfFuel),
                        run: self.run(),
                        rest,
                    }) by {
                    assert(sem_while(fuel as nat, *s, run0, g + rest) == sem_while(0, *s, run_i, rest));
                }
                return (Err(RuntimeError::OutOfFuel), Ghost(g));
            }
            let (t, gt) = self.eval_expr(f, test);
            let ghost run_t = self.run();
            let ghost ot = outcome_view(t);
            let ghost g1 = g + gt@;
            let early: Option<Result<ResultType, RuntimeError>> = match t {
                Err(err) => Some(Err(err)),
                Ok(v) => {
                    proof {
                        lemma_view(&v);
                    }
                    if let ResultType::Return(_) = v {
                        Some(Ok(v))
                    } else {
                        match truth_of(&v) {
                            Err(err) => Some(Err(err)),
                            Ok(false) => Some(Ok(ResultType::Null)),
                            Ok(true) => None,
                        }
                    }
                },
            };
            if let Some(res) = early {
                assert forall|rest: Seq<Reply>| #[trigger]
                    sem_while(fuel as nat, *s, run0, g1 + rest) == (Step {
                        outcome: outcome_view(res),
                        run: self.run(),
                        rest,
                    }) by {
                    assert(g1 + rest =~= g + (gt@ + rest));
                    assert(sem_while(fuel as nat, *s, run0, g + (gt@ + rest)) == sem_while(
                        f as nat,
                        *s,
                        run_i,
                        gt@ + rest,
                    ));
                    assert(sem_expr(f as nat, *test, run_i, gt@ + rest) == (Step {
                        outcome: ot,
                        run: run_t,
                        rest,
                    }));
                }
                return (res, Ghost(g1));
            }
            let (b, gb) = self.eval_stmts(f, stmts);
            let ghost run_b = self.run();
            let ghost ob = outcome_view(b);
            let ghost g2 = g1 + gb@;
            if stops_here(&b) {
                assert forall|rest: Seq<Reply>| #[trigger]
                    sem_while(fuel as nat, *s, run0, g2 + rest) == (Step {
                        outcome: outcome_view(b),
                        run: self.run(),
                        rest,
                    }) by {
                    assert(g2 + rest =~= g + (gt@ + (gb@ + rest)));
                    assert(sem_while(fuel as nat, *s, run0, g + (gt@ + (gb@ + rest))) == sem_while(
                        f as nat,
                        *s,
                        run_i,
                        gt@ + (gb@ + rest),
                    ));
                    assert(sem_expr(f as nat, *test, run_i, gt@ + (gb@ + rest)) == (Step {
                        outcome: ot,
                        run: run_t,
                        rest: gb@ + rest,
                    }));
                    assert(sem_stmts(f as nat, *stmts, 0, run_t, gb@ + rest) == (Step {
                        outcome: ob,
                        run: run_b,
                        rest,
                    }));
                }
                return (b, Ghost(g2));
            }
            let ghost g_old = g;
            proof {
                g = g2;
            }
            f = f - 1;
            assert forall|rest: Seq<Reply>| #[trigger]
                sem_while(fuel as nat, *s, run0, g + rest) == sem_while(f as nat, *s, self.run(), rest) by {
                assert(g + rest =~= g_old + (gt@ + (gb@ + rest)));
                assert(sem_while(fuel as nat, *s, run0, g_old + (gt@ + (gb@ + rest))) == sem_while(
                    (f + 1) as nat,
                    *s,
                    run_i,
                    gt@ + (gb@ + rest),
                ));
                assert(sem_expr((f + 1) as nat, *test, run_i, gt@ + (gb@ + rest)) == (Step {
                    outcome: ot,
                    run: run_t,
                    rest: gb@ + rest,
                }));
                assert(sem_stmts((f + 1) as nat, *stmts, 0, run_t, gb@ + rest) == (Step {
                    outcome: ob,
                    run: run_b,
                    rest,
                }));
            }
        }
    }

    /// A `for` loop `s` in its scope: the start, the end and the step, then
    /// the iterations.
    #[verifier::spinoff_prover]
    #[verifier::rlimit(60)]
    fn exec_for(&mut self, fuel: u64, s: &'a Statement) -> (r: Evaluated)
        requires
            old(self).state@.len() > 0,
            *s is For && s->For_identifier is Identifier,
        ensures
            final(self).state@.len() == old(self).state@.len(),
            forall|rest: Seq<Reply>| #[trigger]
                sem_for_start(fuel as nat, *s, old(self).run(), r.1@ + rest) == (Step {
                    outcome: outcome_view(r.0),
                    run: final(self).run(),
                    rest,
                }),
        decreases fuel, stmt_size(*s), 4int,
    {
        let ghost run0 = self.run();
        let ghost none = Seq::<Reply>::empty();
        let (name, start, end, step) = match s {
            Statement::For {
                identifier: Expression::Identifier { name },
                start,
                end,
                step,
                stmts: _,
            } => (name, start, end, step),
            _ => {
                assert forall|rest: Seq<Reply>| #[trigger]
                    sem_for_start(fuel as nat, *s, run0, none + rest) == (Step {
                        outcome: Ok(Value::Null),
                        run: self.run(),
                        rest,
                    }) by {
                    assert(none + rest =~= rest);
                }
                return (Ok(ResultType::Null), Ghost(none));
            },
        };
        let (a, ga) = self.eval_expr(fuel, start);
        let ghost run_a = self.run();
        let ghost oa = outcome_view(a);
        assert forall|rest: Seq<Reply>|
            sem_expr(fuel as nat, *start, run0, #[trigger] (ga@ + rest)) == (Step {
                outcome: oa,
                run: run_a,
                rest,
            }) by {
            assert(sem_expr(fuel as nat, *start, run0, ga@ + rest) == (Step {
                outcome: oa,
                run: run_a,
                rest,
            }));
        }
        let sv = match a {
            Ok(ResultType::Number(sv)) => sv,
            Ok(other) => {
                proof {
                    lemma_view(&other);
                }
                return (Ok(ResultType::Null), ga);
            },
            Err(err) => {
                return (Err(err), ga);
            },
        };
        self.state.set_item(name.clone(), ResultType::Number(sv));
        let ghost run1 = self.run();
        let (r, gr) = self.for_bounds(fuel, s, sv);
        let ghost g = ga@ + gr@;
        assert forall|rest: Seq<Reply>| #[trigger]
            sem_for_start(fuel as nat, *s, run0, g + rest) == (Step {
                outcome: outcome_view(r),
                run: self.run(),
                rest,
            }) by {
            assert(g + rest =~= ga@ + (gr@ + rest));
            assert(sem_expr(fuel as nat, *start, run0, ga@ + (gr@ + rest)) == (Step {
                outcome: oa,
                run: run_a,
                rest: gr@ + rest,
            }));
            assert(sem_for_bounds(fuel as nat, *s, sv, run1, gr@ + rest) == (Step {
                outcome: outcome_view(r),
                run: self.run(),
                rest,
            }));
        }
        (r, Ghost(g))
    }

    /// A `for` loop `s` whose variable holds the start `sv`: the end and the
    /// step, then the iterations.
    #[verifier::spinoff_prover]
    #[verifier::rlimit(60)]
    fn for_bounds(&mut self, fuel: u64, s: &'a Statement, sv: Number) -> (r: Evaluated)
        requires
            old(self).state@.len() > 0,
            *s is For && s->For_identifier is Identifier,
        ensures
            final(self).state@.len() == old(self).state@.len(),
            forall|rest: Seq<Reply>| #[trigger]
                sem_for_bounds(fuel as nat, *s, sv, old(self).run(), r.1@ + rest) == (Step {
                    outcome: outcome_view(r.0),
                    run: final(self).run(),
                    rest,
                }),
        decreases fuel, stmt_size(*s), 3int,
    {
        let ghost run0 = self.run();
        let ghost none = Seq::<Reply>::empty();
        let (end, step) = match s {
            Statement::For { identifier: _, start: _, end, step, stmts: _ } => (end, step),
            _ => {
                assert forall|rest: Seq<Reply>| #[trigger]
                    sem_for_bounds(fuel as nat, *s, sv, run0, none + rest) == (Step {
                        outcome: Ok(Value::Null),
                        run: self.run(),
                        rest,
                    }) by {
                    assert(none + rest =~= rest);
                }
                return (Ok(ResultType::Null), Ghost(none));
            },
        };
        let (b, gb) = self.eval_expr(fuel, end);
        let ghost run_b = self.run();
        let ghost ob = outcome_view(b);
        let ev_val = match b {
            Ok(x) => x,
            Err(err) => {
                assert forall|rest: Seq<Reply>| #[trigger]
                    sem_for_bounds(fuel as nat, *s, sv, run0, gb@ + rest) == (Step {
                        outcome: Err(err),
                        run: self.run(),
                        rest,
                    }) by {
                    assert(sem_expr(fuel as nat, *end, run0, gb@ + rest) == (Step {
                        outcome: ob,
                        run: run_b,
                        rest,
                    }));
                }
                return (Err(err), gb);
            },
        };
        let ghost evv = ev_val@;
        let (r, gr) = self.for_step(fuel, s, sv, ev_val);
        let ghost g = gb@ + gr@;
        assert forall|rest: Seq<Reply>| #[trigger]
            sem_for_bounds(fuel as nat, *s, sv, run0, g + rest) == (Step {
                outcome: outcome_view(r),
                run: self.run(),
                rest,
            }) by {
            assert(g + rest =~= gb@ + (gr@ + rest));
            assert(sem_expr(fuel as nat, *end, run0, gb@ + (gr@ + rest)) == (Step {
                outcome: ob,
                run: run_b,
                rest: gr@ + rest,
            }));
            assert(ob == Ok::<Value, RuntimeError>(evv));
            assert(sem_for_step(fuel as nat, *s, sv, evv, run_b, gr@ + rest) == (Step {
                outcome: outcome_view(r),
                run: self.run(),
                rest,
            }));
        }
        (r, Ghost(g))
    }

    /// A `for` loop `s` whose start `sv` and end `ev` are known: the step,
    /// then the iterations.
    #[verifier::spinoff_prover]
    #[verifier::rlimit(60)]
    fn for_step(&mut self, fuel: u64, s: &'a Statement, sv: Number, ev: ResultType) -> (r: Evaluated)
        requires
            old(self).state@.len() > 0,
            *s is For && s->For_identifier is Identifier,
        ensures
            final(self).state@.len() == old(self).state@.len(),
            forall|rest: Seq<Reply>| #[trigger]
                sem_for_step(fuel as nat, *s, sv, ev@, old(self).run(), r.1@ + rest) == (Step {
                    outcome: outcome_view(r.0),
                    run: final(self).run(),
                    rest,
                }),
        decreases fuel, stmt_size(*s), 2int,
    {
        let ghost run0 = self.run();
        let ghost none = Seq::<Reply>::empty();
        let step = match s {
            Statement::For { identifier: _, start: _, end: _, step, stmts: _ } => step,
            _ => {
                assert forall|rest: Seq<Reply>| #[trigger]
                    sem_for_step(fuel as nat, *s, sv, ev@, run0, none + rest) == (Step {
                        outcome: Ok(Value::Null),
                        run: self.run(),
                        rest,
                    }) by {
                    assert(none + rest =~= rest);
                }
                return (Ok(ResultType::Null), Ghost(none));
            },
        };
        assert(*step == s->For_step);
        let (c, gc) = self.eval_expr(fuel, step);
        let ghost run_c = self.run();
        let ghost oc = outcome_view(c);
        let stv = match c {
            Ok(x) => x,
            Err(err) => {
                assert forall|rest: Seq<Reply>| #[trigger]
                    sem_for_step(fuel as nat, *s, sv, ev@, run0, gc@ + rest) == (Step {
                        outcome: Err(err),
                        run: self.run(),
                        rest,
                    }) by {
                    assert(sem_expr(fuel as nat, *step, run0, gc@ + rest) == (Step {
                        outcome: oc,
                        run: run_c,
                        rest,
                    }));
                }
                return (Err(err), gc);
            },
        };
        let ghost stvv = stv@;
        assert(oc == Ok::<Value, RuntimeError>(stvv));
        if let Some(e) = number_of(&ev) {
            if let Some(st) = number_of(&stv) {
                let (r, gl) = self.for_loop(fuel, s, sv, e, st);
                let ghost g = gc@ + gl@;
                assert forall|rest: Seq<Reply>| #[trigger]
                    sem_for_step(fuel as nat, *s, sv, Value::Number(e), run0, g + rest) == (Step {
                        outcome: outcome_view(r),
                        run: self.run(),
                        rest,
                    }) by {
                    assert(g + rest =~= gc@ + (gl@ + rest));
                    assert(sem_expr(fuel as nat, *step, run0, gc@ + (gl@ + rest)) == (Step {
                        outcome: oc,
                        run: run_c,
                        rest: gl@ + rest,
                    }));
                    assert(sem_for(fuel as nat, *s, sv, e, st, run_c, gl@ + rest) == (Step {
                        outcome: outcome_view(r),
                        run: self.run(),
                        rest,
                    }));
                }
                return (r, Ghost(g));
            }
        }
        assert(!(ev@ is Number && stvv is Number));
        assert forall|rest: Seq<Reply>| #[trigger]
            sem_for_step(fuel as nat, *s, sv, ev@, run0, gc@ + rest) == (Step {
                outcome: Ok(Value::Null),
                run: self.run(),
                rest,
            }) by {
            assert(sem_expr(fuel as nat, *step, run0, gc@ + rest) == (Step {
                outcome: oc,
                run: run_c,
                rest,
            }));
        }
        (Ok(ResultType::Null), gc)
    }

    /// The iterations of a `for` loop `s` from `sv` to `ev` by `st`.
    #[verifier::spinoff_prover]
    #[verifier::rlimit(60)]
    fn for_loop(&mut self, fuel: u64, s: &'a Statement, sv: Number, ev: Number, st: Number) -> (r:
        Evaluated)
        requires
            old(self).state@.len() > 0,
            *s is For && s->For_identifier is Identifier,
        ensures
            final(self).state@.len() == old(self).state@.len(),
            forall|rest: Seq<Reply>| #[trigger]
                sem_for(fuel as nat, *s, sv, ev, st, old(self).run(), r.1@ + rest) == (Step {
                    outcome: outcome_view(r.0),
                    run: final(self).run(),
                    rest,
                }),
        decreases fuel, stmt_size(*s), 1int,
    {
        proof {
            reveal(sem_for);
        }
        let ghost run0 = self.run();
        let ghost len0 = self.state@.len();
        let ghost none = Seq::<Reply>::empty();
        let (name, stmts) = match s {
            Statement::For {
                identifier: Expression::Identifier { name },
                start: _,
                end: _,
                step: _,
                stmts,
            } => (name, stmts),
            _ => {
                assert forall|rest: Seq<Reply>| #[trigger]
                    sem_for(fuel as nat, *s, sv, ev, st, run0, none + rest) == (Step {
                        outcome: Ok(Value::Null),
                        run: self.run(),
                        rest,
                    }) by {
                    assert(none + rest =~= rest);
                }
                return (Ok(ResultType::Null), Ghost(none));
            },
        };
        let mut f = fuel;
        let ghost mut g = none;
        assert forall|rest: Seq<Reply>| #[trigger]
            sem_for(fuel as nat, *s, sv, ev, st, run0, g + rest) == sem_for(
                f as nat,
                *s,
                sv,
                ev,
                st,
                self.run(),
                rest,
            ) by {
            assert(g + rest =~= rest);
        }
        loop
            invariant
                f <= fuel,
                self.state@.len() == len0,
                len0 == old(self).state@.len(),
                run0 == old(self).run(),
                len0 > 0,
                *s matches Statement::For {
                    identifier: Expression::Identifier { name: n },
                    start: _,
                    end: _,
                    step: _,
                    stmts: b,
                } && n == *name && b == *stmts,
                forall|rest: Seq<Reply>| #[trigger]
                    sem_for(fuel as nat, *s, sv, ev, st, run0, g + rest) == sem_for(
                        f as nat,
                        *s,
                        sv,
                        ev,
                        st,
                        self.run(),
                        rest,
                    ),
            decreases f,
        {
            proof {
                reveal(sem_for);
            }
            let ghost run_i = self.run();
            assert(forall|rest: Seq<Reply>| #[trigger]
                sem_for(fuel as nat, *s, sv, ev, st, run0, g + rest) == sem_for(
                    f as nat,
                    *s,
                    sv,
                    ev,
                    st,
                    run_i,
                    rest,
                ));
            if f == 0 {
                return (Err(RuntimeError::OutOfFuel), Ghost(g));
            }
            let cur = match self.state.get_item(name.as_str()) {
                Some(ResultType::Number(cur)) => cur,
                other => {
                    proof {
                        if let Some(x) = &other {
                            lemma_view(x);
                        }
                    }
                    return (Err(RuntimeError::IncompatibleOperation), Ghost(g));
                },
            };
            let (over, go) = self.asker.for_over(sv, ev, cur);
            let ghost g1 = g + go@;
            if over {
                assert forall|rest: Seq<Reply>| #[trigger]
                    sem_for(fuel as nat, *s, sv, ev, st, run0, g1 + rest) == (Step {
                        outcome: Ok(Value::Null),
                        run: self.run(),
                        rest,
                    }) by {
                    assert(g1 + rest =~= g + (go@ + rest));
                    assert(sem_for(fuel as nat, *s, sv, ev, st, run0, g + (go@ + rest)) == sem_for(
                        f as nat,
                        *s,
                        sv,
                        ev,
                        st,
                        run_i,
                        go@ + rest,
                    ));
                    assert(for_over(sv, ev, cur, go@ + rest) == (over, rest));
                }
                return (Ok(ResultType::Null), Ghost(g1));
            }
            let (b, gb) = self.eval_stmts(f, stmts);
            let ghost run_b = self.run();
            let ghost ob = outcome_view(b);
            let ghost g2 = g1 + gb@;
            if stops_here(&b) {
                assert forall|rest: Seq<Reply>| #[trigger]
                    sem_for(fuel as nat, *s, sv, ev, st, run0, g2 + rest) == (Step {
                        outcome: outcome_view(b),
                        run: self.run(),
                        rest,
                    }) by {
                    assert(g2 + rest =~= g + (go@ + (gb@ + rest)));
                    assert(sem_for(fuel as nat, *s, sv, ev, st, run0, g + (go@ + (gb@ + rest)))
                        == sem_for(f as nat, *s, sv, ev, st, run_i, go@ + (gb@ + rest)));
                    assert(for_over(sv, ev, cur, go@ + (gb@ + rest)) == (over, gb@ + rest));
                    assert(sem_stmts(f as nat, *stmts, 0, run_i, gb@ + rest) == (Step {
                        outcome: ob,
                        run: run_b,
                        rest,
                    }));
                }
                return (b, Ghost(g2));
            }
            let (next, gn) = self.asker.arith(ArithOp::Add, cur, st);
            self.state.set_item(name.clone(), ResultType::Number(next));
            let ghost g_old = g;
            proof {
                g = g2 + gn@;
            }
            f = f - 1;
            assert forall|rest: Seq<Reply>| #[trigger]
                sem_for(fuel as nat, *s, sv, ev, st, run0, g + rest) == sem_for(
                    f as nat,
                    *s,
                    sv,
                    ev,
                    st,
                    self.run(),
                    rest,
                ) by {
                assert(g + rest =~= g_old + (go@ + (gb@ + (gn@ + rest))));
                assert(sem_for(fuel as nat, *s, sv, ev, st, run0, g_old + (go@ + (gb@ + (gn@ + rest))))
                    == sem_for((f + 1) as nat, *s, sv, ev, st, run_i, go@ + (gb@ + (gn@ + rest))));
                assert(for_over(sv, ev, cur, go@ + (gb@ + (gn@ + rest))) == (over, gb@ + (gn@ + rest)));
                assert(sem_stmts((f + 1) as nat, *stmts, 0, run_i, gb@ + (gn@ + rest)) == (Step {
                    outcome: ob,
                    run: run_b,
                    rest: gn@ + rest,
                }));
                assert(ask_number(Query::Arith(ArithOp::Add, cur, st), gn@ + rest) == (next, rest));
            }
        }
    }
}

/// The display form of a value: what `print` writes for it, with the number
/// system `ns` giving the form of numbers.
pub fn display_value<N: NumberSystem>(ns: &N, v: &ResultType) -> (r: String)
    ensures
        exists|rs: Seq<Reply>| #[trigger] display(v@, rs) == (r@, Seq::<Reply>::empty()),
{
    let asker = Asker { ns };
    let (s, g) = asker.display(v);
    assert(g@ + Seq::<Reply>::empty() =~= g@);
    assert(display(v@, g@ + Seq::<Reply>::empty()) == (s@, Seq::<Reply>::empty()));
    s
}

/// Runs `node` over the scopes `state`, appending what it prints to
/// `output`. The number system `ns` does the float arithmetic; loops and
/// calls draw on `fuel`. The result is what the semantics gives for the
/// questions put to `ns` and the answers it gave.
pub fn interpret<'a, N: NumberSystem>(
    node: &'a Node,
    state: &mut State<'a>,
    ns: &N,
    fuel: u64,
    output: &mut String,
) -> (r: Result<ResultType, RuntimeError>)
    requires
        old(state)@.len() > 0,
    ensures
        final(state)@.len() == old(state)@.len(),
        exists|rs: Seq<Reply>|
            #[trigger] sem_node(
                fuel as nat,
                *node,
                Run { env: old(state)@, out: old(output)@ },
                rs,
            ) == (Step {
                outcome: outcome_view(r),
                run: Run { env: final(state)@, out: final(output)@ },
                rest: Seq::empty(),
            }),
{
    let mut st = State::new();
    std::mem::swap(&mut st, state);
    let mut out = String::new();
    std::mem::swap(&mut out, output);
    let mut ev = Evaluator { asker: Asker { ns }, state: st, output: out };
    let ghost run0 = ev.run();
    let (r, g) = match node {
        Node::Stmts(ss) => ev.eval_stmts(fuel, ss),
        Node::Stmt(s) => ev.eval_stmt(fuel, s),
        Node::Expr(e) => ev.eval_expr(fuel, e),
    };
    let ghost run1 = ev.run();
    assert(g@ + Seq::<Reply>::empty() =~= g@);
    assert(sem_node(fuel as nat, *node, run0, g@ + Seq::<Reply>::empty()) == (Step {
        outcome: outcome_view(r),
        run: run1,
        rest: Seq::<Reply>::empty(),
    }));
    let Evaluator { asker: _, state: st2, output: out2 } = ev;
    let mut st2 = st2;
    let mut out2 = out2;
    std::mem::swap(&mut st2, state);
    std::mem::swap(&mut out2, output);
    r
}

/// Runs a program in a fresh root scope and returns its result and what it
/// printed.
pub fn interpret_ast<N: NumberSystem>(node: &Node, ns: &N, fuel: u64) -> (r: (
    Result<ResultType, RuntimeError>,
    String,
))
    ensures
        exists|rs: Seq<Reply>|
            {
                let s = #[trigger] sem_node(
                    fuel as nat,
                    *node,
                    Run { env: seq![empty_frame()], out: Seq::empty() },
                    rs,
                );
                &&& s.outcome == outcome_view(r.0)
                &&& s.run.out == r.1@
                &&& s.rest == Seq::<Reply>::empty()
            },
{
    let mut state = State::new();
    let mut output = String::new();
    let r = interpret(node, &mut state, ns, fuel, &mut output);
    (r, output)
}

} // verus!
