//! The recursive-descent parser: tokens to a syntax tree.
use vstd::prelude::*;

use crate::lexer::all_digits;
use crate::model::{
    expr_view, expr_views, is_binary_op, is_logical_op, is_unary_op, lemma_args_view,
    lemma_stmts_view, stmt_view, stmt_views, wf_expr, wf_stmt, wf_stmts, ExprV, Expression, Node,
    Statement, StmtV,
};
use crate::text::{is_ascii_digit, is_digit, str_equal};
use crate::token::{Token, TokenType};

verus! {

broadcast use vstd::std_specs::vec::axiom_vec_index_decreases;

/// Why a token sequence is not a program.
#[derive(Debug, Clone, Copy, PartialEq, Eq, Structural)]
pub enum ParseError {
    /// A token that the grammar does not allow where it stands.
    UnexpectedToken { token_type: TokenType, line: u32 },
    /// The tokens end where the grammar needs more.
    UnexpectedEnd,
    /// A bare expression that is not a function call stands as a statement.
    NotAStatement { line: u32 },
    /// An integer literal that is not a decimal number within `i64`.
    BadInteger { line: u32 },
}

/// The value of a string of decimal digits.
pub open spec fn decimal_value(w: Seq<char>) -> int
    decreases w.len(),
{
    if w.len() == 0 {
        0
    } else {
        decimal_value(w.drop_last()) * 10 + (w.last() as int - '0' as int)
    }
}

proof fn lemma_decimal_grows(w: Seq<char>, i: int)
    requires
        0 <= i <= w.len(),
        all_digits(w),
    ensures
        decimal_value(w.subrange(0, i)) <= decimal_value(w),
        0 <= decimal_value(w.subrange(0, i)),
    decreases w.len() - i,
{
    if i < w.len() {
        lemma_decimal_grows(w, i + 1);
        let p = w.subrange(0, i + 1);
        assert(p.drop_last() =~= w.subrange(0, i));
        assert(is_digit(w[i]));
    } else {
        assert(w.subrange(0, i) =~= w);
        lemma_decimal_nonneg(w);
    }
}

proof fn lemma_decimal_nonneg(w: Seq<char>)
    requires
        all_digits(w),
    ensures
        0 <= decimal_value(w),
    decreases w.len(),
{
    if w.len() > 0 {
        assert(all_digits(w.drop_last())) by {
            assert forall|k: int| 0 <= k < w.drop_last().len() implies is_digit(
                #[trigger] w.drop_last()[k],
            ) by {
                assert(w.drop_last()[k] == w[k]);
            }
        }
        lemma_decimal_nonneg(w.drop_last());
        assert(is_digit(w[w.len() - 1]));
    }
}

/// Reads a decimal integer literal.
pub fn parse_integer(s: &str) -> (r: Option<i64>)
    ensures
        r matches Some(v) ==> s@.len() > 0 && all_digits(s@) && v == decimal_value(s@),
        r is None ==> s@.len() == 0 || !all_digits(s@) || decimal_value(s@) > i64::MAX,
{
    let n = s.unicode_len();
    if n == 0 {
        return None;
    }
    let mut v: i64 = 0;
    let mut i: usize = 0;
    while i < n
        invariant
            0 <= i <= n,
            n == s@.len(),
            all_digits(s@.subrange(0, i as int)),
            v == decimal_value(s@.subrange(0, i as int)),
            0 <= v,
        decreases n - i,
    {
        let c = s.get_char(i);
        if !is_ascii_digit(c) {
            assert(!all_digits(s@));
            return None;
        }
        let d = (c as u32 - '0' as u32) as i64;
        let ghost p = s@.subrange(0, i + 1);
        assert(p.drop_last() =~= s@.subrange(0, i as int));
        if v > (i64::MAX - d) / 10 {
            proof {
                if all_digits(s@) {
                    lemma_decimal_grows(s@, i + 1);
                }
            }
            return None;
        }
        v = v * 10 + d;
        i = i + 1;
        assert(all_digits(s@.subrange(0, i as int))) by {
            assert forall|k: int| 0 <= k < i implies is_digit(
                #[trigger] s@.subrange(0, i as int)[k],
            ) by {
                if k < i - 1 {
                    assert(s@.subrange(0, i - 1)[k] == s@.subrange(0, i as int)[k]);
                }
            }
        }
    }
    assert(s@.subrange(0, n as int) =~= s@);
    Some(v)
}

/// The category of the token at `pos`, if there is one.
pub open spec fn kind(toks: Seq<Token>, pos: int) -> Option<TokenType> {
    if 0 <= pos < toks.len() {
        Some(toks[pos].token_type)
    } else {
        None
    }
}

pub open spec fn is_at(toks: Seq<Token>, pos: int, t: TokenType) -> bool {
    kind(toks, pos) == Some(t)
}

/// The error for the token at `pos`, or for the end.
pub open spec fn unexpected(toks: Seq<Token>, pos: int) -> ParseError {
    if 0 <= pos < toks.len() {
        ParseError::UnexpectedToken { token_type: toks[pos].token_type, line: toks[pos].line }
    } else {
        ParseError::UnexpectedEnd
    }
}

/// The position after a token of category `t` at `pos`.
pub open spec fn expect_at(toks: Seq<Token>, pos: int, t: TokenType) -> Result<int, ParseError> {
    if is_at(toks, pos, t) {
        Ok(pos + 1)
    } else {
        Err(unexpected(toks, pos))
    }
}

/// `a <= b <= len`: a guard that makes the parser's progress plain.
pub open spec fn ahead(toks: Seq<Token>, a: int, b: int) -> bool {
    0 <= a <= b <= toks.len()
}

/// The value of an integer literal, when it is a decimal number within `i64`.
pub open spec fn integer_of(w: Seq<char>) -> Option<i64> {
    if w.len() > 0 && all_digits(w) && decimal_value(w) <= i64::MAX {
        Some(decimal_value(w) as i64)
    } else {
        None
    }
}

pub type PExpr = Result<(ExprV, int), ParseError>;

pub type PArgs = Result<(Seq<ExprV>, int), ParseError>;

pub type PStmt = Result<(StmtV, int), ParseError>;

pub type PStmts = Result<(Seq<StmtV>, int), ParseError>;

/// `primary` at `pos`.
pub open spec fn p_primary(toks: Seq<Token>, pos: int) -> PExpr
    decreases toks.len() - pos, 0int,
{
    if pos < 0 || pos >= toks.len() {
        Err(ParseError::UnexpectedEnd)
    } else {
        let tok = toks[pos];
        match tok.token_type {
            TokenType::TokInteger => match integer_of(tok.lexeme@) {
                Some(v) => Ok((ExprV::Integer(v), pos + 1)),
                None => Err(ParseError::BadInteger { line: tok.line }),
            },
            TokenType::TokFloat => Ok((ExprV::Float(tok.lexeme@), pos + 1)),
            TokenType::TokTrue => Ok((ExprV::Bool(true), pos + 1)),
            TokenType::TokFalse => Ok((ExprV::Bool(false), pos + 1)),
            TokenType::TokString => if tok.lexeme@.len() < 2 {
                Err(ParseError::UnexpectedToken { token_type: tok.token_type, line: tok.line })
            } else {
                Ok(
                    (
                        ExprV::Str(tok.lexeme@.subrange(1, tok.lexeme@.len() - 1)),
                        pos + 1,
                    ),
                )
            },
            TokenType::TokLparen => match p_level(toks, pos + 1, 9) {
                Ok((e, p)) => if is_at(toks, p, TokenType::TokRparen) {
                    Ok((ExprV::Grouping(Box::new(e)), p + 1))
                } else {
                    Err(unexpected(toks, p))
                },
                Err(err) => Err(err),
            },
            TokenType::TokIdentifier => if is_at(toks, pos + 1, TokenType::TokLparen) {
                match p_args(toks, pos + 2) {
                    Ok((a, p)) => Ok((ExprV::Call(tok.lexeme@, a), p)),
                    Err(err) => Err(err),
                }
            } else {
                Ok((ExprV::Ident(tok.lexeme@), pos + 1))
            },
            _ => Err(ParseError::UnexpectedToken { token_type: tok.token_type, line: tok.line }),
        }
    }
}

/// The arguments of a call and its `)`, after the `(`.
pub open spec fn p_args(toks: Seq<Token>, pos: int) -> PArgs
    decreases toks.len() - pos, 23int,
{
    if pos < 0 || pos > toks.len() {
        Err(ParseError::UnexpectedEnd)
    } else if is_at(toks, pos, TokenType::TokRparen) {
        Ok((Seq::empty(), pos + 1))
    } else {
        p_arg_list(toks, pos)
    }
}

/// `logical_or (',' logical_or)* ')'`.
pub open spec fn p_arg_list(toks: Seq<Token>, pos: int) -> PArgs
    decreases toks.len() - pos, 22int,
{
    if pos < 0 || pos > toks.len() {
        Err(ParseError::UnexpectedEnd)
    } else {
        match p_level(toks, pos, 9) {
            Ok((a, p)) => if !ahead(toks, pos, p) {
                Err(ParseError::UnexpectedEnd)
            } else if is_at(toks, p, TokenType::TokComma) {
                match p_arg_list(toks, p + 1) {
                    Ok((rest, q)) => Ok((seq![a] + rest, q)),
                    Err(err) => Err(err),
                }
            } else {
                match expect_at(toks, p, TokenType::TokRparen) {
                    Ok(q) => Ok((seq![a], q)),
                    Err(err) => Err(err),
                }
            },
            Err(err) => Err(err),
        }
    }
}

/// `unary := ('not'|'-'|'+') unary | primary`.
pub open spec fn p_unary(toks: Seq<Token>, pos: int) -> PExpr
    decreases toks.len() - pos, 2int,
{
    if pos < 0 || pos > toks.len() {
        Err(ParseError::UnexpectedEnd)
    } else if pos < toks.len() && is_unary_op(toks[pos].token_type) {
        match p_unary(toks, pos + 1) {
            Ok((e, p)) => Ok((ExprV::Unary(toks[pos].token_type, Box::new(e)), p)),
            Err(err) => Err(err),
        }
    } else {
        p_primary(toks, pos)
    }
}

/// `exponent := unary ('^' exponent)?`, right-associative.
pub open spec fn p_exponent(toks: Seq<Token>, pos: int) -> PExpr
    decreases toks.len() - pos, 4int,
{
    if pos < 0 || pos > toks.len() {
        Err(ParseError::UnexpectedEnd)
    } else {
        match p_unary(toks, pos) {
            Ok((l, p)) => if ahead(toks, pos, p) && is_at(toks, p, TokenType::TokCaret) {
                match p_exponent(toks, p + 1) {
                    Ok((r, q)) => Ok((ExprV::Bin(TokenType::TokCaret, Box::new(l), Box::new(r)), q)),
                    Err(err) => Err(err),
                }
            } else {
                Ok((l, p))
            },
            Err(err) => Err(err),
        }
    }
}

/// Precedence `level`: 0 primary, 1 unary, 2 exponent, 3 `%`, 4 `* /`,
/// 5 `+ -`, 6 comparison, 7 equality, 8 `and`, 9 `or`.
pub open spec fn p_level(toks: Seq<Token>, pos: int, level: int) -> PExpr
    decreases toks.len() - pos, 2 * level + 1,
{
    if level < 0 {
        Err(ParseError::UnexpectedEnd)
    } else if level == 0 {
        p_primary(toks, pos)
    } else if level == 1 {
        p_unary(toks, pos)
    } else if level == 2 {
        p_exponent(toks, pos)
    } else if level <= 9 {
        p_binary(toks, pos, level)
    } else {
        Err(ParseError::UnexpectedEnd)
    }
}

/// A left-associative chain at `level`: `sub (op sub)*`.
pub open spec fn p_binary(toks: Seq<Token>, pos: int, level: int) -> PExpr
    decreases toks.len() - pos, 2 * level,
{
    if level < 3 || level > 9 || pos < 0 || pos > toks.len() {
        Err(ParseError::UnexpectedEnd)
    } else {
        match p_level(toks, pos, level - 1) {
            Ok((l, p)) => if ahead(toks, pos, p) {
                p_chain(toks, p, level, l)
            } else {
                Err(ParseError::UnexpectedEnd)
            },
            Err(err) => Err(err),
        }
    }
}

/// The rest of a chain at `level` whose left part so far is `left`.
pub open spec fn p_chain(toks: Seq<Token>, pos: int, level: int, left: ExprV) -> PExpr
    decreases toks.len() - pos, 2 * level - 1,
{
    if level < 3 || level > 9 || pos < 0 || pos > toks.len() {
        Err(ParseError::UnexpectedEnd)
    } else if pos < toks.len() && level_op(level as u8, toks[pos].token_type) {
        let op = toks[pos].token_type;
        match p_level(toks, pos + 1, level - 1) {
            Ok((r, p)) => if ahead(toks, pos + 1, p) {
                p_chain(
                    toks,
                    p,
                    level,
                    if level >= 8 {
                        ExprV::Logical(op, Box::new(left), Box::new(r))
                    } else {
                        ExprV::Bin(op, Box::new(left), Box::new(r))
                    },
                )
            } else {
                Err(ParseError::UnexpectedEnd)
            },
            Err(err) => Err(err),
        }
    } else {
        Ok((left, pos))
    }
}

/// The statements of a block, up to `end`, `else` or the last token.
pub open spec fn p_stmts(toks: Seq<Token>, pos: int) -> PStmts
    decreases toks.len() - pos, 30int,
{
    if pos < 0 || pos > toks.len() {
        Err(ParseError::UnexpectedEnd)
    } else if pos < toks.len() && !is_at(toks, pos, TokenType::TokEnd) && !is_at(
        toks,
        pos,
        TokenType::TokElse,
    ) {
        match p_stmt(toks, pos) {
            Ok((s, p)) => if pos < p <= toks.len() {
                match p_stmts(toks, p) {
                    Ok((rest, q)) => Ok((seq![s] + rest, q)),
                    Err(err) => Err(err),
                }
            } else {
                Err(unexpected(toks, p))
            },
            Err(err) => Err(err),
        }
    } else {
        Ok((Seq::empty(), pos))
    }
}

/// Whether the tokens at `pos` begin `local ident :=`.
pub open spec fn local_at(toks: Seq<Token>, pos: int) -> bool {
    &&& is_at(toks, pos, TokenType::TokIdentifier)
    &&& is_at(toks, pos + 1, TokenType::TokIdentifier)
    &&& is_at(toks, pos + 2, TokenType::TokAssign)
    &&& toks[pos].lexeme@ == "local"@
}

/// One statement.
pub open spec fn p_stmt(toks: Seq<Token>, pos: int) -> PStmt
    decreases toks.len() - pos, 29int,
{
    if pos < 0 || pos >= toks.len() {
        Err(ParseError::UnexpectedEnd)
    } else {
        let k = toks[pos].token_type;
        if k is TokPrint || k is TokPrintln || k is TokWhile || k is TokIf || k is TokFor
            || k is TokFunc || k is TokRet {
            p_form(toks, pos)
        } else if k is TokIdentifier && is_at(toks, pos + 1, TokenType::TokAssign) {
            p_assignment(toks, pos, false)
        } else if local_at(toks, pos) {
            p_assignment(toks, pos + 1, true)
        } else {
            match p_level(toks, pos, 9) {
                Ok((e, p)) => if e is Call {
                    Ok((StmtV::Call(e), p))
                } else {
                    Err(ParseError::NotAStatement { line: toks[pos].line })
                },
                Err(err) => Err(err),
            }
        }
    }
}

/// `ident := logical_or`, local or not.
pub open spec fn p_assignment(toks: Seq<Token>, pos: int, local: bool) -> PStmt
    decreases toks.len() - pos, 26int,
{
    if pos < 0 || pos > toks.len() {
        Err(ParseError::UnexpectedEnd)
    } else if !is_at(toks, pos, TokenType::TokIdentifier) {
        Err(unexpected(toks, pos))
    } else if !is_at(toks, pos + 1, TokenType::TokAssign) {
        Err(unexpected(toks, pos + 1))
    } else {
        match p_level(toks, pos + 2, 9) {
            Ok((r, p)) => {
                let left = ExprV::Ident(toks[pos].lexeme@);
                Ok(
                    (
                        if local {
                            StmtV::Local(left, r)
                        } else {
                            StmtV::Assign(left, r)
                        },
                        p,
                    ),
                )
            },
            Err(err) => Err(err),
        }
    }
}

/// The statement forms that begin with a keyword.
pub open spec fn p_form(toks: Seq<Token>, pos: int) -> PStmt
    decreases toks.len() - pos, 28int,
{
    if pos < 0 || pos >= toks.len() {
        Err(ParseError::UnexpectedEnd)
    } else {
        let k = toks[pos].token_type;
        if k is TokPrint || k is TokPrintln || k is TokRet {
            match p_level(toks, pos + 1, 9) {
                Ok((e, p)) => Ok(
                    (
                        if k is TokPrint {
                            StmtV::Print(e)
                        } else if k is TokPrintln {
                            StmtV::Println(e)
                        } else {
                            StmtV::Ret(e)
                        },
                        p,
                    ),
                ),
                Err(err) => Err(err),
            }
        } else if k is TokWhile || k is TokIf {
            p_conditional(toks, pos)
        } else if k is TokFor {
            p_for(toks, pos)
        } else if k is TokFunc {
            p_func(toks, pos)
        } else {
            Err(unexpected(toks, pos))
        }
    }
}

/// `if test then stmts [else stmts] end` and `while test then stmts end`.
pub open spec fn p_conditional(toks: Seq<Token>, pos: int) -> PStmt
    decreases toks.len() - pos, 27int,
{
    if pos < 0 || pos >= toks.len() {
        Err(ParseError::UnexpectedEnd)
    } else {
        let is_if = toks[pos].token_type is TokIf;
        match p_level(toks, pos + 1, 9) {
            Ok((test, p1)) => if !ahead(toks, pos + 1, p1) {
                Err(ParseError::UnexpectedEnd)
            } else {
                match expect_at(toks, p1, TokenType::TokThen) {
                    Ok(p2) => match p_stmts(toks, p2) {
                        Ok((body, p3)) => if !ahead(toks, p2, p3) {
                            Err(ParseError::UnexpectedEnd)
                        } else if is_if && is_at(toks, p3, TokenType::TokElse) {
                            match p_stmts(toks, p3 + 1) {
                                Ok((els, p4)) => match expect_at(toks, p4, TokenType::TokEnd) {
                                    Ok(p5) => Ok((StmtV::If(test, body, els), p5)),
                                    Err(err) => Err(err),
                                },
                                Err(err) => Err(err),
                            }
                        } else {
                            match expect_at(toks, p3, TokenType::TokEnd) {
                                Ok(p5) => Ok(
                                    (
                                        if is_if {
                                            StmtV::If(test, body, Seq::empty())
                                        } else {
                                            StmtV::While(test, body)
                                        },
                                        p5,
                                    ),
                                ),
                                Err(err) => Err(err),
                            }
                        },
                        Err(err) => Err(err),
                    },
                    Err(err) => Err(err),
                }
            },
            Err(err) => Err(err),
        }
    }
}

/// `for ident := start, end [, step] then stmts end`; the step is 1 by default.
pub open spec fn p_for(toks: Seq<Token>, pos: int) -> PStmt
    decreases toks.len() - pos, 27int,
{
    if pos < 0 || pos >= toks.len() {
        Err(ParseError::UnexpectedEnd)
    } else if !is_at(toks, pos + 1, TokenType::TokIdentifier) {
        Err(unexpected(toks, pos + 1))
    } else if !is_at(toks, pos + 2, TokenType::TokAssign) {
        Err(unexpected(toks, pos + 2))
    } else {
        let var = ExprV::Ident(toks[pos + 1].lexeme@);
        match p_level(toks, pos + 3, 9) {
            Ok((start, p1)) => if !ahead(toks, pos + 3, p1) {
                Err(ParseError::UnexpectedEnd)
            } else {
                match expect_at(toks, p1, TokenType::TokComma) {
                    Ok(p2) => match p_level(toks, p2, 9) {
                        Ok((end, p3)) => if !ahead(toks, p2, p3) {
                            Err(ParseError::UnexpectedEnd)
                        } else {
                            let step = if is_at(toks, p3, TokenType::TokComma) {
                                p_level(toks, p3 + 1, 9)
                            } else {
                                Ok((ExprV::Integer(1), p3))
                            };
                            match step {
                                Ok((st, p4)) => if !ahead(toks, p3, p4) {
                                    Err(ParseError::UnexpectedEnd)
                                } else {
                                    match expect_at(toks, p4, TokenType::TokThen) {
                                        Ok(p5) => match p_stmts(toks, p5) {
                                            Ok((body, p6)) => match expect_at(
                                                toks,
                                                p6,
                                                TokenType::TokEnd,
                                            ) {
                                                Ok(p7) => Ok(
                                                    (StmtV::For(var, start, end, st, body), p7),
                                                ),
                                                Err(err) => Err(err),
                                            },
                                            Err(err) => Err(err),
                                        },
                                        Err(err) => Err(err),
                                    }
                                },
                                Err(err) => Err(err),
                            }
                        },
                        Err(err) => Err(err),
                    },
                    Err(err) => Err(err),
                }
            },
            Err(err) => Err(err),
        }
    }
}

/// `ident (',' ident)* ')'`: the parameters of a declaration.
pub open spec fn p_params(toks: Seq<Token>, pos: int) -> PStmts
    decreases toks.len() - pos,
{
    if pos < 0 || pos > toks.len() {
        Err(ParseError::UnexpectedEnd)
    } else if !is_at(toks, pos, TokenType::TokIdentifier) {
        Err(unexpected(toks, pos))
    } else {
        let p = StmtV::Param(toks[pos].lexeme@);
        if is_at(toks, pos + 1, TokenType::TokComma) {
            match p_params(toks, pos + 2) {
                Ok((rest, q)) => Ok((seq![p] + rest, q)),
                Err(err) => Err(err),
            }
        } else {
            match expect_at(toks, pos + 1, TokenType::TokRparen) {
                Ok(q) => Ok((seq![p], q)),
                Err(err) => Err(err),
            }
        }
    }
}

/// `func name(params) stmts end`.
pub open spec fn p_func(toks: Seq<Token>, pos: int) -> PStmt
    decreases toks.len() - pos, 27int,
{
    if pos < 0 || pos >= toks.len() {
        Err(ParseError::UnexpectedEnd)
    } else if !is_at(toks, pos + 1, TokenType::TokIdentifier) {
        Err(unexpected(toks, pos + 1))
    } else if !is_at(toks, pos + 2, TokenType::TokLparen) {
        Err(unexpected(toks, pos + 2))
    } else {
        let params = if is_at(toks, pos + 3, TokenType::TokRparen) {
            Ok((Seq::<StmtV>::empty(), pos + 4))
        } else {
            p_params(toks, pos + 3)
        };
        match params {
            Ok((ps, p1)) => if !ahead(toks, pos + 3, p1) {
                Err(ParseError::UnexpectedEnd)
            } else {
                match p_stmts(toks, p1) {
                    Ok((body, p2)) => match expect_at(toks, p2, TokenType::TokEnd) {
                        Ok(p3) => Ok((StmtV::Func(toks[pos + 1].lexeme@, ps, body), p3)),
                        Err(err) => Err(err),
                    },
                    Err(err) => Err(err),
                }
            },
            Err(err) => Err(err),
        }
    }
}

/// A whole program: statements to the last token.
pub open spec fn p_program(toks: Seq<Token>) -> Result<Seq<StmtV>, ParseError> {
    match p_stmts(toks, 0) {
        Ok((ss, p)) => if p < toks.len() {
            Err(unexpected(toks, p))
        } else {
            Ok(ss)
        },
        Err(err) => Err(err),
    }
}

/// The parsing state: the tokens and the index of the next one.
pub struct Parser {
    tokens: Vec<Token>,
    current: usize,
}

impl Parser {
    pub fn new(tokens: Vec<Token>) -> (p: Parser)
        ensures
            p.token_seq() == tokens@,
            p.position() == 0,
    {
        Parser { tokens, current: 0 }
    }

    /// The tokens being parsed.
    pub closed spec fn token_seq(&self) -> Seq<Token> {
        self.tokens@
    }

    /// The index of the next token.
    pub closed spec fn position(&self) -> nat {
        self.current as nat
    }

    pub closed spec fn inv(&self) -> bool {
        self.current <= self.tokens@.len()
    }

    /// The next token closes a block, or there is none.
    pub closed spec fn at_block_end(&self) -> bool {
        ||| self.current == self.tokens@.len()
        ||| self.tokens@[self.current as int].token_type is TokEnd
        ||| self.tokens@[self.current as int].token_type is TokElse
    }

    pub closed spec fn moved(&self, next: &Parser) -> bool {
        &&& next.tokens == self.tokens
        &&& self.current <= next.current <= next.tokens@.len()
    }

    /// Consumes and returns the next token.
    fn advance(&mut self) -> (r: Option<Token>)
        requires
            old(self).inv(),
        ensures
            old(self).moved(final(self)),
            old(self).current < old(self).tokens@.len() ==> (final(self).current == old(
                self,
            ).current + 1 && r == Some(old(self).tokens@[old(self).current as int])),
            old(self).current >= old(self).tokens@.len() ==> r is None,
    {
        if self.current < self.tokens.len() {
            let token = self.tokens[self.current].duplicate();
            self.current = self.current + 1;
            return Some(token);
        }
        None
    }

    /// The category of the token `k` places ahead.
    fn peek_type(&self, k: usize) -> (r: Option<TokenType>)
        requires
            self.inv(),
        ensures
            r == if self.current + k < self.tokens@.len() {
                Some(self.tokens@[self.current + k].token_type)
            } else {
                None::<TokenType>
            },
    {
        if k < self.tokens.len() - self.current {
            Some(self.tokens[self.current + k].token_type)
        } else {
            None
        }
    }

    /// Whether the next token has category `expected_type`.
    fn is_next(&self, expected_type: TokenType) -> (r: bool)
        requires
            self.inv(),
        ensures
            r == (self.current < self.tokens@.len() && self.tokens@[self.current as int].token_type
                == expected_type),
    {
        match self.peek() {
            Some(token) => token.token_type == expected_type,
            None => false,
        }
    }

    /// The error for the next token, or for the end.
    fn unexpected(&self) -> (e: ParseError)
        requires
            self.inv(),
        ensures
            e == unexpected(self.tokens@, self.current as int),
    {
        match self.peek() {
            Some(token) => ParseError::UnexpectedToken {
                token_type: token.token_type,
                line: token.line,
            },
            None => ParseError::UnexpectedEnd,
        }
    }

    /// Consumes the next token, which must have category `expected_type`.
    fn expect(&mut self, expected_type: TokenType) -> (r: Result<Token, ParseError>)
        requires
            old(self).inv(),
        ensures
            old(self).moved(final(self)),
            r matches Ok(t) ==> t.token_type == expected_type && final(self).current == old(
                self,
            ).current + 1 && t == old(self).tokens@[old(self).current as int],
            is_at(old(self).tokens@, old(self).current as int, expected_type) ==> r is Ok,
            r is Err ==> r == Err::<Token, ParseError>(
                unexpected(old(self).tokens@, old(self).current as int),
            ),
    {
        if self.current < self.tokens.len() && self.is_next(expected_type) {
            let t = self.tokens[self.current].duplicate();
            self.current = self.current + 1;
            return Ok(t);
        }
        Err(self.unexpected())
    }

    /// The next token, if any.
    fn peek(&self) -> (r: Option<&Token>)
        requires
            self.inv(),
        ensures
            self.current < self.tokens@.len() ==> r == Some(&self.tokens@[self.current as int]),
            self.current >= self.tokens@.len() ==> r is None,
    {
        if self.current < self.tokens.len() {
            Some(&self.tokens[self.current])
        } else {
            None
        }
    }

    /// Consumes the next token if it has category `token_type`.
    fn match_token(&mut self, token_type: TokenType) -> (r: bool)
        requires
            old(self).inv(),
        ensures
            old(self).moved(final(self)),
            r == (old(self).current < old(self).tokens@.len() && old(self).tokens@[old(
                self,
            ).current as int].token_type == token_type),
            final(self).current == old(self).current + if r {
                1int
            } else {
                0
            },
    {
        if self.current < self.tokens.len() && self.is_next(token_type) {
            self.current = self.current + 1;
            return true;
        }
        false
    }

    /// The token before the next one.
    fn previous_token(&self) -> (r: Option<Token>)
        requires
            self.inv(),
        ensures
            self.current > 0 ==> (r matches Some(t) && t.token_type == self.tokens@[self.current
                - 1].token_type),
            self.current > 0 ==> r == Some(self.tokens@[self.current - 1]),
    {
        if self.current == 0 {
            return None;
        }
        Some(self.tokens[self.current - 1].duplicate())
    }

    /// Consumes the next token if its category is `a` or `b`, and returns it.
    fn match_either(&mut self, a: TokenType, b: TokenType) -> (r: Option<Token>)
        requires
            old(self).inv(),
        ensures
            old(self).moved(final(self)),
            r matches Some(t) ==> (t.token_type == a || t.token_type == b) && final(self).current
                == old(self).current + 1 && t.token_type == old(self).tokens@[old(
                self,
            ).current as int].token_type,
            r is None ==> final(self).current == old(self).current && !(is_at(
                old(self).tokens@,
                old(self).current as int,
                a,
            ) || is_at(old(self).tokens@, old(self).current as int, b)),
    {
        if self.match_token(a) || self.match_token(b) {
            self.previous_token()
        } else {
            None
        }
    }

    /// Consumes the next token if it is an operator of precedence `level`.
    fn match_level_op(&mut self, level: u8) -> (r: Option<Token>)
        requires
            old(self).inv(),
            3 <= level <= 9,
        ensures
            old(self).moved(final(self)),
            r matches Some(t) ==> level_op(level, t.token_type) && final(self).current == old(
                self,
            ).current + 1 && t.token_type == old(self).tokens@[old(self).current as int].token_type,
            r is None ==> final(self).current == old(self).current && !(old(self).current < old(
                self,
            ).tokens@.len() && level_op(level, old(self).tokens@[old(self).current as int].token_type)),
    {
        match level {
            3 => self.match_either(TokenType::TokMod, TokenType::TokMod),
            4 => self.match_either(TokenType::TokStar, TokenType::TokSlash),
            5 => self.match_either(TokenType::TokPlus, TokenType::TokMinus),
            6 => {
                let r = self.match_either(TokenType::TokGe, TokenType::TokLe);
                if r.is_some() {
                    r
                } else {
                    self.match_either(TokenType::TokGt, TokenType::TokLt)
                }
            },
            7 => self.match_either(TokenType::TokEq, TokenType::TokNe),
            8 => self.match_either(TokenType::TokAnd, TokenType::TokAnd),
            _ => self.match_either(TokenType::TokOr, TokenType::TokOr),
        }
    }

    /// Parses a left-associative chain `sub (op sub)*` at precedence `level`,
    /// where `sub` is the level below.
    fn binary_chain(&mut self, level: u8) -> (r: Result<Expression, ParseError>)
        requires
            old(self).inv(),
            3 <= level <= 9,
        ensures
            old(self).moved(final(self)),
            r matches Ok(e) ==> wf_expr(e),
            gives_expr(r, final(self).current as int, p_binary(old(self).tokens@, old(self).current as int, level as int)),
        decreases old(self).tokens@.len() - old(self).current, 2 * level,
    {
        let mut expr = self.level(level - 1)?;
        loop
            invariant
                self.inv(),
                old(self).moved(self),
                wf_expr(expr),
                3 <= level <= 9,
                p_binary(old(self).tokens@, old(self).current as int, level as int) == p_chain(
                    self.tokens@,
                    self.current as int,
                    level as int,
                    expr_view(expr),
                ),
            ensures
                old(self).moved(self),
                wf_expr(expr),
                p_binary(old(self).tokens@, old(self).current as int, level as int) == Ok::<
                    (ExprV, int),
                    ParseError,
                >((expr_view(expr), self.current as int)),
            decreases self.tokens@.len() - self.current,
        {
            let ghost v0 = expr_view(expr);
            let op = match self.match_level_op(level) {
                Some(op) => op,
                None => break ,
            };
            let right = self.level(level - 1)?;
            if level >= 8 {
                expr = Expression::LogicalOp { op, left: Box::new(expr), right: Box::new(right) };
            } else {
                expr = Expression::BinOp { op, left: Box::new(expr), right: Box::new(right) };
            }
        }
        Ok(expr)
    }

    /// Parses precedence `level`: 0 primary, 1 unary, 2 exponent, 3 modulo,
    /// 4 term, 5 expr, 6 comparison, 7 equality, 8 `and`, 9 `or`.
    fn level(&mut self, level: u8) -> (r: Result<Expression, ParseError>)
        requires
            old(self).inv(),
            level <= 9,
        ensures
            old(self).moved(final(self)),
            r matches Ok(e) ==> wf_expr(e),
            gives_expr(r, final(self).current as int, p_level(old(self).tokens@, old(self).current as int, level as int)),
        decreases old(self).tokens@.len() - old(self).current, 2 * level + 1,
    {
        match level {
            0 => self.primary(),
            1 => self.unary(),
            2 => self.exponent(),
            _ => self.binary_chain(level),
        }
    }

    /// `exponent := unary ('^' exponent)?`, right-associative.
    fn exponent(&mut self) -> (r: Result<Expression, ParseError>)
        requires
            old(self).inv(),
        ensures
            old(self).moved(final(self)),
            r matches Ok(e) ==> wf_expr(e),
            gives_expr(r, final(self).current as int, p_exponent(old(self).tokens@, old(self).current as int)),
        decreases old(self).tokens@.len() - old(self).current, 4int,
    {
        let expr = self.factor()?;
        if self.match_token(TokenType::TokCaret) {
            match self.previous_token() {
                Some(op) => {
                    let right = self.exponent()?;
                    return Ok(
                        Expression::BinOp { op, left: Box::new(expr), right: Box::new(right) },
                    );
                },
                None => {
                    return Err(ParseError::UnexpectedEnd);
                },
            }
        }
        Ok(expr)
    }

    /// `modulo := exponent ('%' exponent)*`.
    fn modulo(&mut self) -> (r: Result<Expression, ParseError>)
        requires
            old(self).inv(),
        ensures
            old(self).moved(final(self)),
            r matches Ok(e) ==> wf_expr(e),
            gives_expr(r, final(self).current as int, p_level(old(self).tokens@, old(self).current as int, 3)),
        decreases old(self).tokens@.len() - old(self).current, 7int,
    {
        self.binary_chain(3)
    }

    /// `term := modulo (('*'|'/') modulo)*`.
    fn term(&mut self) -> (r: Result<Expression, ParseError>)
        requires
            old(self).inv(),
        ensures
            old(self).moved(final(self)),
            r matches Ok(e) ==> wf_expr(e),
            gives_expr(r, final(self).current as int, p_level(old(self).tokens@, old(self).current as int, 4)),
        decreases old(self).tokens@.len() - old(self).current, 9int,
    {
        self.binary_chain(4)
    }

    /// `expr := term (('+'|'-') term)*`.
    fn expr(&mut self) -> (r: Result<Expression, ParseError>)
        requires
            old(self).inv(),
        ensures
            old(self).moved(final(self)),
            r matches Ok(e) ==> wf_expr(e),
            gives_expr(r, final(self).current as int, p_level(old(self).tokens@, old(self).current as int, 5)),
        decreases old(self).tokens@.len() - old(self).current, 11int,
    {
        self.binary_chain(5)
    }

    /// `comparison := expr (('<'|'<='|'>'|'>=') expr)*`.
    fn comparison(&mut self) -> (r: Result<Expression, ParseError>)
        requires
            old(self).inv(),
        ensures
            old(self).moved(final(self)),
            r matches Ok(e) ==> wf_expr(e),
            gives_expr(r, final(self).current as int, p_level(old(self).tokens@, old(self).current as int, 6)),
        decreases old(self).tokens@.len() - old(self).current, 13int,
    {
        self.binary_chain(6)
    }

    /// `equality := comparison (('=='|'~=') comparison)*`.
    fn equality(&mut self) -> (r: Result<Expression, ParseError>)
        requires
            old(self).inv(),
        ensures
            old(self).moved(final(self)),
            r matches Ok(e) ==> wf_expr(e),
            gives_expr(r, final(self).current as int, p_level(old(self).tokens@, old(self).current as int, 7)),
        decreases old(self).tokens@.len() - old(self).current, 15int,
    {
        self.binary_chain(7)
    }

    /// `logical_and := equality ('and' equality)*`.
    fn logical_and(&mut self) -> (r: Result<Expression, ParseError>)
        requires
            old(self).inv(),
        ensures
            old(self).moved(final(self)),
            r matches Ok(e) ==> wf_expr(e),
            gives_expr(r, final(self).current as int, p_level(old(self).tokens@, old(self).current as int, 8)),
        decreases old(self).tokens@.len() - old(self).current, 17int,
    {
        self.binary_chain(8)
    }

    /// `logical_or := logical_and ('or' logical_and)*`: a full expression.
    fn logical_or(&mut self) -> (r: Result<Expression, ParseError>)
        requires
            old(self).inv(),
        ensures
            old(self).moved(final(self)),
            r matches Ok(e) ==> wf_expr(e),
            gives_expr(r, final(self).current as int, p_level(old(self).tokens@, old(self).current as int, 9)),
        decreases old(self).tokens@.len() - old(self).current, 20int,
    {
        self.binary_chain(9)
    }

    /// `unary := ('not'|'-'|'+') unary | primary`.
    fn unary(&mut self) -> (r: Result<Expression, ParseError>)
        requires
            old(self).inv(),
        ensures
            old(self).moved(final(self)),
            r matches Ok(e) ==> wf_expr(e),
            gives_expr(r, final(self).current as int, p_unary(old(self).tokens@, old(self).current as int)),
        decreases old(self).tokens@.len() - old(self).current, 2int,
    {
        let op = match self.match_either(TokenType::TokNot, TokenType::TokMinus) {
            Some(op) => Some(op),
            None => self.match_either(TokenType::TokPlus, TokenType::TokPlus),
        };
        match op {
            Some(op) => {
                let exp = self.unary()?;
                Ok(Expression::UnaryOp { op, exp: Box::new(exp) })
            },
            None => self.primary(),
        }
    }

    /// The operand level of `^`.
    fn factor(&mut self) -> (r: Result<Expression, ParseError>)
        requires
            old(self).inv(),
        ensures
            old(self).moved(final(self)),
            r matches Ok(e) ==> wf_expr(e),
            gives_expr(r, final(self).current as int, p_unary(old(self).tokens@, old(self).current as int)),
        decreases old(self).tokens@.len() - old(self).current, 3int,
    {
        self.unary()
    }

    /// `args := (logical_or (',' logical_or)*)? ')'`, after the `(`.
    fn args(&mut self) -> (r: Result<Vec<Expression>, ParseError>)
        requires
            old(self).inv(),
        ensures
            old(self).moved(final(self)),
            r matches Ok(a) ==> forall|i: int| 0 <= i < a@.len() ==> wf_expr(#[trigger] a@[i]),
            gives_args(r, final(self).current as int, p_args(old(self).tokens@, old(self).current as int)),
        decreases old(self).tokens@.len() - old(self).current, 21int,
    {
        let mut args: Vec<Expression> = Vec::new();
        if self.match_token(TokenType::TokRparen) {
            assert(expr_views(args@) =~= Seq::<ExprV>::empty());
            return Ok(args);
        }
        assert(expr_views(args@) + Seq::<ExprV>::empty() =~= Seq::<ExprV>::empty());
        loop
            invariant
                self.inv(),
                old(self).moved(self),
                forall|i: int| 0 <= i < args@.len() ==> wf_expr(#[trigger] args@[i]),
                p_args(old(self).tokens@, old(self).current as int) == prepend_args(
                    expr_views(args@),
                    p_arg_list(self.tokens@, self.current as int),
                ),
            decreases self.tokens@.len() - self.current,
        {
            let ghost before = self.current as int;
            let ghost done = expr_views(args@);
            let a = self.logical_or()?;
            let ghost av = expr_view(a);
            args.push(a);
            assert(expr_views(args@) =~= done + seq![av]);
            if !self.match_token(TokenType::TokComma) {
                self.expect(TokenType::TokRparen)?;
                assert(done + seq![av] + Seq::<ExprV>::empty() =~= done + seq![av]);
                return Ok(args);
            }
            proof {
                if let Ok((rest, q)) = p_arg_list(self.tokens@, self.current as int) {
                    assert(done + (seq![av] + rest) =~= (done + seq![av]) + rest);
                }
            }
        }
    }

    /// `primary := INT | FLOAT | STRING | 'true' | 'false' | '(' logical_or ')'
    /// | IDENT | IDENT '(' args ')'`.
    fn primary(&mut self) -> (r: Result<Expression, ParseError>)
        requires
            old(self).inv(),
        ensures
            old(self).moved(final(self)),
            r matches Ok(e) ==> wf_expr(e),
            gives_expr(r, final(self).current as int, p_primary(old(self).tokens@, old(self).current as int)),
        decreases old(self).tokens@.len() - old(self).current, 0int,
    {
        let token = match self.advance() {
            Some(t) => t,
            None => {
                return Err(ParseError::UnexpectedEnd);
            },
        };
        match token.token_type {
            TokenType::TokInteger => match parse_integer(token.lexeme.as_str()) {
                Some(value) => Ok(Expression::Integer { value }),
                None => Err(ParseError::BadInteger { line: token.line }),
            },
            TokenType::TokFloat => Ok(Expression::Float { value: token.lexeme }),
            TokenType::TokTrue => Ok(Expression::Bool { value: true }),
            TokenType::TokFalse => Ok(Expression::Bool { value: false }),
            TokenType::TokString => {
                let s = token.lexeme.as_str();
                let n = s.unicode_len();
                if n < 2 {
                    return Err(
                        ParseError::UnexpectedToken {
                            token_type: token.token_type,
                            line: token.line,
                        },
                    );
                }
                Ok(Expression::Str { value: s.substring_char(1, n - 1).to_owned() })
            },
            TokenType::TokLparen => {
                let expr = self.logical_or()?;
                if self.match_token(TokenType::TokRparen) {
                    return Ok(Expression::Grouping { value: Box::new(expr) });
                }
                Err(self.unexpected())
            },
            TokenType::TokIdentifier => {
                if self.match_token(TokenType::TokLparen) {
                    let args = self.args()?;
                    proof {
                        lemma_args_view(args, 0);
                        assert(args@.subrange(0, args@.len() as int) =~= args@);
                    }
                    Ok(Expression::FunctionCall { name: token.lexeme, args })
                } else {
                    Ok(Expression::Identifier { name: token.lexeme })
                }
            },
            _ => Err(ParseError::UnexpectedToken { token_type: token.token_type, line: token.line }),
        }
    }

    /// The statements of a block, up to `end`, `else` or the last token.
    fn stmts(&mut self) -> (r: Result<Vec<Statement>, ParseError>)
        requires
            old(self).inv(),
        ensures
            old(self).moved(final(self)),
            r matches Ok(s) ==> wf_stmts(s@),
            r is Ok ==> final(self).at_block_end(),
            gives_stmts(r, final(self).current as int, p_stmts(old(self).tokens@, old(self).current as int)),
        decreases old(self).tokens@.len() - old(self).current, 29int,
    {
        let mut stmts_vec: Vec<Statement> = Vec::new();
        assert(stmt_views(stmts_vec@) =~= Seq::<StmtV>::empty());
        proof {
            if let Ok((rest, q)) = p_stmts(self.tokens@, self.current as int) {
                assert(Seq::<StmtV>::empty() + rest =~= rest);
            }
        }
        while self.current < self.tokens.len() && !self.is_next(TokenType::TokEnd) && !self.is_next(
            TokenType::TokElse,
        )
            invariant
                self.inv(),
                old(self).moved(self),
                wf_stmts(stmts_vec@),
                p_stmts(old(self).tokens@, old(self).current as int) == prepend_stmts(
                    stmt_views(stmts_vec@),
                    p_stmts(self.tokens@, self.current as int),
                ),
            decreases self.tokens@.len() - self.current,
        {
            let before = self.current;
            let ghost done = stmt_views(stmts_vec@);
            let s = self.stmt()?;
            if self.current == before {
                return Err(self.unexpected());
            }
            let ghost sv = stmt_view(s);
            stmts_vec.push(s);
            assert(stmt_views(stmts_vec@) =~= done + seq![sv]);
            proof {
                if let Ok((rest, q)) = p_stmts(self.tokens@, self.current as int) {
                    assert(done + (seq![sv] + rest) =~= (done + seq![sv]) + rest);
                }
            }
        }
        assert(stmt_views(stmts_vec@) + Seq::<StmtV>::empty() =~= stmt_views(stmts_vec@));
        Ok(stmts_vec)
    }

    /// One statement.
    fn stmt(&mut self) -> (r: Result<Statement, ParseError>)
        requires
            old(self).inv(),
        ensures
            old(self).moved(final(self)),
            r matches Ok(s) ==> wf_stmt(s),
            gives_stmt(r, final(self).current as int, p_stmt(old(self).tokens@, old(self).current as int)),
        decreases old(self).tokens@.len() - old(self).current, 27int,
    {
        let kind = match self.peek_type(0) {
            Some(k) => k,
            None => {
                return Err(ParseError::UnexpectedEnd);
            },
        };
        match kind {
            TokenType::TokPrint => self.print_stmt(),
            TokenType::TokPrintln => self.println_stmt(),
            TokenType::TokWhile => self.while_stmt(),
            TokenType::TokIf => self.if_stmt(),
            TokenType::TokFor => self.for_stmt(),
            TokenType::TokFunc => self.func_stmt(),
            TokenType::TokRet => self.return_stmt(),
            _ => {
                if kind == TokenType::TokIdentifier && self.peek_type(1) == Some(
                    TokenType::TokAssign,
                ) {
                    return self.assignment(false);
                }
                if kind == TokenType::TokIdentifier && self.peek_type(1) == Some(
                    TokenType::TokIdentifier,
                ) && self.peek_type(2) == Some(TokenType::TokAssign) && str_equal(
                    self.tokens[self.current].lexeme.as_str(),
                    "local",
                ) {
                    self.advance();
                    return self.assignment(true);
                }
                let line = self.tokens[self.current].line;
                let e = self.logical_or()?;
                match e {
                    Expression::FunctionCall { .. } => Ok(Statement::FunctionCall { expr: e }),
                    _ => Err(ParseError::NotAStatement { line }),
                }
            },
        }
    }

    /// `ident := logical_or`, as a global-or-enclosing assignment or, when
    /// `local`, as a binding in the innermost scope.
    fn assignment(&mut self, local: bool) -> (r: Result<Statement, ParseError>)
        requires
            old(self).inv(),
        ensures
            old(self).moved(final(self)),
            r matches Ok(s) ==> wf_stmt(s),
            gives_stmt(r, final(self).current as int, p_assignment(old(self).tokens@, old(self).current as int, local)),
        decreases old(self).tokens@.len() - old(self).current, 25int,
    {
        let name = self.expect(TokenType::TokIdentifier)?;
        self.expect(TokenType::TokAssign)?;
        let right = self.logical_or()?;
        let left = Expression::Identifier { name: name.lexeme };
        if local {
            Ok(Statement::LocalAssignment { left, right })
        } else {
            Ok(Statement::Assignment { left, right })
        }
    }

    /// `if test then stmts [else stmts] end`.
    fn if_stmt(&mut self) -> (r: Result<Statement, ParseError>)
        requires
            old(self).inv(),
            is_at(old(self).tokens@, old(self).current as int, TokenType::TokIf),
        ensures
            old(self).moved(final(self)),
            r matches Ok(s) ==> wf_stmt(s),
            gives_stmt(r, final(self).current as int, p_conditional(old(self).tokens@, old(self).current as int)),
        decreases old(self).tokens@.len() - old(self).current, 25int,
    {
        self.expect(TokenType::TokIf)?;
        let test = self.logical_or()?;
        self.expect(TokenType::TokThen)?;
        let then_stmts = self.stmts()?;
        let mut else_stmts: Vec<Statement> = Vec::new();
        if self.match_token(TokenType::TokElse) {
            else_stmts = self.stmts()?;
        }
        self.expect(TokenType::TokEnd)?;
        proof {
            lemma_stmts_view(then_stmts, 0);
            lemma_stmts_view(else_stmts, 0);
            assert(then_stmts@.subrange(0, then_stmts@.len() as int) =~= then_stmts@);
            assert(else_stmts@.subrange(0, else_stmts@.len() as int) =~= else_stmts@);
            assert(stmt_views(Seq::<Statement>::empty()) =~= Seq::<StmtV>::empty());
        }
        Ok(Statement::IfStatement { test, then_stmts, else_stmts })
    }

    /// `while test then stmts end`.
    fn while_stmt(&mut self) -> (r: Result<Statement, ParseError>)
        requires
            old(self).inv(),
            is_at(old(self).tokens@, old(self).current as int, TokenType::TokWhile),
        ensures
            old(self).moved(final(self)),
            r matches Ok(s) ==> wf_stmt(s),
            gives_stmt(r, final(self).current as int, p_conditional(old(self).tokens@, old(self).current as int)),
        decreases old(self).tokens@.len() - old(self).current, 25int,
    {
        self.expect(TokenType::TokWhile)?;
        let test = self.logical_or()?;
        self.expect(TokenType::TokThen)?;
        let stmts = self.stmts()?;
        self.expect(TokenType::TokEnd)?;
        proof {
            lemma_stmts_view(stmts, 0);
            assert(stmts@.subrange(0, stmts@.len() as int) =~= stmts@);
        }
        Ok(Statement::While { test, stmts })
    }

    /// `for ident := start, end [, step] then stmts end`; the step is 1 by default.
    fn for_stmt(&mut self) -> (r: Result<Statement, ParseError>)
        requires
            old(self).inv(),
            is_at(old(self).tokens@, old(self).current as int, TokenType::TokFor),
        ensures
            old(self).moved(final(self)),
            r matches Ok(s) ==> wf_stmt(s),
            gives_stmt(r, final(self).current as int, p_for(old(self).tokens@, old(self).current as int)),
        decreases old(self).tokens@.len() - old(self).current, 25int,
    {
        self.expect(TokenType::TokFor)?;
        let name = self.expect(TokenType::TokIdentifier)?;
        self.expect(TokenType::TokAssign)?;
        let start = self.logical_or()?;
        self.expect(TokenType::TokComma)?;
        let end = self.logical_or()?;
        let step = if self.match_token(TokenType::TokComma) {
            self.logical_or()?
        } else {
            Expression::Integer { value: 1 }
        };
        self.expect(TokenType::TokThen)?;
        let stmts = self.stmts()?;
        self.expect(TokenType::TokEnd)?;
        proof {
            lemma_stmts_view(stmts, 0);
            assert(stmts@.subrange(0, stmts@.len() as int) =~= stmts@);
        }
        Ok(
            Statement::For {
                identifier: Expression::Identifier { name: name.lexeme },
                start,
                end,
                step,
                stmts,
            },
        )
    }

    /// `func name(params) stmts end`.
    fn func_stmt(&mut self) -> (r: Result<Statement, ParseError>)
        requires
            old(self).inv(),
            is_at(old(self).tokens@, old(self).current as int, TokenType::TokFunc),
        ensures
            old(self).moved(final(self)),
            r matches Ok(s) ==> wf_stmt(s),
            gives_stmt(r, final(self).current as int, p_func(old(self).tokens@, old(self).current as int)),
        decreases old(self).tokens@.len() - old(self).current, 25int,
    {
        self.expect(TokenType::TokFunc)?;
        let name = self.expect(TokenType::TokIdentifier)?;
        self.expect(TokenType::TokLparen)?;
        let mut params: Vec<Statement> = Vec::new();
        let ghost p0 = self.current as int;
        if !self.match_token(TokenType::TokRparen) {
            assert(stmt_views(params@) =~= Seq::<StmtV>::empty());
            proof {
                if let Ok((rest, q)) = p_params(self.tokens@, self.current as int) {
                    assert(Seq::<StmtV>::empty() + rest =~= rest);
                }
            }
            loop
                invariant_except_break
                    p_params(self.tokens@, p0) == prepend_stmts(
                        stmt_views(params@),
                        p_params(self.tokens@, self.current as int),
                    ),
                invariant
                    self.inv(),
                    old(self).moved(self),
                    forall|i: int| 0 <= i < params@.len() ==> (#[trigger] params@[i]) is Parameter,
                    p0 == old(self).current + 3,
                    is_at(old(self).tokens@, old(self).current as int, TokenType::TokFunc),
                    is_at(old(self).tokens@, old(self).current + 1, TokenType::TokIdentifier),
                    is_at(old(self).tokens@, old(self).current + 2, TokenType::TokLparen),
                    !is_at(old(self).tokens@, p0, TokenType::TokRparen),
                    self.current >= p0,
                ensures
                    self.inv(),
                    old(self).moved(self),
                    self.current > old(self).current,
                    p0 == old(self).current + 3,
                    is_at(old(self).tokens@, old(self).current as int, TokenType::TokFunc),
                    is_at(old(self).tokens@, old(self).current + 1, TokenType::TokIdentifier),
                    is_at(old(self).tokens@, old(self).current + 2, TokenType::TokLparen),
                    !is_at(old(self).tokens@, p0, TokenType::TokRparen),
                    forall|i: int| 0 <= i < params@.len() ==> (#[trigger] params@[i]) is Parameter,
                    p_params(self.tokens@, p0) == Ok::<(Seq<StmtV>, int), ParseError>(
                        (stmt_views(params@), self.current as int),
                    ),
                decreases self.tokens@.len() - self.current,
            {
                let ghost done = stmt_views(params@);
                let p = self.expect(TokenType::TokIdentifier)?;
                let ghost pv = StmtV::Param(p.lexeme@);
                params.push(Statement::Parameter { name: p.lexeme });
                assert(stmt_views(params@) =~= done + seq![pv]);
                if !self.match_token(TokenType::TokComma) {
                    self.expect(TokenType::TokRparen)?;
                    assert(done + seq![pv] + Seq::<StmtV>::empty() =~= done + seq![pv]);
                    break ;
                }
                proof {
                    if let Ok((rest, q)) = p_params(self.tokens@, self.current as int) {
                        assert(done + (seq![pv] + rest) =~= (done + seq![pv]) + rest);
                    }
                }
            }
        } else {
            assert(stmt_views(params@) =~= Seq::<StmtV>::empty());
        }
        let stmts = self.stmts()?;
        self.expect(TokenType::TokEnd)?;
        proof {
            lemma_stmts_view(stmts, 0);
            assert(stmts@.subrange(0, stmts@.len() as int) =~= stmts@);
            lemma_stmts_view(params, 0);
            assert(params@.subrange(0, params@.len() as int) =~= params@);
        }
        Ok(Statement::FunctionDeclaration { name: name.lexeme, params, stmts })
    }

    /// `ret expr`.
    fn return_stmt(&mut self) -> (r: Result<Statement, ParseError>)
        requires
            old(self).inv(),
            is_at(old(self).tokens@, old(self).current as int, TokenType::TokRet),
        ensures
            old(self).moved(final(self)),
            r matches Ok(s) ==> wf_stmt(s),
            gives_stmt(r, final(self).current as int, p_form(old(self).tokens@, old(self).current as int)),
        decreases old(self).tokens@.len() - old(self).current, 25int,
    {
        self.expect(TokenType::TokRet)?;
        let val = self.logical_or()?;
        Ok(Statement::Return { val })
    }

    /// `println expr`.
    fn println_stmt(&mut self) -> (r: Result<Statement, ParseError>)
        requires
            old(self).inv(),
            is_at(old(self).tokens@, old(self).current as int, TokenType::TokPrintln),
        ensures
            old(self).moved(final(self)),
            r matches Ok(s) ==> wf_stmt(s),
            gives_stmt(r, final(self).current as int, p_form(old(self).tokens@, old(self).current as int)),
        decreases old(self).tokens@.len() - old(self).current, 25int,
    {
        self.expect(TokenType::TokPrintln)?;
        let value = self.logical_or()?;
        Ok(Statement::PrintlnStatement { value })
    }

    /// `print expr`.
    fn print_stmt(&mut self) -> (r: Result<Statement, ParseError>)
        requires
            old(self).inv(),
            is_at(old(self).tokens@, old(self).current as int, TokenType::TokPrint),
        ensures
            old(self).moved(final(self)),
            r matches Ok(s) ==> wf_stmt(s),
            gives_stmt(r, final(self).current as int, p_form(old(self).tokens@, old(self).current as int)),
        decreases old(self).tokens@.len() - old(self).current, 25int,
    {
        self.expect(TokenType::TokPrint)?;
        let value = self.logical_or()?;
        Ok(Statement::PrintStatement { value })
    }

    /// Parses the whole token sequence as a program: the statements of
    /// `p_program`, or its error.
    pub fn parse(&mut self) -> (r: Result<Node, ParseError>)
        requires
            old(self).position() == 0,
        ensures
            r matches Ok(n) ==> (n matches Node::Stmts(s) && wf_stmts(s@)),
            p_program(old(self).token_seq()) matches Ok(ss) ==> (r matches Ok(n) && (n matches Node::Stmts(s) && stmt_views(s@) == ss)),
            p_program(old(self).token_seq()) matches Err(e) ==> r == Err::<Node, ParseError>(e),
    {
        let stmts = self.stmts()?;
        if self.current < self.tokens.len() {
            return Err(self.unexpected());
        }
        Ok(Node::Stmts(stmts))
    }
}

pub open spec fn gives_expr(r: Result<Expression, ParseError>, cur: int, s: PExpr) -> bool {
    match s {
        Ok((v, p)) => r is Ok && expr_view(r->Ok_0) == v && cur == p,
        Err(err) => r == Err::<Expression, ParseError>(err),
    }
}

pub open spec fn gives_args(r: Result<Vec<Expression>, ParseError>, cur: int, s: PArgs) -> bool {
    match s {
        Ok((v, p)) => r is Ok && expr_views(r->Ok_0@) == v && cur == p,
        Err(err) => r == Err::<Vec<Expression>, ParseError>(err),
    }
}

pub open spec fn gives_stmt(r: Result<Statement, ParseError>, cur: int, s: PStmt) -> bool {
    match s {
        Ok((v, p)) => r is Ok && stmt_view(r->Ok_0) == v && cur == p,
        Err(err) => r == Err::<Statement, ParseError>(err),
    }
}

pub open spec fn gives_stmts(r: Result<Vec<Statement>, ParseError>, cur: int, s: PStmts) -> bool {
    match s {
        Ok((v, p)) => r is Ok && stmt_views(r->Ok_0@) == v && cur == p,
        Err(err) => r == Err::<Vec<Statement>, ParseError>(err),
    }
}

pub open spec fn prepend_args(a: Seq<ExprV>, r: PArgs) -> PArgs {
    match r {
        Ok((rest, p)) => Ok((a + rest, p)),
        Err(err) => Err(err),
    }
}

pub open spec fn prepend_stmts(a: Seq<StmtV>, r: PStmts) -> PStmts {
    match r {
        Ok((rest, p)) => Ok((a + rest, p)),
        Err(err) => Err(err),
    }
}

/// Whether `t` is an operator of precedence `level` (3 to 9).
pub open spec fn level_op(level: u8, t: TokenType) -> bool {
    if level == 3 {
        t is TokMod
    } else if level == 4 {
        t is TokStar || t is TokSlash
    } else if level == 5 {
        t is TokPlus || t is TokMinus
    } else if level == 6 {
        t is TokGe || t is TokLe || t is TokGt || t is TokLt
    } else if level == 7 {
        t is TokEq || t is TokNe
    } else if level == 8 {
        t is TokAnd
    } else {
        t is TokOr
    }
}

} // verus!
