//! The syntax tree: expressions, statements and the root node.
use vstd::prelude::*;

use crate::token::{Token, TokenType};

verus! {

broadcast use vstd::std_specs::vec::axiom_vec_index_decreases;

/// An expression of the language.
#[derive(Debug)]
#[allow(inconsistent_fields)]
pub enum Expression {
    Integer { value: i64 },
    /// A decimal literal with a fractional part, kept as its source text
    /// (`digits '.' digits`); the number system in use reads it.
    Float { value: String },
    Bool { value: bool },
    /// A string literal without its surrounding quotes.
    Str { value: String },
    UnaryOp { op: Token, exp: Box<Expression> },
    LogicalOp { op: Token, left: Box<Expression>, right: Box<Expression> },
    BinOp { op: Token, left: Box<Expression>, right: Box<Expression> },
    Grouping { value: Box<Expression> },
    Identifier { name: String },
    FunctionCall { name: String, args: Vec<Expression> },
}

/// A statement of the language.
#[derive(Debug)]
pub enum Statement {
    PrintStatement { value: Expression },
    PrintlnStatement { value: Expression },
    IfStatement { test: Expression, then_stmts: Vec<Statement>, else_stmts: Vec<Statement> },
    Assignment { left: Expression, right: Expression },
    While { test: Expression, stmts: Vec<Statement> },
    For {
        identifier: Expression,
        start: Expression,
        end: Expression,
        step: Expression,
        stmts: Vec<Statement>,
    },
    Parameter { name: String },
    FunctionCall { expr: Expression },
    FunctionDeclaration { name: String, params: Vec<Statement>, stmts: Vec<Statement> },
    Return { val: Expression },
    LocalAssignment { left: Expression, right: Expression },
}

/// The root of a parsed program, or a piece of one.
#[derive(Debug)]
pub enum Node {
    Stmts(Vec<Statement>),
    Stmt(Statement),
    Expr(Expression),
}

/// The runtime types of the language.
#[derive(Debug, Clone, Copy, PartialEq, Eq, Structural)]
pub enum VariableType {
    TypeBool,
    TypeString,
    TypeNumber,
}

pub open spec fn is_unary_op(t: TokenType) -> bool {
    t is TokNot || t is TokMinus || t is TokPlus
}

pub open spec fn is_logical_op(t: TokenType) -> bool {
    t is TokAnd || t is TokOr
}

pub open spec fn is_binary_op(t: TokenType) -> bool {
    ||| t is TokPlus
    ||| t is TokMinus
    ||| t is TokStar
    ||| t is TokSlash
    ||| t is TokMod
    ||| t is TokCaret
    ||| t is TokEq
    ||| t is TokNe
    ||| t is TokLt
    ||| t is TokLe
    ||| t is TokGt
    ||| t is TokGe
}

/// Operators carry operator tokens of their own kind.
pub open spec fn wf_expr(e: Expression) -> bool
    decreases e,
{
    match e {
        Expression::UnaryOp { op, exp } => is_unary_op(op.token_type) && wf_expr(*exp),
        Expression::LogicalOp { op, left, right } => is_logical_op(op.token_type) && wf_expr(
            *left,
        ) && wf_expr(*right),
        Expression::BinOp { op, left, right } => is_binary_op(op.token_type) && wf_expr(*left)
            && wf_expr(*right),
        Expression::Grouping { value } => wf_expr(*value),
        Expression::FunctionCall { name, args } => forall|i: int|
            0 <= i < args.len() ==> wf_expr(#[trigger] args[i]),
        _ => true,
    }
}

pub open spec fn is_identifier(e: Expression) -> bool {
    e is Identifier
}

/// A statement whose expressions are well formed, whose assignment targets
/// and loop variables are identifiers, and whose parameter lists hold only
/// parameters.
pub open spec fn wf_stmt(s: Statement) -> bool
    decreases s,
{
    match s {
        Statement::PrintStatement { value } => wf_expr(value),
        Statement::PrintlnStatement { value } => wf_expr(value),
        Statement::IfStatement { test, then_stmts, else_stmts } => wf_expr(test) && (forall|i: int|
            0 <= i < then_stmts.len() ==> wf_stmt(#[trigger] then_stmts[i])) && (forall|i: int|
            0 <= i < else_stmts.len() ==> wf_stmt(#[trigger] else_stmts[i])),
        Statement::Assignment { left, right } => is_identifier(left) && wf_expr(right),
        Statement::LocalAssignment { left, right } => is_identifier(left) && wf_expr(right),
        Statement::While { test, stmts } => wf_expr(test) && forall|i: int|
            0 <= i < stmts.len() ==> wf_stmt(#[trigger] stmts[i]),
        Statement::For { identifier, start, end, step, stmts } => is_identifier(identifier)
            && wf_expr(start) && wf_expr(end) && wf_expr(step) && forall|i: int|
            0 <= i < stmts.len() ==> wf_stmt(#[trigger] stmts[i]),
        Statement::FunctionCall { expr } => expr is FunctionCall && wf_expr(expr),
        Statement::FunctionDeclaration { name, params, stmts } => (forall|i: int|
            0 <= i < params.len() ==> (#[trigger] params[i]) is Parameter) && forall|i: int|
            0 <= i < stmts.len() ==> wf_stmt(#[trigger] stmts[i]),
        Statement::Return { val } => wf_expr(val),
        Statement::Parameter { name } => true,
    }
}

pub open spec fn wf_stmts(s: Seq<Statement>) -> bool {
    forall|i: int| 0 <= i < s.len() ==> wf_stmt(#[trigger] s[i])
}

/// The number of nodes of an expression.
pub open spec fn expr_size(e: Expression) -> nat
    decreases e, 0int,
{
    1 + match e {
        Expression::UnaryOp { op: _, exp } => expr_size(*exp),
        Expression::LogicalOp { op: _, left, right } => expr_size(*left) + expr_size(*right),
        Expression::BinOp { op: _, left, right } => expr_size(*left) + expr_size(*right),
        Expression::Grouping { value } => expr_size(*value),
        Expression::FunctionCall { name: _, args } => args_size_from(args, 0),
        _ => 0,
    }
}

/// The number of nodes of `args[i..]`, one more per argument.
pub open spec fn args_size_from(args: Vec<Expression>, i: int) -> nat
    decreases args, args.len() - i,
{
    if i < 0 || i >= args.len() {
        0
    } else {
        1 + expr_size(args[i]) + args_size_from(args, i + 1)
    }
}

/// The number of nodes of a statement.
pub open spec fn stmt_size(s: Statement) -> nat
    decreases s, 0int,
{
    1 + match s {
        Statement::PrintStatement { value } => expr_size(value),
        Statement::PrintlnStatement { value } => expr_size(value),
        Statement::IfStatement { test, then_stmts, else_stmts } => expr_size(test)
            + stmts_size_from(then_stmts, 0) + stmts_size_from(else_stmts, 0),
        Statement::Assignment { left, right } => expr_size(left) + expr_size(right),
        Statement::LocalAssignment { left, right } => expr_size(left) + expr_size(right),
        Statement::While { test, stmts } => expr_size(test) + stmts_size_from(stmts, 0),
        Statement::For { identifier, start, end, step, stmts } => expr_size(identifier)
            + expr_size(start) + expr_size(end) + expr_size(step) + stmts_size_from(stmts, 0),
        Statement::FunctionCall { expr } => expr_size(expr),
        Statement::FunctionDeclaration { name: _, params, stmts } => stmts_size_from(params, 0)
            + stmts_size_from(stmts, 0),
        Statement::Return { val } => expr_size(val),
        Statement::Parameter { name: _ } => 0,
    }
}

/// The number of nodes of `ss[i..]`, one more per statement.
pub open spec fn stmts_size_from(ss: Vec<Statement>, i: int) -> nat
    decreases ss, ss.len() - i,
{
    if i < 0 || i >= ss.len() {
        0
    } else {
        1 + stmt_size(ss[i]) + stmts_size_from(ss, i + 1)
    }
}

/// The shape of an expression: operators by category, names and text by
/// their characters.
pub enum ExprV {
    Integer(i64),
    Float(Seq<char>),
    Bool(bool),
    Str(Seq<char>),
    Unary(TokenType, Box<ExprV>),
    Logical(TokenType, Box<ExprV>, Box<ExprV>),
    Bin(TokenType, Box<ExprV>, Box<ExprV>),
    Grouping(Box<ExprV>),
    Ident(Seq<char>),
    Call(Seq<char>, Seq<ExprV>),
}

/// The shape of a statement.
pub enum StmtV {
    Print(ExprV),
    Println(ExprV),
    If(ExprV, Seq<StmtV>, Seq<StmtV>),
    Assign(ExprV, ExprV),
    Local(ExprV, ExprV),
    While(ExprV, Seq<StmtV>),
    For(ExprV, ExprV, ExprV, ExprV, Seq<StmtV>),
    Param(Seq<char>),
    Call(ExprV),
    Func(Seq<char>, Seq<StmtV>, Seq<StmtV>),
    Ret(ExprV),
}

pub open spec fn expr_view(e: Expression) -> ExprV
    decreases e, 0int,
{
    match e {
        Expression::Integer { value } => ExprV::Integer(value),
        Expression::Float { value } => ExprV::Float(value@),
        Expression::Bool { value } => ExprV::Bool(value),
        Expression::Str { value } => ExprV::Str(value@),
        Expression::UnaryOp { op, exp } => ExprV::Unary(op.token_type, Box::new(expr_view(*exp))),
        Expression::LogicalOp { op, left, right } => ExprV::Logical(
            op.token_type,
            Box::new(expr_view(*left)),
            Box::new(expr_view(*right)),
        ),
        Expression::BinOp { op, left, right } => ExprV::Bin(
            op.token_type,
            Box::new(expr_view(*left)),
            Box::new(expr_view(*right)),
        ),
        Expression::Grouping { value } => ExprV::Grouping(Box::new(expr_view(*value))),
        Expression::Identifier { name } => ExprV::Ident(name@),
        Expression::FunctionCall { name, args } => ExprV::Call(name@, args_view_from(args, 0)),
    }
}

/// The shapes of `args[i..]`.
pub open spec fn args_view_from(args: Vec<Expression>, i: int) -> Seq<ExprV>
    decreases args, args.len() - i,
{
    if i < 0 || i >= args.len() {
        Seq::empty()
    } else {
        seq![expr_view(args[i])] + args_view_from(args, i + 1)
    }
}

pub open spec fn stmt_view(s: Statement) -> StmtV
    decreases s, 0int,
{
    match s {
        Statement::PrintStatement { value } => StmtV::Print(expr_view(value)),
        Statement::PrintlnStatement { value } => StmtV::Println(expr_view(value)),
        Statement::IfStatement { test, then_stmts, else_stmts } => StmtV::If(
            expr_view(test),
            stmts_view_from(then_stmts, 0),
            stmts_view_from(else_stmts, 0),
        ),
        Statement::Assignment { left, right } => StmtV::Assign(expr_view(left), expr_view(right)),
        Statement::LocalAssignment { left, right } => StmtV::Local(
            expr_view(left),
            expr_view(right),
        ),
        Statement::While { test, stmts } => StmtV::While(expr_view(test), stmts_view_from(stmts, 0)),
        Statement::For { identifier, start, end, step, stmts } => StmtV::For(
            expr_view(identifier),
            expr_view(start),
            expr_view(end),
            expr_view(step),
            stmts_view_from(stmts, 0),
        ),
        Statement::Parameter { name } => StmtV::Param(name@),
        Statement::FunctionCall { expr } => StmtV::Call(expr_view(expr)),
        Statement::FunctionDeclaration { name, params, stmts } => StmtV::Func(
            name@,
            stmts_view_from(params, 0),
            stmts_view_from(stmts, 0),
        ),
        Statement::Return { val } => StmtV::Ret(expr_view(val)),
    }
}

/// The shapes of `ss[i..]`.
pub open spec fn stmts_view_from(ss: Vec<Statement>, i: int) -> Seq<StmtV>
    decreases ss, ss.len() - i,
{
    if i < 0 || i >= ss.len() {
        Seq::empty()
    } else {
        seq![stmt_view(ss[i])] + stmts_view_from(ss, i + 1)
    }
}

pub open spec fn expr_views(s: Seq<Expression>) -> Seq<ExprV> {
    s.map_values(|e: Expression| expr_view(e))
}

pub open spec fn stmt_views(s: Seq<Statement>) -> Seq<StmtV> {
    s.map_values(|e: Statement| stmt_view(e))
}

pub proof fn lemma_args_view(args: Vec<Expression>, i: int)
    requires
        0 <= i <= args.len(),
    ensures
        args_view_from(args, i) == expr_views(args@.subrange(i, args.len() as int)),
    decreases args.len() - i,
{
    if i < args.len() {
        lemma_args_view(args, i + 1);
    }
    assert(args_view_from(args, i) =~= expr_views(args@.subrange(i, args.len() as int)));
}

pub proof fn lemma_stmts_view(ss: Vec<Statement>, i: int)
    requires
        0 <= i <= ss.len(),
    ensures
        stmts_view_from(ss, i) == stmt_views(ss@.subrange(i, ss.len() as int)),
    decreases ss.len() - i,
{
    if i < ss.len() {
        lemma_stmts_view(ss, i + 1);
    }
    assert(stmts_view_from(ss, i) =~= stmt_views(ss@.subrange(i, ss.len() as int)));
}

} // verus!
