//! Laws of the language, proved of its semantics.
use vstd::prelude::*;

use crate::model::{Expression, Statement};
use crate::semantics::{
    bind_params, enter, sem_call, sem_expr, sem_stmt, sem_stmts, sem_while, truth, Run,
};
use crate::state::{
    assign_local, assign_var, assoc, bind, empty_frame, lemma_bind, lookup_fn, lookup_var,
    var_owner, Frame,
};
use crate::token::{Token, TokenType};
use crate::value::{Reply, Value};

verus! {

/// Parenthesizing an expression does not change what it does.
pub proof fn grouping_is_transparent(fuel: nat, e: Expression, run: Run, rs: Seq<Reply>)
    ensures
        sem_expr(fuel, Expression::Grouping { value: Box::new(e) }, run, rs) == sem_expr(
            fuel,
            e,
            run,
            rs,
        ),
{
}

/// When the left operand of `or` is `true`, the right operand is not
/// evaluated: the run ends as the left operand left it.
pub proof fn or_short_circuits(
    fuel: nat,
    op: Token,
    left: Expression,
    right: Expression,
    run: Run,
    rs: Seq<Reply>,
)
    requires
        op.token_type == TokenType::TokOr,
        sem_expr(fuel, left, run, rs).outcome == Ok::<Value, crate::semantics::RuntimeError>(
            Value::Bool(true),
        ),
    ensures
        sem_expr(
            fuel,
            Expression::LogicalOp { op, left: Box::new(left), right: Box::new(right) },
            run,
            rs,
        ) == sem_expr(fuel, left, run, rs),
{
}

/// When the left operand of `and` is `false`, the right operand is not
/// evaluated: the run ends as the left operand left it.
pub proof fn and_short_circuits(
    fuel: nat,
    op: Token,
    left: Expression,
    right: Expression,
    run: Run,
    rs: Seq<Reply>,
)
    requires
        op.token_type == TokenType::TokAnd,
        sem_expr(fuel, left, run, rs).outcome == Ok::<Value, crate::semantics::RuntimeError>(
            Value::Bool(false),
        ),
    ensures
        sem_expr(
            fuel,
            Expression::LogicalOp { op, left: Box::new(left), right: Box::new(right) },
            run,
            rs,
        ) == sem_expr(fuel, left, run, rs),
{
}

proof fn lemma_owner_found(env: Seq<Frame>, k: Seq<char>)
    ensures
        var_owner(env, k) matches Some(i) ==> 0 <= i < env.len() && assoc(env[i].vars, k) is Some
            && forall|j: int| i < j < env.len() ==> assoc(#[trigger] env[j].vars, k) is None,
    decreases env.len(),
{
    if env.len() > 0 {
        lemma_owner_found(env.drop_last(), k);
        assert(forall|j: int| 0 <= j < env.len() - 1 ==> env.drop_last()[j] == env[j]);
    }
}

proof fn lemma_owner_unchanged(env: Seq<Frame>, env2: Seq<Frame>, k: Seq<char>)
    requires
        env.len() == env2.len(),
        forall|j: int| 0 <= j < env.len() ==> (assoc(#[trigger] env[j].vars, k) is Some <==> assoc(
            env2[j].vars,
            k,
        ) is Some),
    ensures
        var_owner(env, k) == var_owner(env2, k),
    decreases env.len(),
{
    if env.len() > 0 {
        lemma_owner_unchanged(env.drop_last(), env2.drop_last(), k);
    }
}

/// Assignment to a variable that an enclosing scope `i` binds rebinds it in
/// that scope and leaves every other scope as it was; reading the variable
/// then gives the new value, from the innermost scope and from scope `i`
/// once the scopes inside it are closed.
pub proof fn assignment_rebinds_enclosing(env: Seq<Frame>, k: Seq<char>, v: Value, i: int)
    requires
        var_owner(env, k) == Some(i),
    ensures
        assign_var(env, k, v).len() == env.len(),
        forall|j: int| 0 <= j < env.len() && j != i ==> #[trigger] assign_var(env, k, v)[j] == env[j],
        lookup_var(assign_var(env, k, v), k) == Some(v),
        lookup_var(assign_var(env, k, v).subrange(0, i + 1), k) == Some(v),
{
    lemma_owner_found(env, k);
    let env2 = assign_var(env, k, v);
    lemma_bind(env[i].vars, k, v, k);
    assert forall|j: int| 0 <= j < env.len() implies (assoc(#[trigger] env[j].vars, k) is Some
        <==> assoc(env2[j].vars, k) is Some) by {
        if j == i {
            lemma_bind(env[i].vars, k, v, k);
        }
    }
    lemma_owner_unchanged(env, env2, k);
    let pre = env2.subrange(0, i + 1);
    assert(pre.last() == env2[i]);
    assert(var_owner(pre, k) == Some(i));
}

/// Local assignment binds the variable in the innermost scope alone: the
/// enclosing scopes are left as they were, and reading the variable there
/// gives the new value.
pub proof fn local_assignment_shadows(env: Seq<Frame>, k: Seq<char>, v: Value)
    requires
        env.len() > 0,
    ensures
        assign_local(env, k, v).len() == env.len(),
        assign_local(env, k, v).subrange(0, env.len() - 1) == env.subrange(0, env.len() - 1),
        lookup_var(assign_local(env, k, v), k) == Some(v),
{
    let env2 = assign_local(env, k, v);
    lemma_bind(env[env.len() - 1].vars, k, v, k);
    assert(env2.subrange(0, env.len() - 1) =~= env.subrange(0, env.len() - 1));
    assert(var_owner(env2, k) == Some(env.len() - 1));
}

/// A statement that returns ends its statement list: no statement after it
/// runs, and the list ends as that statement left it.
pub proof fn return_ends_list(fuel: nat, ss: Vec<Statement>, i: int, run: Run, rs: Seq<Reply>)
    requires
        0 <= i < ss.len(),
        sem_stmt(fuel, ss[i], run, rs).outcome matches Ok(Value::Return(_)),
    ensures
        sem_stmts(fuel, ss, i, run, rs) == sem_stmt(fuel, ss[i], run, rs),
{
}

/// A `ret` in the branch that an `if` takes ends the `if` with the same
/// outcome.
pub proof fn return_leaves_if(
    fuel: nat,
    test: Expression,
    then_stmts: Vec<Statement>,
    else_stmts: Vec<Statement>,
    run: Run,
    rs: Seq<Reply>,
)
    requires
        sem_expr(fuel, test, run, rs).outcome matches Ok(v) && truth(v) == Ok::<
            bool,
            crate::semantics::RuntimeError,
        >(true),
        sem_stmts(
            fuel,
            then_stmts,
            0,
            enter(sem_expr(fuel, test, run, rs).run),
            sem_expr(fuel, test, run, rs).rest,
        ).outcome matches Ok(Value::Return(_)),
    ensures
        sem_stmt(fuel, Statement::IfStatement { test, then_stmts, else_stmts }, run, rs).outcome
            == sem_stmts(
            fuel,
            then_stmts,
            0,
            enter(sem_expr(fuel, test, run, rs).run),
            sem_expr(fuel, test, run, rs).rest,
        ).outcome,
{
}

/// A `ret` in the body of a `while` ends the loop with the same outcome.
pub proof fn return_leaves_while(fuel: nat, test: Expression, stmts: Vec<Statement>, run: Run, rs: Seq<Reply>)
    requires
        fuel > 0,
        sem_expr(fuel, test, run, rs).outcome matches Ok(v) && truth(v) == Ok::<
            bool,
            crate::semantics::RuntimeError,
        >(true),
        sem_stmts(
            fuel,
            stmts,
            0,
            sem_expr(fuel, test, run, rs).run,
            sem_expr(fuel, test, run, rs).rest,
        ).outcome matches Ok(Value::Return(_)),
    ensures
        sem_while(fuel, Statement::While { test, stmts }, run, rs).outcome == sem_stmts(
            fuel,
            stmts,
            0,
            sem_expr(fuel, test, run, rs).run,
            sem_expr(fuel, test, run, rs).rest,
        ).outcome,
{
}

/// A call whose body ends with `ret v` has the value `v`: the call is where
/// a `ret` stops.
pub proof fn return_leaves_call(
    fuel: nat,
    call: Expression,
    vals: Seq<Value>,
    run: Run,
    rs: Seq<Reply>,
    fname: String,
    params: Vec<Statement>,
    stmts: Vec<Statement>,
    v: Value,
)
    requires
        call is FunctionCall,
        lookup_fn(run.env, call->FunctionCall_name@) == Some(
            Statement::FunctionDeclaration { name: fname, params, stmts },
        ),
        params.len() == vals.len(),
        fuel > 0,
        sem_stmts(
            (fuel - 1) as nat,
            stmts,
            0,
            Run {
                env: bind_params(run.env.push(empty_frame()), params, vals, vals.len()),
                out: run.out,
            },
            rs,
        ).outcome == Ok::<Value, crate::semantics::RuntimeError>(Value::Return(Box::new(v))),
    ensures
        sem_call(fuel, call, vals, run, rs).outcome == Ok::<Value, crate::semantics::RuntimeError>(v),
{
}

} // verus!
