//! Adding the constraints of statements to the solver.
//!
//! An expression statement asserts its boolean term; an assignment asserts that the
//! assigned variable equals the value. An `if` solves its condition, which must be
//! boolean, and asserts each constraint of the then branch as an implication from the
//! condition and each of the else branch as one from its negation; a nested `if`
//! strengthens the condition with its own (or its negation), and a block passes the
//! condition on to its statements. The body of a `with` statement is solved in order;
//! definitions add nothing. A `for` loop needs a range to unroll, which resolved
//! programs here do not hold, and a `let` is not taken: variables are declared in the
//! context beforehand.

use vstd::prelude::*;
use crate::hir::{ResolvedExpr, ResolvedExprKind, ResolvedStmt, ResolvedStmtKind, ResolvedStructLitField, VarDefinition,
    StructTable, type_in_table, bounded, table_wf};
use crate::solver::context::{SolverContext, SolverError, SolverErrorModel};
use crate::solver::z3_api::{BoolTerm, TermModel, TermOp, bin, bool_not, bool_and, bool_implies, bool_clone};
use crate::solver::z3_bridge::{Z3Ast, SortModel};
use crate::solver::expr_solver::{SolveModel, Solved, solve_model, solve_spec, solve_fits, leaf_spec, equality_result,
    solve_expr, solve_leaf, equality_terms, ast_solved, type_error};
use crate::solver::context::{var_path_fits, var_path, key_insert, tree_error, tree_of, table_names_ok, NodeModel};
use crate::solver::struct_flattener::flatten_depth;
use crate::solver::path::{PathComponent, ComponentView, VariablePath, path_view, field_names_ok};
use crate::solver::expr_solver::{field_eq_term, lit_fields_fit, field_equality};
use crate::solver::solve_loop::{SolveState, SolveResult, StepAction, MAX_ITERATIONS, start_iteration, solve_step};
use crate::solver::z3_api::CheckOutcome;
use crate::text::append_str;

verus! {

/// The name of a statement kind, as error messages give it.
pub open spec fn stmt_kind_name(k: ResolvedStmtKind) -> Seq<char> {
    match k {
        ResolvedStmtKind::Let { .. } => "Let"@,
        ResolvedStmtKind::Expression { .. } => "Expression"@,
        ResolvedStmtKind::If { .. } => "If"@,
        ResolvedStmtKind::For { .. } => "For"@,
        ResolvedStmtKind::Return { .. } => "Return"@,
        ResolvedStmtKind::FunctionDef { .. } => "FunctionDef"@,
        ResolvedStmtKind::StructDef { .. } => "StructDef"@,
        ResolvedStmtKind::Assignment { .. } => "Assignment"@,
        ResolvedStmtKind::FieldAssignment { .. } => "FieldAssignment"@,
        ResolvedStmtKind::With { .. } => "With"@,
        ResolvedStmtKind::Block { .. } => "Block"@,
    }
}

/// The name of a statement kind.
pub fn stmt_kind_label(k: &ResolvedStmtKind) -> (s: &'static str)
    ensures
        s@ == stmt_kind_name(*k),
{
    match k {
        ResolvedStmtKind::Let { .. } => "Let",
        ResolvedStmtKind::Expression { .. } => "Expression",
        ResolvedStmtKind::If { .. } => "If",
        ResolvedStmtKind::For { .. } => "For",
        ResolvedStmtKind::Return { .. } => "Return",
        ResolvedStmtKind::FunctionDef { .. } => "FunctionDef",
        ResolvedStmtKind::StructDef { .. } => "StructDef",
        ResolvedStmtKind::Assignment { .. } => "Assignment",
        ResolvedStmtKind::FieldAssignment { .. } => "FieldAssignment",
        ResolvedStmtKind::With { .. } => "With",
        ResolvedStmtKind::Block { .. } => "Block",
    }
}

/// The terms asserted after a step, and the error that stopped it, if any.
pub type StmtOutcome = (Seq<TermModel>, Option<SolverErrorModel>);

/// The equality of the assigned part `target` and `value`, or the error (`msg` for
/// sorts that do not match).
pub open spec fn assignment_spec(m: SolveModel, target: ResolvedExpr, value: ResolvedExpr, msg: Seq<char>) -> Solved {
    equality_result(false, leaf_spec(m, target), solve_spec(m, value), msg)
}

/// What processing `s` inside a conditional branch with condition `c` (negated when
/// `negate`) adds to the terms `log`.
pub open spec fn cond_stmt_spec(m: SolveModel, log: Seq<TermModel>, s: ResolvedStmt, c: TermModel, negate: bool) -> StmtOutcome
    decreases s, 0nat,
{
    let actual = if negate { TermModel::Not(Box::new(c)) } else { c };
    match s.kind {
        ResolvedStmtKind::Expression { expr, .. } => match solve_spec(m, expr) {
            Err(x) => (log, Some(x)),
            Ok((sort, t)) => if sort == SortModel::Bool {
                (log.push(bin(TermOp::Implies, actual, t)), None)
            } else {
                (log, Some(SolverErrorModel::UnsupportedExpression("Cannot convert non-boolean expression to boolean"@)))
            },
        },
        ResolvedStmtKind::Assignment { target, value, .. } =>
            match assignment_spec(m, target, value, "Type mismatch in conditional assignment"@) {
                Err(x) => (log, Some(x)),
                Ok((_, t)) => (log.push(bin(TermOp::Implies, actual, t)), None),
            },
        ResolvedStmtKind::FieldAssignment { target, value, .. } =>
            match assignment_spec(m, target, value, "Type mismatch in conditional field assignment"@) {
                Err(x) => (log, Some(x)),
                Ok((_, t)) => (log.push(bin(TermOp::Implies, actual, t)), None),
            },
        ResolvedStmtKind::If { condition, then_branch, else_branch, .. } => match solve_spec(m, condition) {
            Err(x) => (log, Some(x)),
            Ok((sort, ic)) => if sort != SortModel::Bool {
                (log, Some(SolverErrorModel::UnsupportedExpression("Nested if condition must be boolean"@)))
            } else {
                let (l1, e1) = cond_list_spec(m, log, then_branch@, 0, bin(TermOp::And, actual, ic), false);
                if e1 is Some {
                    (l1, e1)
                } else {
                    match else_branch {
                        None => (l1, None),
                        Some(es) => cond_list_spec(m, l1, es@, 0,
                            bin(TermOp::And, actual, TermModel::Not(Box::new(ic))), false),
                    }
                }
            },
        },
        ResolvedStmtKind::Block { statements, .. } => cond_list_spec(m, log, statements@, 0, c, negate),
        _ => (log, Some(SolverErrorModel::UnsupportedStatement(
            "Statement type not supported in if-statement branches: "@ + stmt_kind_name(s.kind)))),
    }
}

/// [`cond_stmt_spec`] for `ss[i..]` in order, stopping at the first error.
pub open spec fn cond_list_spec(m: SolveModel, log: Seq<TermModel>, ss: Seq<ResolvedStmt>, i: int, c: TermModel, negate: bool) -> StmtOutcome
    decreases ss, ss.len() - i,
{
    if i < 0 || i >= ss.len() {
        (log, None)
    } else {
        let (l1, e1) = cond_stmt_spec(m, log, ss[i], c, negate);
        if e1 is Some { (l1, e1) } else { cond_list_spec(m, l1, ss, i + 1, c, negate) }
    }
}

/// What solving the statement `s` adds to the terms `log`.
pub open spec fn stmt_spec(m: SolveModel, log: Seq<TermModel>, s: ResolvedStmt) -> StmtOutcome
    decreases s, 0nat,
{
    match s.kind {
        ResolvedStmtKind::Expression { expr, .. } => match solve_spec(m, expr) {
            Err(x) => (log, Some(x)),
            Ok((sort, t)) => if sort == SortModel::Bool {
                (log.push(t), None)
            } else {
                (log, Some(SolverErrorModel::UnsupportedStatement("Expression statement must evaluate to boolean"@)))
            },
        },
        ResolvedStmtKind::Assignment { target, value, .. } =>
            match assignment_spec(m, target, value, "Type mismatch in assignment"@) {
                Err(x) => (log, Some(x)),
                Ok((_, t)) => (log.push(t), None),
            },
        ResolvedStmtKind::If { condition, then_branch, else_branch, .. } => match solve_spec(m, condition) {
            Err(x) => (log, Some(x)),
            Ok((sort, c)) => if sort != SortModel::Bool {
                (log, Some(SolverErrorModel::UnsupportedExpression("If condition must be boolean"@)))
            } else {
                let (l1, e1) = cond_list_spec(m, log, then_branch@, 0, c, false);
                if e1 is Some {
                    (l1, e1)
                } else {
                    match else_branch {
                        None => (l1, None),
                        Some(es) => cond_list_spec(m, l1, es@, 0, c, true),
                    }
                }
            },
        },
        ResolvedStmtKind::Block { statements, .. } => stmt_list_spec(m, log, statements@, 0),
        ResolvedStmtKind::With { body, .. } => stmt_list_spec(m, log, body@, 0),
        ResolvedStmtKind::For { .. } => (log, Some(SolverErrorModel::UnsupportedExpression(
            "For loop iterator must be a range expression"@))),
        ResolvedStmtKind::StructDef { .. } | ResolvedStmtKind::FunctionDef { .. } => (log, None),
        _ => (log, Some(SolverErrorModel::UnsupportedStatement(stmt_kind_name(s.kind)))),
    }
}

/// [`stmt_spec`] for `ss[i..]` in order, stopping at the first error.
pub open spec fn stmt_list_spec(m: SolveModel, log: Seq<TermModel>, ss: Seq<ResolvedStmt>, i: int) -> StmtOutcome
    decreases ss, ss.len() - i,
{
    if i < 0 || i >= ss.len() {
        (log, None)
    } else {
        let (l1, e1) = stmt_spec(m, log, ss[i]);
        if e1 is Some { (l1, e1) } else { stmt_list_spec(m, l1, ss, i + 1) }
    }
}

/// Solving the expressions of `s` evaluates no index with a machine overflow.
pub open spec fn stmt_fits(m: SolveModel, s: ResolvedStmt) -> bool
    decreases s, 0nat,
{
    match s.kind {
        ResolvedStmtKind::Expression { expr, .. } => solve_fits(m, expr),
        ResolvedStmtKind::Assignment { target, value, .. } | ResolvedStmtKind::FieldAssignment { target, value, .. } =>
            var_path_fits(target, m.sol) && solve_fits(m, value),
        ResolvedStmtKind::If { condition, then_branch, else_branch, .. } =>
            solve_fits(m, condition) && list_fits(m, then_branch@, 0) && match else_branch {
                None => true,
                Some(es) => list_fits(m, es@, 0),
            },
        ResolvedStmtKind::Block { statements, .. } => list_fits(m, statements@, 0),
        ResolvedStmtKind::With { body, .. } => list_fits(m, body@, 0),
        _ => true,
    }
}

/// [`stmt_fits`] for each of `ss[i..]`.
pub open spec fn list_fits(m: SolveModel, ss: Seq<ResolvedStmt>, i: int) -> bool
    decreases ss, ss.len() - i,
{
    if i < 0 || i >= ss.len() { true } else { stmt_fits(m, ss[i]) && list_fits(m, ss, i + 1) }
}

/// The outcome of a step.
pub open spec fn stmt_outcome(r: Result<(), SolverError>) -> Option<SolverErrorModel> {
    match r {
        Ok(()) => None,
        Err(e) => Some(e@),
    }
}

// ============================================================================
// Solving statements (executable)
// ============================================================================

/// The equality of the assigned part `target` and `value`; `msg` for sorts that do
/// not match.
fn assignment_term<'src>(ctx: &SolverContext<'src>, target: &'src ResolvedExpr, value: &'src ResolvedExpr, msg: &str)
    -> (r: Result<BoolTerm, SolverError>)
    requires
        var_path_fits(*target, solve_model(*ctx).sol),
        solve_fits(solve_model(*ctx), *value),
    ensures
        match assignment_spec(solve_model(*ctx), *target, *value, msg@) {
            Err(x) => r matches Err(e) && e@ == x,
            Ok((_, t)) => r matches Ok(b) && b.model() == t,
        },
{
    let var = match solve_leaf(ctx, target) { Ok(a) => a, Err(e) => { return Err(e); } };
    let val = match solve_expr(ctx, value) { Ok(a) => a, Err(e) => { return Err(e); } };
    match equality_terms(false, &var, &val) {
        Some(Z3Ast::Bool(b)) => Ok(b),
        _ => Err(type_error(msg)),
    }
}

/// The boolean term of a condition; `msg` when it is not boolean.
fn condition_term<'src>(ctx: &SolverContext<'src>, condition: &'src ResolvedExpr, msg: &str) -> (r: Result<BoolTerm, SolverError>)
    requires
        solve_fits(solve_model(*ctx), *condition),
    ensures
        match solve_spec(solve_model(*ctx), *condition) {
            Err(x) => r matches Err(e) && e@ == x,
            Ok((sort, t)) => if sort == SortModel::Bool {
                r matches Ok(b) && b.model() == t
            } else {
                r matches Err(e) && e@ == SolverErrorModel::UnsupportedExpression(msg@)
            },
        },
{
    match solve_expr(ctx, condition) {
        Err(e) => Err(e),
        Ok(Z3Ast::Bool(b)) => Ok(b),
        Ok(_) => Err(type_error(msg)),
    }
}

/// Processes `s` inside a conditional branch whose condition is `c`, negated when
/// `negate`: each constraint is asserted as an implication from the condition (see
/// [`cond_stmt_spec`]).
pub fn process_conditional_stmt<'src>(ctx: &mut SolverContext<'src>, s: &'src ResolvedStmt, c: &BoolTerm, negate: bool)
    -> (r: Result<(), SolverError>)
    requires
        stmt_fits(solve_model(*old(ctx)), *s),
    ensures
        solve_model(*final(ctx)) == solve_model(*old(ctx)),
        final(ctx).struct_table() == old(ctx).struct_table(),
        (final(ctx).asserted(), stmt_outcome(r)) == cond_stmt_spec(solve_model(*old(ctx)), old(ctx).asserted(), *s, c.model(), negate),
    decreases s, 1nat,
{
    let actual = if negate { bool_not(c) } else { bool_clone(c) };
    match &s.kind {
        ResolvedStmtKind::Expression { expr, .. } => {
            let t = match condition_term(ctx, expr, "Cannot convert non-boolean expression to boolean") {
                Ok(b) => b,
                Err(e) => { return Err(e); },
            };
            ctx.assert_term(&bool_implies(&actual, &t));
            Ok(())
        },
        ResolvedStmtKind::Assignment { target, value, .. } => {
            let t = match assignment_term(ctx, target, value, "Type mismatch in conditional assignment") {
                Ok(b) => b,
                Err(e) => { return Err(e); },
            };
            ctx.assert_term(&bool_implies(&actual, &t));
            Ok(())
        },
        ResolvedStmtKind::FieldAssignment { target, value, .. } => {
            let t = match assignment_term(ctx, target, value, "Type mismatch in conditional field assignment") {
                Ok(b) => b,
                Err(e) => { return Err(e); },
            };
            ctx.assert_term(&bool_implies(&actual, &t));
            Ok(())
        },
        ResolvedStmtKind::If { condition, then_branch, else_branch, .. } => {
            let inner = match condition_term(ctx, condition, "Nested if condition must be boolean") {
                Ok(b) => b,
                Err(e) => { return Err(e); },
            };
            let then_condition = bool_and(&actual, &inner);
            match process_conditional_list(ctx, then_branch, &then_condition, false) {
                Ok(()) => {},
                Err(e) => { return Err(e); },
            }
            match else_branch {
                None => Ok(()),
                Some(es) => {
                    let else_condition = bool_and(&actual, &bool_not(&inner));
                    process_conditional_list(ctx, es, &else_condition, false)
                },
            }
        },
        ResolvedStmtKind::Block { statements, .. } => process_conditional_list(ctx, statements, c, negate),
        _ => {
            let mut message = String::from_str("Statement type not supported in if-statement branches: ");
            append_str(&mut message, stmt_kind_label(&s.kind));
            Err(SolverError::UnsupportedStatement(message))
        },
    }
}

/// [`process_conditional_stmt`] on each of `ss` in order, stopping at the first error.
fn process_conditional_list<'src>(ctx: &mut SolverContext<'src>, ss: &'src Vec<ResolvedStmt>, c: &BoolTerm, negate: bool)
    -> (r: Result<(), SolverError>)
    requires
        list_fits(solve_model(*old(ctx)), ss@, 0),
    ensures
        solve_model(*final(ctx)) == solve_model(*old(ctx)),
        final(ctx).struct_table() == old(ctx).struct_table(),
        (final(ctx).asserted(), stmt_outcome(r)) == cond_list_spec(solve_model(*old(ctx)), old(ctx).asserted(), ss@, 0, c.model(), negate),
    decreases ss@, 0nat,
{
    let ghost m = solve_model(*ctx);
    let ghost log0 = ctx.asserted();
    let mut i: usize = 0;
    while i < ss.len()
        invariant
            i <= ss@.len(),
            m == solve_model(*old(ctx)),
            log0 == old(ctx).asserted(),
            solve_model(*ctx) == m,
            ctx.struct_table() == old(ctx).struct_table(),
            list_fits(m, ss@, i as int),
            cond_list_spec(m, log0, ss@, 0, c.model(), negate) == cond_list_spec(m, ctx.asserted(), ss@, i as int, c.model(), negate),
        decreases ss.len() - i,
    {
        assert(decreases_to!(ss@ => ss@[i as int]));
        match process_conditional_stmt(ctx, &ss[i], c, negate) {
            Ok(()) => {},
            Err(e) => { return Err(e); },
        }
        i = i + 1;
    }
    Ok(())
}

/// Adds the constraints of the statement `s` to the solver (see [`stmt_spec`]).
pub fn solve_stmt<'src>(ctx: &mut SolverContext<'src>, s: &'src ResolvedStmt) -> (r: Result<(), SolverError>)
    requires
        stmt_fits(solve_model(*old(ctx)), *s),
    ensures
        solve_model(*final(ctx)) == solve_model(*old(ctx)),
        final(ctx).struct_table() == old(ctx).struct_table(),
        (final(ctx).asserted(), stmt_outcome(r)) == stmt_spec(solve_model(*old(ctx)), old(ctx).asserted(), *s),
    decreases s, 1nat,
{
    match &s.kind {
        ResolvedStmtKind::Expression { expr, .. } => {
            let t = match solve_expr(ctx, expr) {
                Ok(Z3Ast::Bool(b)) => b,
                Ok(_) => {
                    return Err(SolverError::UnsupportedStatement(
                        String::from_str("Expression statement must evaluate to boolean")));
                },
                Err(e) => { return Err(e); },
            };
            ctx.assert_term(&t);
            Ok(())
        },
        ResolvedStmtKind::Assignment { target, value, .. } => {
            let t = match assignment_term(ctx, target, value, "Type mismatch in assignment") {
                Ok(b) => b,
                Err(e) => { return Err(e); },
            };
            ctx.assert_term(&t);
            Ok(())
        },
        ResolvedStmtKind::If { condition, then_branch, else_branch, .. } => {
            let c = match condition_term(ctx, condition, "If condition must be boolean") {
                Ok(b) => b,
                Err(e) => { return Err(e); },
            };
            match process_conditional_list(ctx, then_branch, &c, false) {
                Ok(()) => {},
                Err(e) => { return Err(e); },
            }
            match else_branch {
                None => Ok(()),
                Some(es) => process_conditional_list(ctx, es, &c, true),
            }
        },
        ResolvedStmtKind::Block { statements, .. } => solve_stmt_list(ctx, statements),
        ResolvedStmtKind::With { body, .. } => solve_stmt_list(ctx, body),
        ResolvedStmtKind::For { .. } => Err(SolverError::UnsupportedExpression(
            String::from_str("For loop iterator must be a range expression"))),
        ResolvedStmtKind::StructDef { .. } | ResolvedStmtKind::FunctionDef { .. } => Ok(()),
        _ => Err(SolverError::UnsupportedStatement(String::from_str(stmt_kind_label(&s.kind)))),
    }
}

/// [`solve_stmt`] on each of `ss` in order, stopping at the first error.
pub fn solve_stmt_list<'src>(ctx: &mut SolverContext<'src>, ss: &'src Vec<ResolvedStmt>) -> (r: Result<(), SolverError>)
    requires
        list_fits(solve_model(*old(ctx)), ss@, 0),
    ensures
        solve_model(*final(ctx)) == solve_model(*old(ctx)),
        final(ctx).struct_table() == old(ctx).struct_table(),
        (final(ctx).asserted(), stmt_outcome(r)) == stmt_list_spec(solve_model(*old(ctx)), old(ctx).asserted(), ss@, 0),
    decreases ss@, 0nat,
{
    let ghost m = solve_model(*ctx);
    let ghost log0 = ctx.asserted();
    let mut i: usize = 0;
    while i < ss.len()
        invariant
            i <= ss@.len(),
            m == solve_model(*old(ctx)),
            log0 == old(ctx).asserted(),
            solve_model(*ctx) == m,
            ctx.struct_table() == old(ctx).struct_table(),
            list_fits(m, ss@, i as int),
            stmt_list_spec(m, log0, ss@, 0) == stmt_list_spec(m, ctx.asserted(), ss@, i as int),
        decreases ss.len() - i,
    {
        assert(decreases_to!(ss@ => ss@[i as int]));
        match solve_stmt(ctx, &ss[i]) {
            Ok(()) => {},
            Err(e) => { return Err(e); },
        }
        i = i + 1;
    }
    Ok(())
}

/// A `let` can be declared: its name holds no NUL character, its type is in the
/// struct table with a bounded depth, and its initializer can be solved.
pub open spec fn let_ready(table: StructTable, s: ResolvedStmt) -> bool {
    match s.kind {
        ResolvedStmtKind::Let { var_def, .. } => {
            &&& !var_def.name@.contains('\0')
            &&& var_def.var_type matches Some(t) ==> type_in_table(table, t) && exists|n: nat| bounded(table, t, n)
            &&& var_def.init matches Some(i) ==> forall|m: SolveModel| #[trigger] init_fits(m, i)
        },
        _ => true,
    }
}

/// No statement of `ss` is a `let`.
pub open spec fn no_lets(ss: Seq<ResolvedStmt>) -> bool {
    forall|j: int| 0 <= j < ss.len() ==> !(#[trigger] ss[j].kind is Let)
}

/// The statements of a program in order, stopping at the first error: a `let`
/// declares its variable (see [`solve_variable_by_kind`]), another statement adds
/// its constraints (see [`solve_stmt`]).
pub fn solve_program<'src>(ctx: &mut SolverContext<'src>, ss: &'src Vec<ResolvedStmt>) -> (r: Result<(), SolverError>)
    requires
        table_wf(old(ctx).struct_table()),
        table_names_ok(old(ctx).struct_table()),
        forall|m: SolveModel, i: int| 0 <= i < ss@.len() ==> #[trigger] stmt_fits(m, ss@[i]),
        forall|i: int| 0 <= i < ss@.len() ==> #[trigger] let_ready(old(ctx).struct_table(), ss@[i]),
    ensures
        final(ctx).struct_table() == old(ctx).struct_table(),
        ss@.len() == 0 ==> r is Ok && final(ctx).asserted() == old(ctx).asserted(),
        no_lets(ss@) ==> solve_model(*final(ctx)) == solve_model(*old(ctx))
            && (final(ctx).asserted(), stmt_outcome(r)) == stmt_list_spec(solve_model(*old(ctx)), old(ctx).asserted(), ss@, 0),
{
    let ghost m0 = solve_model(*ctx);
    let ghost log0 = ctx.asserted();
    let mut i: usize = 0;
    while i < ss.len()
        invariant
            i <= ss@.len(),
            ctx.struct_table() == old(ctx).struct_table(),
            table_wf(old(ctx).struct_table()),
            table_names_ok(old(ctx).struct_table()),
            forall|m: SolveModel, j: int| 0 <= j < ss@.len() ==> #[trigger] stmt_fits(m, ss@[j]),
            forall|j: int| 0 <= j < ss@.len() ==> #[trigger] let_ready(old(ctx).struct_table(), ss@[j]),
            i == 0 ==> *ctx == *old(ctx),
            m0 == solve_model(*old(ctx)),
            log0 == old(ctx).asserted(),
            no_lets(ss@) ==> solve_model(*ctx) == m0
                && stmt_list_spec(m0, log0, ss@, 0) == stmt_list_spec(m0, ctx.asserted(), ss@, i as int),
        decreases ss.len() - i,
    {
        assert(let_ready(old(ctx).struct_table(), ss@[i as int]));
        assert(stmt_fits(solve_model(*ctx), ss@[i as int]));
        let res = match &ss[i].kind {
            ResolvedStmtKind::Let { var_def, .. } => solve_variable_by_kind(ctx, var_def),
            _ => solve_stmt(ctx, &ss[i]),
        };
        match res {
            Ok(()) => {},
            Err(e) => { return Err(e); },
        }
        i = i + 1;
    }
    Ok(())
}

impl<'src> SolverContext<'src> {
    /// Solves `statements` iteratively (see the decisions in `solve_loop`): each
    /// iteration forgets the deferred constraints, declares the `let` variables and
    /// adds the other statements' constraints (see [`solve_program`]) and checks the
    /// solver; a satisfiable check records its solution and ends the
    /// solve when nothing is deferred (complete) or when constraints stay deferred
    /// without progress (partial). Whether the constraints are satisfiable is the
    /// solver's answer.
    pub fn solve(&mut self, statements: &'src Vec<ResolvedStmt>) -> (r: Result<SolveResult<'src>, SolverError>)
        requires
            table_wf(old(self).struct_table()),
            table_names_ok(old(self).struct_table()),
            forall|m: SolveModel, i: int| 0 <= i < statements@.len() ==> #[trigger] stmt_fits(m, statements@[i]),
            forall|i: int| 0 <= i < statements@.len() ==> #[trigger] let_ready(old(self).struct_table(), statements@[i]),
        ensures
            r matches Ok(SolveResult::Complete { iterations, .. }) ==> 1 <= iterations <= MAX_ITERATIONS
                && final(self).deferred().len() == 0,
            r matches Ok(SolveResult::Partial { iterations, deferred, .. }) ==> 1 <= iterations <= MAX_ITERATIONS
                && deferred@.len() == final(self).deferred().len() && deferred@.len() > 0,
    {
        let mut state = SolveState::new();
        loop
            invariant
                state.iteration <= MAX_ITERATIONS,
                self.struct_table() == old(self).struct_table(),
                table_wf(old(self).struct_table()),
                table_names_ok(old(self).struct_table()),
                forall|m: SolveModel, i: int| 0 <= i < statements@.len() ==> #[trigger] stmt_fits(m, statements@[i]),
                forall|i: int| 0 <= i < statements@.len() ==> #[trigger] let_ready(old(self).struct_table(), statements@[i]),
            decreases MAX_ITERATIONS - state.iteration,
        {
            state = match start_iteration(state) {
                Ok(s) => s,
                Err(e) => { return Err(e); },
            };
            let deferred_before = self.take_deferred_count();
            match solve_program(self, statements) {
                Ok(()) => {},
                Err(e) => { return Err(e); },
            }
            let outcome = self.check();
            match outcome {
                CheckOutcome::Sat => {},
                _ => {
                    return match solve_step(state, outcome, 0, deferred_before, 0) {
                        Err(e) => Err(e),
                        Ok(_) => Err(SolverError::Unknown),
                    };
                },
            }
            let solution = match self.extract_solution() {
                Ok(s) => s,
                Err(e) => { return Err(e); },
            };
            let deferred = self.deferred_descriptions();
            let (next, action) = match solve_step(state, CheckOutcome::Sat, solution.resolved_count(), deferred_before, deferred.len()) {
                Ok(x) => x,
                Err(e) => { return Err(e); },
            };
            state = next;
            self.set_solution(solution.duplicate());
            match action {
                StepAction::Complete => {
                    return Ok(SolveResult::Complete { solution, iterations: state.iteration });
                },
                StepAction::NoProgress => {
                    return Ok(SolveResult::Partial { solution, deferred, iterations: state.iteration });
                },
                StepAction::Continue => {},
            }
        }
    }
}

// ============================================================================
// Declaring a variable
// ============================================================================

/// The path that a `let` whose initializer is a reference `&target` makes an alias
/// of; `None` for another initializer, or a target that names no variable part.
pub open spec fn ref_target(init: Option<ResolvedExpr>, sol: Option<Seq<(Seq<ComponentView>, crate::solver::context::Value)>>) -> Option<Seq<ComponentView>> {
    match init {
        Some(i) => match i.kind {
            ResolvedExprKind::Ref { inner } => match var_path(*inner, sol) {
                Ok(t) => Some(t),
                Err(_) => None,
            },
            _ => None,
        },
        None => None,
    }
}

/// The equalities of the parts under `p` and the fields `fs[i..]` of a struct literal
/// that initializes them, asserted one by one.
pub open spec fn lit_init_spec(m: SolveModel, log: Seq<TermModel>, p: Seq<ComponentView>, fs: Seq<ResolvedStructLitField>, i: int) -> StmtOutcome
    decreases fs.len() - i,
{
    if i < 0 || i >= fs.len() {
        (log, None)
    } else {
        match fs[i] {
            ResolvedStructLitField::ComputedProperty { .. } =>
                (log, Some(SolverErrorModel::UnsupportedExpression("Computed properties in struct literals are not supported"@))),
            ResolvedStructLitField::Field { name, value, .. } => match field_eq_term(m, p.push(ComponentView::Field(name@)),
                solve_spec(m, value), "Type mismatch in field '"@ + name@ + "' initialization"@) {
                Err(x) => (log, Some(x)),
                Ok(t) => lit_init_spec(m, log.push(t), p, fs, i + 1),
            },
        }
    }
}

/// What initializing the variable at `p` with `init` asserts: a struct literal field
/// by field, another value as one equality.
pub open spec fn init_spec(m: SolveModel, log: Seq<TermModel>, p: Seq<ComponentView>, init: ResolvedExpr) -> StmtOutcome {
    match init.kind {
        ResolvedExprKind::StructLit { fields, .. } => lit_init_spec(m, log, p, fields@, 0),
        _ => match field_eq_term(m, p, solve_spec(m, init), "Type mismatch in initialization"@) {
            Err(x) => (log, Some(x)),
            Ok(t) => (log.push(t), None),
        },
    }
}

/// Solving an initializer evaluates no index with a machine overflow.
pub open spec fn init_fits(m: SolveModel, init: ResolvedExpr) -> bool {
    match init.kind {
        ResolvedExprKind::StructLit { fields, .. } => lit_fields_fit(m, fields@, 0),
        ResolvedExprKind::Ref { inner } => var_path_fits(*inner, m.sol) && solve_fits(m, init),
        _ => solve_fits(m, init),
    }
}

/// Asserts what initializing the variable at `path` with `init` owes (see [`init_spec`]).
#[verifier::loop_isolation(false)]
fn solve_init<'src>(ctx: &mut SolverContext<'src>, path: &VariablePath<'src>, init: &'src ResolvedExpr) -> (r: Result<(), SolverError>)
    requires
        init_fits(solve_model(*old(ctx)), *init),
    ensures
        solve_model(*final(ctx)) == solve_model(*old(ctx)),
        final(ctx).struct_table() == old(ctx).struct_table(),
        final(ctx).solution() == old(ctx).solution(),
        (final(ctx).asserted(), stmt_outcome(r)) == init_spec(solve_model(*old(ctx)), old(ctx).asserted(), path_view(path.components@), *init),
{
    let ghost m = solve_model(*ctx);
    let ghost p = path_view(path.components@);
    match &init.kind {
        ResolvedExprKind::StructLit { fields, .. } => {
            let ghost log0 = ctx.asserted();
            assert(init_spec(m, log0, p, *init) == lit_init_spec(m, log0, p, fields@, 0));
            let mut i: usize = 0;
            while i < fields.len()
                invariant
                    i <= fields@.len(),
                    m == solve_model(*old(ctx)),
                    log0 == old(ctx).asserted(),
                    solve_model(*ctx) == m,
                    ctx.solution() == old(ctx).solution(),
                    ctx.struct_table() == old(ctx).struct_table(),
                    p == path_view(path.components@),
                    lit_fields_fit(m, fields@, i as int),
                    lit_init_spec(m, log0, p, fields@, 0) == lit_init_spec(m, ctx.asserted(), p, fields@, i as int),
                decreases fields.len() - i,
            {
                match &fields[i] {
                    ResolvedStructLitField::ComputedProperty { .. } => {
                        assert(lit_init_spec(m, ctx.asserted(), p, fields@, i as int) == (ctx.asserted(), Some(
                            SolverErrorModel::UnsupportedExpression("Computed properties in struct literals are not supported"@))));
                        return Err(type_error("Computed properties in struct literals are not supported"));
                    },
                    ResolvedStructLitField::Field { name, value, .. } => {
                        let field_path = path.with_field(name.as_str());
                        assert(path_view(field_path.components@) =~= p.push(ComponentView::Field(name@)));
                        let mut msg = String::from_str("Type mismatch in field '");
                        append_str(&mut msg, name.as_str());
                        append_str(&mut msg, "' initialization");
                        let b = match field_equality(ctx, &field_path, value, msg) {
                            Ok(b) => b,
                            Err(e) => {
                                assert(lit_init_spec(m, ctx.asserted(), p, fields@, i as int) == (ctx.asserted(), Some(e@)));
                                return Err(e);
                            },
                        };
                        ctx.assert_term(&b);
                    },
                }
                i = i + 1;
            }
            Ok(())
        },
        _ => {
            let b = match field_equality(ctx, path, init, String::from_str("Type mismatch in initialization")) {
                Ok(b) => b,
                Err(e) => { return Err(e); },
            };
            ctx.assert_term(&b);
            Ok(())
        },
    }
}

/// Declares the variable of a `let`: an initializer `&target` makes it an alias of
/// the target; otherwise a variable of its type is declared and, with an initializer,
/// the initialization is asserted (see [`init_spec`]).
pub fn solve_variable_by_kind<'src>(ctx: &mut SolverContext<'src>, var_def: &'src VarDefinition) -> (r: Result<(), SolverError>)
    requires
        table_wf(old(ctx).struct_table()),
        table_names_ok(old(ctx).struct_table()),
        !var_def.name@.contains('\0'),
        var_def.var_type matches Some(t) ==> type_in_table(old(ctx).struct_table(), t)
            && exists|n: nat| bounded(old(ctx).struct_table(), t, n),
        var_def.init matches Some(i) ==> forall|m: SolveModel| #[trigger] init_fits(m, i),
    ensures
        final(ctx).solution() == old(ctx).solution(),
        final(ctx).struct_table() == old(ctx).struct_table(),
        match ref_target(var_def.init, solve_model(*old(ctx)).sol) {
            Some(t) => r is Ok && final(ctx).vars() == old(ctx).vars() && final(ctx).asserted() == old(ctx).asserted()
                && final(ctx).aliases() == key_insert(old(ctx).aliases(), seq![ComponentView::Field(var_def.name@)], t),
            None => final(ctx).aliases() == old(ctx).aliases() && match var_def.var_type {
                None => r matches Err(e) && e@ == SolverErrorModel::ContextError("Variable type not resolved"@)
                    && final(ctx).vars() == old(ctx).vars() && final(ctx).asserted() == old(ctx).asserted(),
                Some(t) => match tree_error(old(ctx).struct_table(), t, flatten_depth(old(ctx).struct_table(), t)) {
                    Some(k) => r matches Err(e) && e@ == SolverErrorModel::UnsupportedType(k)
                        && final(ctx).vars() == old(ctx).vars() && final(ctx).asserted() == old(ctx).asserted(),
                    None => (exists|nm: NodeModel| {
                        &&& tree_of(old(ctx).struct_table(), t, nm, flatten_depth(old(ctx).struct_table(), t))
                        &&& final(ctx).vars() == key_insert(old(ctx).vars(), var_def.name@, nm)
                    }) && match var_def.init {
                        None => r is Ok && final(ctx).asserted() == old(ctx).asserted(),
                        Some(i) => (final(ctx).asserted(), stmt_outcome(r))
                            == init_spec(solve_model(*final(ctx)), old(ctx).asserted(), seq![ComponentView::Field(var_def.name@)], i),
                    },
                },
            },
        },
{
    let name = var_def.name.as_str();
    let path = VariablePath::from_name(name);
    assert(path_view(path.components@) =~= seq![ComponentView::Field(var_def.name@)]);
    assert(field_names_ok(path.components@)) by {
        assert(path.components@[0] == PathComponent::Field(name));
    }
    if let Some(init) = &var_def.init {
        if let ResolvedExprKind::Ref { inner } = &init.kind {
            assert(init_fits(solve_model(*ctx), *init));
            match ctx.build_variable_path(inner) {
                Ok(target) => {
                    ctx.register_alias(path, target);
                    return Ok(());
                },
                Err(_) => {},
            }
        }
    }
    let ty = match &var_def.var_type {
        None => {
            return Err(SolverError::ContextError(String::from_str("Variable type not resolved")));
        },
        Some(t) => t,
    };
    match ctx.declare_variable_at_path(&path, ty) {
        Ok(()) => {},
        Err(e) => { return Err(e); },
    }
    match &var_def.init {
        None => Ok(()),
        Some(init) => solve_init(ctx, &path, init),
    }
}

} // verus!
