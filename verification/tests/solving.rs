use cad_solver::hir::{VarDefinition, FieldDefinition, StructDefinition, ResolvedExpr, ResolvedExprKind, ResolvedStmt, ResolvedStmtKind, ResolvedStructLitField, ResolvedType, StructTable};
use cad_solver::lexer::{LineColumn, Span};
use cad_solver::solver::context::{int_value_for, SolverContext, SolverError, Value};
use cad_solver::solver::expr_solver::solve_expr;
use cad_solver::solver::solve_loop::{solve_step, start_iteration, SolveResult, SolveState, StepAction, MAX_ITERATIONS};
use cad_solver::solver::stmt_solver::{solve_program, solve_stmt, solve_stmt_list, solve_variable_by_kind};
use cad_solver::solver::z3_api::CheckOutcome;
use cad_solver::solver::z3_bridge::Z3Ast;
use cad_solver::solver::VariablePath;

fn sp() -> Span {
    Span { start: LineColumn { line: 1, column: 1 }, lines: 0, end_column: 10 }
}

fn i32_ty() -> ResolvedType {
    ResolvedType::I32 { span: sp() }
}

fn f64_ty() -> ResolvedType {
    ResolvedType::F64 { span: sp() }
}

fn bool_ty() -> ResolvedType {
    ResolvedType::Bool { span: sp() }
}

fn e(kind: ResolvedExprKind, ty: ResolvedType) -> ResolvedExpr {
    ResolvedExpr { span: sp(), kind, ty }
}

fn int_lit(v: i64) -> ResolvedExpr {
    e(ResolvedExprKind::IntLit { value: v }, i32_ty())
}

fn real_lit(scaled: i64) -> ResolvedExpr {
    e(ResolvedExprKind::FloatLit { scaled }, f64_ty())
}

fn boolean(v: bool) -> ResolvedExpr {
    e(ResolvedExprKind::BoolLit { value: v }, bool_ty())
}

fn var(name: &str) -> ResolvedExpr {
    e(ResolvedExprKind::Var { name: name.to_string() }, i32_ty())
}

fn b(x: ResolvedExpr) -> Box<ResolvedExpr> {
    Box::new(x)
}

fn add(l: ResolvedExpr, r: ResolvedExpr) -> ResolvedExpr {
    e(ResolvedExprKind::Add { lhs: b(l), rhs: b(r) }, i32_ty())
}

fn eq(l: ResolvedExpr, r: ResolvedExpr) -> ResolvedExpr {
    e(ResolvedExprKind::Eq { lhs: b(l), rhs: b(r) }, bool_ty())
}

fn gt(l: ResolvedExpr, r: ResolvedExpr) -> ResolvedExpr {
    e(ResolvedExprKind::Gt { lhs: b(l), rhs: b(r) }, bool_ty())
}

fn stmt(kind: ResolvedStmtKind) -> ResolvedStmt {
    ResolvedStmt { span: sp(), kind }
}

fn constraint(x: ResolvedExpr) -> ResolvedStmt {
    stmt(ResolvedStmtKind::Expression { expr: x, span: sp() })
}

fn context(table: &StructTable) -> SolverContext<'_> {
    let z3_solver = z3::Solver::new();
    let z3_ctx = z3_solver.get_context().clone();
    SolverContext::new(z3_ctx, z3_solver, table)
}

fn int_value(ctx: &SolverContext, name: &str) -> Option<Value> {
    assert_eq!(ctx.z3_solver.raw().check(), z3::SatResult::Sat);
    let solution = ctx.extract_solution().unwrap();
    solution.assignments.iter().find(|(p, _)| p.to_z3_name() == name).map(|(_, v)| *v)
}

fn message(r: Result<Z3Ast, SolverError>) -> String {
    match r {
        Err(SolverError::UnsupportedExpression(m)) => m,
        Err(other) => format!("other error {:?}", other),
        Ok(_) => "ok".to_string(),
    }
}

#[test]
fn expression_statements_constrain_the_variables() {
    let table = StructTable { defs: vec![] };
    let (ti, tf) = (i32_ty(), f64_ty());
    let stmts = vec![
        constraint(eq(add(var("x"), int_lit(1)), int_lit(5))),
        constraint(gt(e(ResolvedExprKind::Var { name: "y".to_string() }, f64_ty()), var("x"))),
    ];
    let mut ctx = context(&table);
    ctx.declare_variable_at_path(&VariablePath::from_name("x"), &ti).unwrap();
    ctx.declare_variable_at_path(&VariablePath::from_name("y"), &tf).unwrap();
    solve_stmt_list(&mut ctx, &stmts).unwrap();
    assert_eq!(int_value(&ctx, "x"), Some(Value::Int(4)));
}

#[test]
fn if_statement_guards_its_branches() {
    let table = StructTable { defs: vec![] };
    let ti = i32_ty();
    let neg = e(ResolvedExprKind::Neg { inner: b(int_lit(10)) }, i32_ty());
    let stmts = vec![
        constraint(eq(var("x"), int_lit(3))),
        stmt(ResolvedStmtKind::If {
            condition: gt(var("x"), int_lit(0)),
            then_branch: vec![constraint(eq(var("y"), int_lit(10)))],
            else_branch: Some(vec![constraint(eq(var("y"), neg))]),
            span: sp(),
        }),
    ];
    let mut ctx = context(&table);
    ctx.declare_variable_at_path(&VariablePath::from_name("x"), &ti).unwrap();
    ctx.declare_variable_at_path(&VariablePath::from_name("y"), &ti).unwrap();
    solve_stmt_list(&mut ctx, &stmts).unwrap();
    assert_eq!(int_value(&ctx, "y"), Some(Value::Int(10)));
}

#[test]
fn assignment_asserts_an_equality() {
    let table = StructTable { defs: vec![] };
    let ti = i32_ty();
    let s = stmt(ResolvedStmtKind::Assignment { target: var("z"), value: add(int_lit(2), int_lit(5)), span: sp() });
    let mut ctx = context(&table);
    ctx.declare_variable_at_path(&VariablePath::from_name("z"), &ti).unwrap();
    solve_stmt(&mut ctx, &s).unwrap();
    assert_eq!(int_value(&ctx, "z"), Some(Value::Int(7)));
}

#[test]
fn statement_errors() {
    let table = StructTable { defs: vec![] };
    let ti = i32_ty();
    let not_bool = constraint(add(int_lit(1), int_lit(2)));
    let for_loop = stmt(ResolvedStmtKind::Block {
        statements: vec![stmt(ResolvedStmtKind::Return { value: None, span: sp() })],
        span: sp(),
    });
    let bad_if = stmt(ResolvedStmtKind::If { condition: int_lit(1), then_branch: vec![], else_branch: None, span: sp() });
    let mut ctx = context(&table);
    ctx.declare_variable_at_path(&VariablePath::from_name("x"), &ti).unwrap();
    match solve_stmt(&mut ctx, &not_bool) {
        Err(SolverError::UnsupportedStatement(m)) => assert_eq!(m, "Expression statement must evaluate to boolean"),
        other => panic!("unexpected {:?}", other),
    }
    match solve_stmt(&mut ctx, &for_loop) {
        Err(SolverError::UnsupportedStatement(m)) => assert_eq!(m, "Return"),
        other => panic!("unexpected {:?}", other),
    }
    match solve_stmt(&mut ctx, &bad_if) {
        Err(SolverError::UnsupportedExpression(m)) => assert_eq!(m, "If condition must be boolean"),
        other => panic!("unexpected {:?}", other),
    }
}

#[test]
fn expression_terms_and_their_errors() {
    let table = StructTable { defs: vec![] };
    let (ti, tb) = (i32_ty(), bool_ty());
    let sum = add(var("x"), real_lit(1500000));
    let pow = e(ResolvedExprKind::Pow { lhs: b(int_lit(2)), rhs: b(int_lit(3)) }, f64_ty());
    let bad_add = add(int_lit(1), boolean(true));
    let bad_mod = e(ResolvedExprKind::Mod { lhs: b(real_lit(1000000)), rhs: b(int_lit(2)) }, i32_ty());
    let bad_neg = e(ResolvedExprKind::Neg { inner: b(boolean(true)) }, bool_ty());
    let bad_and = e(ResolvedExprKind::And { lhs: b(int_lit(1)), rhs: b(boolean(true)) }, bool_ty());
    let missing = var("nope");
    let lit = e(
        ResolvedExprKind::StructLit {
            name: "P".to_string(),
            fields: vec![ResolvedStructLitField::Field { name: "a".to_string(), value: int_lit(3), span: sp() }],
        },
        i32_ty(),
    );
    let field_a = e(ResolvedExprKind::FieldAccess { receiver: b(lit), field_name: "a".to_string() }, i32_ty());
    let lit2 = e(ResolvedExprKind::StructLit { name: "P".to_string(), fields: vec![] }, i32_ty());
    let field_b = e(ResolvedExprKind::FieldAccess { receiver: b(lit2), field_name: "b".to_string() }, i32_ty());
    let flag_and = e(ResolvedExprKind::And { lhs: b(var("flag")), rhs: b(boolean(true)) }, bool_ty());
    let mut ctx = context(&table);
    ctx.declare_variable_at_path(&VariablePath::from_name("x"), &ti).unwrap();
    ctx.declare_variable_at_path(&VariablePath::from_name("flag"), &tb).unwrap();
    assert!(matches!(solve_expr(&ctx, &sum), Ok(Z3Ast::Real(_))));
    assert!(matches!(solve_expr(&ctx, &pow), Ok(Z3Ast::Real(_))));
    assert!(matches!(solve_expr(&ctx, &field_a), Ok(Z3Ast::Int(_))));
    assert!(matches!(solve_expr(&ctx, &flag_and), Ok(Z3Ast::Bool(_))));
    assert_eq!(message(solve_expr(&ctx, &bad_add)), "Invalid types for addition");
    assert_eq!(message(solve_expr(&ctx, &bad_mod)), "Modulo operation only supported for integer types");
    assert_eq!(message(solve_expr(&ctx, &bad_neg)), "Cannot negate boolean expression");
    assert_eq!(message(solve_expr(&ctx, &bad_and)), "Invalid types for logical AND");
    assert_eq!(message(solve_expr(&ctx, &field_b)), "Field 'b' not found in struct literal");
    match solve_expr(&ctx, &missing) {
        Err(SolverError::UndefinedVariable(name)) => assert_eq!(name, "nope"),
        other => panic!("unexpected {:?}", other.err()),
    }
}

#[test]
fn constants_evaluate_with_a_substituted_variable() {
    let table = StructTable { defs: vec![] };
    let ctx = context(&table);
    let mul = e(ResolvedExprKind::Mul { lhs: b(int_lit(2)), rhs: b(int_lit(3)) }, i32_ty());
    let expr = add(var("i"), mul);
    assert_eq!(ctx.evaluate_const_expr_with_substitution(&expr, "i", 4).unwrap(), 10);
    let paren = e(ResolvedExprKind::Paren { inner: b(var("i")) }, i32_ty());
    assert_eq!(ctx.evaluate_const_expr_with_substitution(&paren, "i", -3).unwrap(), -3);
    let pow = e(ResolvedExprKind::Pow { lhs: b(int_lit(2)), rhs: b(int_lit(10)) }, i32_ty());
    assert_eq!(ctx.evaluate_const_expr_with_substitution(&pow, "i", 0).unwrap(), 1024);
    let modulo = e(ResolvedExprKind::Mod { lhs: b(int_lit(-7)), rhs: b(int_lit(3)) }, i32_ty());
    assert_eq!(ctx.evaluate_const_expr_with_substitution(&modulo, "i", 0).unwrap(), -1);
    match ctx.evaluate_const_expr_with_substitution(&var("n"), "i", 0) {
        Err(SolverError::UndefinedVariable(name)) => assert_eq!(name, "n"),
        other => panic!("unexpected {:?}", other),
    }
    let neg_pow = e(ResolvedExprKind::Pow { lhs: b(int_lit(2)), rhs: b(int_lit(-1)) }, i32_ty());
    match ctx.evaluate_const_expr_with_substitution(&neg_pow, "i", 0) {
        Err(SolverError::UnsupportedExpression(m)) => assert_eq!(m, "Negative exponent not supported for integer power"),
        other => panic!("unexpected {:?}", other),
    }
    let big_pow = e(ResolvedExprKind::Pow { lhs: b(int_lit(10)), rhs: b(int_lit(30)) }, i32_ty());
    match ctx.evaluate_const_expr_with_substitution(&big_pow, "i", 0) {
        Err(SolverError::UnsupportedExpression(m)) => assert_eq!(m, "Power operation overflow"),
        other => panic!("unexpected {:?}", other),
    }
    let div0 = e(ResolvedExprKind::Div { lhs: b(var("i")), rhs: b(int_lit(0)) }, i32_ty());
    match ctx.evaluate_const_expr_with_substitution(&div0, "i", 5) {
        Err(SolverError::UnsupportedExpression(m)) => assert_eq!(m, "Division by zero"),
        other => panic!("unexpected {:?}", other),
    }
}

#[test]
fn solve_loop_decisions() {
    let s0 = SolveState::new();
    let s1 = start_iteration(s0).unwrap();
    assert_eq!(s1.iteration, 1);
    let full = SolveState { iteration: MAX_ITERATIONS, previous_solved_count: 0 };
    match start_iteration(full) {
        Err(SolverError::ContextError(m)) => assert_eq!(m, "Maximum iterations (100) exceeded"),
        other => panic!("unexpected {:?}", other),
    }
    let (next, action) = solve_step(s1, CheckOutcome::Sat, 3, 0, 0).unwrap();
    assert_eq!(next.previous_solved_count, 3);
    assert!(matches!(action, StepAction::Complete));
    let stuck = SolveState { iteration: 2, previous_solved_count: 3 };
    assert!(matches!(solve_step(stuck, CheckOutcome::Sat, 3, 1, 1).unwrap().1, StepAction::NoProgress));
    assert!(matches!(solve_step(stuck, CheckOutcome::Sat, 4, 1, 1).unwrap().1, StepAction::Continue));
    assert!(matches!(solve_step(stuck, CheckOutcome::Sat, 3, 0, 1).unwrap().1, StepAction::Continue));
    assert!(matches!(solve_step(stuck, CheckOutcome::Unsat, 3, 0, 1), Err(SolverError::Unsatisfiable)));
    assert!(matches!(solve_step(stuck, CheckOutcome::Unknown, 3, 0, 1), Err(SolverError::Unknown)));
}

#[test]
fn solve_runs_until_the_constraints_are_resolved() {
    let table = StructTable { defs: vec![] };
    let ti = i32_ty();
    let stmts = vec![constraint(eq(var("x"), int_lit(3)))];
    let mut ctx = context(&table);
    ctx.declare_variable_at_path(&VariablePath::from_name("x"), &ti).unwrap();
    match ctx.solve(&stmts) {
        Ok(SolveResult::Complete { solution, iterations }) => {
            assert_eq!(iterations, 1);
            let x = solution.assignments.iter().find(|(p, _)| p.to_z3_name() == "x").map(|(_, v)| *v);
            assert_eq!(x, Some(Value::Int(3)));
        }
        Ok(_) => panic!("partial solution"),
        Err(e) => panic!("unexpected {:?}", e),
    }
    assert!(ctx.get_current_solution().is_some());
}

#[test]
fn solve_reports_unsatisfiable_constraints() {
    let table = StructTable { defs: vec![] };
    let ti = i32_ty();
    let stmts = vec![constraint(eq(var("x"), int_lit(1))), constraint(eq(var("x"), int_lit(2)))];
    let mut ctx = context(&table);
    ctx.declare_variable_at_path(&VariablePath::from_name("x"), &ti).unwrap();
    assert!(matches!(ctx.solve(&stmts), Err(SolverError::Unsatisfiable)));
}

#[test]
fn integer_rune_results_are_clamped_to_i32() {
    assert_eq!(int_value_for(5, &i32_ty()), Some(Value::Int(5)));
    assert_eq!(int_value_for(3_000_000_000, &i32_ty()), Some(Value::Int(2147483647)));
    assert_eq!(int_value_for(-3_000_000_000, &i32_ty()), Some(Value::Int(-2147483648)));
    assert_eq!(int_value_for(5, &bool_ty()), None);
}

fn var_def(name: &str, ty: Option<ResolvedType>, init: Option<ResolvedExpr>) -> VarDefinition {
    VarDefinition { name: name.to_string(), name_span: sp(), var_type: ty, init, scope_level: 0, span: sp() }
}

fn let_stmt(name: &str, ty: Option<ResolvedType>, init: Option<ResolvedExpr>) -> ResolvedStmt {
    let init_copy = init.as_ref().map(|x| match &x.kind {
        ResolvedExprKind::IntLit { value } => int_lit(*value),
        _ => unreachable!("the programs here initialize with integer literals"),
    });
    stmt(ResolvedStmtKind::Let { var_def: var_def(name, ty, init), init: init_copy, span: sp() })
}

#[test]
fn let_declares_and_initializes_a_variable() {
    let table = StructTable { defs: vec![] };
    let x = var_def("x", Some(i32_ty()), Some(int_lit(4)));
    let free = var_def("y", Some(f64_ty()), None);
    let mut ctx = context(&table);
    solve_variable_by_kind(&mut ctx, &x).unwrap();
    solve_variable_by_kind(&mut ctx, &free).unwrap();
    assert!(ctx.get_variable(&VariablePath::from_name("y")).is_some());
    assert_eq!(int_value(&ctx, "x"), Some(Value::Int(4)));
}

#[test]
fn let_of_a_reference_makes_an_alias() {
    let table = StructTable { defs: vec![] };
    let x = var_def("x", Some(i32_ty()), None);
    let r = var_def("r", None, Some(e(ResolvedExprKind::Ref { inner: b(var("x")) }, i32_ty())));
    let fix = vec![constraint(eq(var("r"), int_lit(7)))];
    let mut ctx = context(&table);
    solve_variable_by_kind(&mut ctx, &x).unwrap();
    solve_variable_by_kind(&mut ctx, &r).unwrap();
    assert_eq!(ctx.resolve_alias(&VariablePath::from_name("r")).to_z3_name(), "x");
    solve_stmt_list(&mut ctx, &fix).unwrap();
    assert_eq!(int_value(&ctx, "x"), Some(Value::Int(7)));
}

#[test]
fn let_errors() {
    let table = StructTable { defs: vec![] };
    let untyped = var_def("u", None, Some(int_lit(1)));
    let mismatched = var_def("m", Some(bool_ty()), Some(int_lit(1)));
    let mut ctx = context(&table);
    match solve_variable_by_kind(&mut ctx, &untyped) {
        Err(SolverError::ContextError(m)) => assert_eq!(m, "Variable type not resolved"),
        other => panic!("unexpected {:?}", other),
    }
    match solve_variable_by_kind(&mut ctx, &mismatched) {
        Err(SolverError::UnsupportedExpression(m)) => assert_eq!(m, "Type mismatch in initialization"),
        other => panic!("unexpected {:?}", other),
    }
}

#[test]
fn a_program_declares_its_variables_and_is_solved() {
    let table = StructTable { defs: vec![] };
    let stmts = vec![
        let_stmt("a", Some(i32_ty()), Some(int_lit(2))),
        let_stmt("c", Some(i32_ty()), None),
        constraint(eq(var("c"), add(var("a"), int_lit(3)))),
    ];
    let mut ctx = context(&table);
    solve_program(&mut ctx, &stmts).unwrap();
    assert_eq!(int_value(&ctx, "c"), Some(Value::Int(5)));
    let mut again = context(&table);
    match again.solve(&stmts) {
        Ok(SolveResult::Complete { solution, .. }) => {
            let c = solution.assignments.iter().find(|(p, _)| p.to_z3_name() == "c").map(|(_, v)| *v);
            assert_eq!(c, Some(Value::Int(5)));
        }
        other => panic!("unexpected {:?}", other.map(|_| ())),
    }
}

#[test]
fn equality_with_a_struct_literal_is_field_wise() {
    let fdef = |n: &str, t: ResolvedType| FieldDefinition { name: n.to_string(), name_span: sp(), field_type: t, span: sp() };
    let table = StructTable {
        defs: vec![StructDefinition {
            name: "Point".to_string(),
            name_span: sp(),
            fields: vec![fdef("x", i32_ty()), fdef("y", f64_ty())],
            span: sp(),
        }],
    };
    let point = ResolvedType::UserDefined { name: "Point".to_string(), definition: 0, span: sp() };
    let lit_field = |n: &str, v: ResolvedExpr| ResolvedStructLitField::Field { name: n.to_string(), value: v, span: sp() };
    let lit = e(
        ResolvedExprKind::StructLit { name: "Point".to_string(), fields: vec![lit_field("x", int_lit(3)), lit_field("y", real_lit(1500000))] },
        i32_ty(),
    );
    let good = vec![constraint(eq(var("p"), lit))];
    let bad_lit = e(ResolvedExprKind::StructLit { name: "Point".to_string(), fields: vec![lit_field("x", boolean(true))] }, i32_ty());
    let bad = eq(var("p"), bad_lit);
    let computed = e(
        ResolvedExprKind::StructLit {
            name: "Point".to_string(),
            fields: vec![ResolvedStructLitField::ComputedProperty { name: "x".to_string(), value: int_lit(1), span: sp() }],
        },
        i32_ty(),
    );
    let with_computed = eq(var("p"), computed);
    let mut ctx = context(&table);
    ctx.declare_variable_at_path(&VariablePath::from_name("p"), &point).unwrap();
    assert_eq!(message(solve_expr(&ctx, &bad)), "Type mismatch in struct field equality for field 'x'");
    assert_eq!(message(solve_expr(&ctx, &with_computed)), "Computed properties in struct equality not supported");
    solve_stmt_list(&mut ctx, &good).unwrap();
    assert_eq!(int_value(&ctx, "p.x"), Some(Value::Int(3)));
}
