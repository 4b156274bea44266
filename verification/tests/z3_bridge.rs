use cad_solver::hir::{ResolvedExpr, ResolvedExprKind, ResolvedType};
use cad_solver::lexer::{LineColumn, Span};
use cad_solver::solver::constraint_extractor::{ConditionalConstraint, Constraint, ConstraintProblem, Variable};
use cad_solver::solver::z3_bridge::{Z3Ast, Z3Bridge, Z3BridgeError};

fn test_span() -> Span {
    Span { start: LineColumn { line: 1, column: 1 }, lines: 0, end_column: 10 }
}

fn int_ty() -> ResolvedType {
    ResolvedType::I32 { span: test_span() }
}

fn real_ty() -> ResolvedType {
    ResolvedType::F64 { span: test_span() }
}

fn bool_ty() -> ResolvedType {
    ResolvedType::Bool { span: test_span() }
}

fn make_expr(kind: ResolvedExprKind, ty: ResolvedType) -> ResolvedExpr {
    ResolvedExpr { span: test_span(), kind, ty }
}

fn int_lit(value: i64) -> ResolvedExpr {
    make_expr(ResolvedExprKind::IntLit { value }, int_ty())
}

/// A floating-point literal, held as its value times one million.
fn float(value: f64) -> ResolvedExpr {
    make_expr(ResolvedExprKind::FloatLit { scaled: (value * 1_000_000.0).round() as i64 }, real_ty())
}

fn boolean(value: bool) -> ResolvedExpr {
    make_expr(ResolvedExprKind::BoolLit { value }, bool_ty())
}

fn var(name: &str) -> ResolvedExpr {
    make_expr(ResolvedExprKind::Var { name: name.to_string() }, int_ty())
}

fn b(e: ResolvedExpr) -> Box<ResolvedExpr> {
    Box::new(e)
}

fn eq(l: ResolvedExpr, r: ResolvedExpr) -> ResolvedExpr {
    make_expr(ResolvedExprKind::Eq { lhs: b(l), rhs: b(r) }, bool_ty())
}

fn gt(l: ResolvedExpr, r: ResolvedExpr) -> ResolvedExpr {
    make_expr(ResolvedExprKind::Gt { lhs: b(l), rhs: b(r) }, bool_ty())
}

fn field_access(receiver: ResolvedExpr, name: &str) -> ResolvedExpr {
    make_expr(ResolvedExprKind::FieldAccess { receiver: b(receiver), field_name: name.to_string() }, int_ty())
}

fn int_var(name: &str, init: Option<ResolvedExpr>) -> Variable {
    Variable::new(name, int_ty(), init, test_span())
}

fn has_variable(bridge: &Z3Bridge, name: &str) -> bool {
    bridge.variables().iter().any(|(n, _)| n == name)
}

fn model_int(bridge: &Z3Bridge, name: &str) -> i64 {
    let solver = bridge.solver();
    assert_eq!(solver.check(), z3::SatResult::Sat);
    let model = solver.get_model().expect("model");
    let ast = bridge.variable(&name.to_string()).unwrap();
    model.eval(ast.as_int(test_span()).unwrap().ast(), true).unwrap().as_i64().unwrap()
}

#[test]
fn test_create_z3_constant_i32() {
    let bridge = Z3Bridge::new();
    let result = bridge.create_z3_constant("x", &int_ty());
    assert!(matches!(result, Ok(Z3Ast::Int(_))));
}

#[test]
fn test_create_z3_constant_f64() {
    let bridge = Z3Bridge::new();
    let result = bridge.create_z3_constant("x", &real_ty());
    assert!(matches!(result, Ok(Z3Ast::Real(_))));
}

#[test]
fn test_create_z3_constant_bool() {
    let bridge = Z3Bridge::new();
    let result = bridge.create_z3_constant("x", &bool_ty());
    assert!(matches!(result, Ok(Z3Ast::Bool(_))));
}

#[test]
fn test_translate_int_literal() {
    let bridge = Z3Bridge::new();
    assert!(matches!(bridge.translate_expr(&int_lit(42)), Ok(Z3Ast::Int(_))));
}

#[test]
fn test_translate_float_literal() {
    let bridge = Z3Bridge::new();
    assert!(matches!(bridge.translate_expr(&float(3.14)), Ok(Z3Ast::Real(_))));
}

#[test]
fn test_translate_bool_literal() {
    let bridge = Z3Bridge::new();
    assert!(matches!(bridge.translate_expr(&boolean(true)), Ok(Z3Ast::Bool(_))));
}

#[test]
fn test_add_variable_without_init() {
    let mut bridge = Z3Bridge::new();
    let result = bridge.add_variable(&int_var("x", None));
    assert!(result.is_ok());
    assert!(has_variable(&bridge, "x"));
}

#[test]
fn test_add_variable_with_init() {
    let mut bridge = Z3Bridge::new();
    let result = bridge.add_variable(&int_var("x", Some(int_lit(42))));
    assert!(result.is_ok());
    assert!(has_variable(&bridge, "x"));
}

#[test]
fn test_translate_variable_reference() {
    let mut bridge = Z3Bridge::new();
    bridge.add_variable(&int_var("x", None)).unwrap();
    assert!(matches!(bridge.translate_expr(&var("x")), Ok(Z3Ast::Int(_))));
}

fn arith(kind: fn(Box<ResolvedExpr>, Box<ResolvedExpr>) -> ResolvedExprKind, l: ResolvedExpr, r: ResolvedExpr) -> ResolvedExpr {
    make_expr(kind(b(l), b(r)), int_ty())
}

#[test]
fn test_translate_add_operation() {
    let bridge = Z3Bridge::new();
    let expr = arith(|lhs, rhs| ResolvedExprKind::Add { lhs, rhs }, int_lit(1), int_lit(2));
    assert!(matches!(bridge.translate_expr(&expr), Ok(Z3Ast::Int(_))));
}

#[test]
fn test_translate_sub_operation() {
    let bridge = Z3Bridge::new();
    let expr = arith(|lhs, rhs| ResolvedExprKind::Sub { lhs, rhs }, int_lit(5), int_lit(3));
    assert!(matches!(bridge.translate_expr(&expr), Ok(Z3Ast::Int(_))));
}

#[test]
fn test_translate_mul_operation() {
    let bridge = Z3Bridge::new();
    let expr = arith(|lhs, rhs| ResolvedExprKind::Mul { lhs, rhs }, int_lit(3), int_lit(4));
    assert!(matches!(bridge.translate_expr(&expr), Ok(Z3Ast::Int(_))));
}

#[test]
fn test_translate_div_operation() {
    let bridge = Z3Bridge::new();
    let expr = arith(|lhs, rhs| ResolvedExprKind::Div { lhs, rhs }, int_lit(10), int_lit(2));
    assert!(matches!(bridge.translate_expr(&expr), Ok(Z3Ast::Int(_))));
}

#[test]
fn test_translate_eq_operation() {
    let bridge = Z3Bridge::new();
    assert!(matches!(bridge.translate_expr(&eq(int_lit(1), int_lit(2))), Ok(Z3Ast::Bool(_))));
}

#[test]
fn test_translate_lt_operation() {
    let bridge = Z3Bridge::new();
    let expr = make_expr(ResolvedExprKind::Lt { lhs: b(int_lit(1)), rhs: b(int_lit(2)) }, bool_ty());
    assert!(matches!(bridge.translate_expr(&expr), Ok(Z3Ast::Bool(_))));
}

#[test]
fn test_translate_gt_operation() {
    let bridge = Z3Bridge::new();
    assert!(matches!(bridge.translate_expr(&gt(int_lit(2), int_lit(1))), Ok(Z3Ast::Bool(_))));
}

#[test]
fn test_translate_neg_operation() {
    let bridge = Z3Bridge::new();
    let expr = make_expr(ResolvedExprKind::Neg { inner: b(int_lit(42)) }, int_ty());
    assert!(matches!(bridge.translate_expr(&expr), Ok(Z3Ast::Int(_))));
}

#[test]
fn test_mixed_int_real_add() {
    let bridge = Z3Bridge::new();
    let expr = make_expr(ResolvedExprKind::Add { lhs: b(int_lit(1)), rhs: b(float(2.5)) }, real_ty());
    assert!(matches!(bridge.translate_expr(&expr), Ok(Z3Ast::Real(_))));
}

#[test]
fn test_end_to_end_simple_constraint() {
    let mut problem = ConstraintProblem::new();
    problem.add_variable(int_var("x", Some(int_lit(10))));
    problem.add_variable(int_var("y", None));
    let sum = arith(|lhs, rhs| ResolvedExprKind::Add { lhs, rhs }, var("x"), var("y"));
    problem.add_constraint(Constraint::new(eq(sum, int_lit(20)), test_span()));

    let mut bridge = Z3Bridge::new();
    assert!(bridge.add_problem(&problem).is_ok());
    assert_eq!(model_int(&bridge, "y"), 10);
}

#[test]
fn test_error_unsupported_type() {
    let bridge = Z3Bridge::new();
    let ty = ResolvedType::Reference { inner: b_ty(int_ty()), span: test_span() };
    let result = bridge.create_z3_constant("x", &ty);
    assert!(matches!(result, Err(Z3BridgeError::UnsupportedType { .. })));
}

fn b_ty(t: ResolvedType) -> Box<ResolvedType> {
    Box::new(t)
}

#[test]
fn test_error_variable_not_found() {
    let bridge = Z3Bridge::new();
    let result = bridge.translate_expr(&var("x"));
    assert!(matches!(result, Err(Z3BridgeError::VariableNotFound { .. })));
}

#[test]
fn test_error_display_unsupported_expression() {
    let error = Z3BridgeError::UnsupportedExpression {
        expr_type: "StructLit".to_string(),
        span: test_span(),
        message: "Not supported".to_string(),
    };
    let display = error.to_text();
    assert!(display.contains("StructLit"));
    assert!(display.contains("Not supported"));
}

#[test]
fn test_error_display_variable_not_found() {
    let error = Z3BridgeError::VariableNotFound { var_name: "x".to_string(), span: test_span() };
    let display = error.to_text();
    assert!(display.contains("x"));
    assert!(display.contains("not found"));
}

fn int_ast(v: i64) -> Z3Ast {
    Z3Bridge::new().translate_expr(&int_lit(v)).unwrap()
}

fn real_ast(num: &str, den: &str) -> Z3Ast {
    let value = num.parse::<f64>().unwrap() / den.parse::<f64>().unwrap();
    Z3Bridge::new().translate_expr(&float(value)).unwrap()
}

fn bool_ast(v: bool) -> Z3Ast {
    Z3Bridge::new().translate_expr(&boolean(v)).unwrap()
}

#[test]
fn test_create_ite_int() {
    let bridge = Z3Bridge::new();
    let result = bridge.create_ite(&bool_ast(true), &int_ast(10), &int_ast(20), test_span());
    assert!(matches!(result, Ok(Z3Ast::Int(_))));
}

#[test]
fn test_create_ite_real() {
    let bridge = Z3Bridge::new();
    let result = bridge.create_ite(&bool_ast(false), &real_ast("15", "10"), &real_ast("25", "10"), test_span());
    assert!(matches!(result, Ok(Z3Ast::Real(_))));
}

#[test]
fn test_create_ite_bool() {
    let bridge = Z3Bridge::new();
    let result = bridge.create_ite(&bool_ast(true), &bool_ast(true), &bool_ast(false), test_span());
    assert!(matches!(result, Ok(Z3Ast::Bool(_))));
}

#[test]
fn test_create_ite_mixed_int_real() {
    let bridge = Z3Bridge::new();
    let result = bridge.create_ite(&bool_ast(true), &int_ast(10), &real_ast("25", "10"), test_span());
    assert!(matches!(result, Ok(Z3Ast::Real(_))));
}

#[test]
fn test_create_ite_mixed_real_int() {
    let bridge = Z3Bridge::new();
    let result = bridge.create_ite(&bool_ast(true), &real_ast("15", "10"), &int_ast(20), test_span());
    assert!(matches!(result, Ok(Z3Ast::Real(_))));
}

#[test]
fn test_create_ite_type_mismatch() {
    let bridge = Z3Bridge::new();
    let result = bridge.create_ite(&bool_ast(true), &int_ast(10), &bool_ast(true), test_span());
    assert!(matches!(result, Err(Z3BridgeError::TypeMismatch { .. })));
}

#[test]
fn test_translate_if_expr_basic() {
    let bridge = Z3Bridge::new();
    let result = bridge.translate_if_expr(&boolean(true), &int_lit(10), &int_lit(20));
    assert!(matches!(result, Ok(Z3Ast::Int(_))));
}

#[test]
fn test_translate_if_expr_with_variables() {
    let mut bridge = Z3Bridge::new();
    bridge.add_variable(&int_var("x", None)).unwrap();
    let result = bridge.translate_if_expr(&gt(var("x"), int_lit(0)), &int_lit(10), &int_lit(-10));
    assert!(matches!(result, Ok(Z3Ast::Int(_))));
}

fn bridge_with(names: &[&str]) -> Z3Bridge {
    let mut bridge = Z3Bridge::new();
    for n in names {
        bridge.add_variable(&int_var(n, None)).unwrap();
    }
    bridge
}

#[test]
fn test_add_conditional_constraint_both_branches() {
    let mut bridge = bridge_with(&["x", "y"]);
    let cc = ConditionalConstraint::new(
        gt(var("x"), int_lit(0)),
        vec![Constraint::new(eq(var("y"), int_lit(10)), test_span())],
        vec![Constraint::new(eq(var("y"), int_lit(20)), test_span())],
        test_span(),
    );
    assert!(bridge.add_conditional_constraints(&cc).is_ok());
    assert_eq!(bridge.solver().get_assertions().len(), 1);
}

#[test]
fn test_add_conditional_constraint_then_only() {
    let mut bridge = bridge_with(&["x", "y"]);
    let cc = ConditionalConstraint::new(
        gt(var("x"), int_lit(0)),
        vec![Constraint::new(eq(var("y"), int_lit(10)), test_span())],
        vec![],
        test_span(),
    );
    assert!(bridge.add_conditional_constraints(&cc).is_ok());
    assert_eq!(bridge.solver().get_assertions().len(), 1);
}

#[test]
fn test_add_conditional_constraint_else_only() {
    let mut bridge = bridge_with(&["x", "y"]);
    let cc = ConditionalConstraint::new(
        gt(var("x"), int_lit(0)),
        vec![],
        vec![Constraint::new(eq(var("y"), int_lit(20)), test_span())],
        test_span(),
    );
    assert!(bridge.add_conditional_constraints(&cc).is_ok());
    assert_eq!(bridge.solver().get_assertions().len(), 1);
}

#[test]
fn test_add_conditional_constraint_multiple() {
    let mut bridge = bridge_with(&["x", "y", "z"]);
    let cc = ConditionalConstraint::new(
        gt(var("x"), int_lit(0)),
        vec![
            Constraint::new(eq(var("y"), int_lit(10)), test_span()),
            Constraint::new(eq(var("z"), int_lit(5)), test_span()),
        ],
        vec![Constraint::new(eq(var("y"), int_lit(20)), test_span())],
        test_span(),
    );
    assert!(bridge.add_conditional_constraints(&cc).is_ok());
    // One if-then-else for the pair, one implication for the unpaired then-constraint.
    assert_eq!(bridge.solver().get_assertions().len(), 2);
}

#[test]
fn test_end_to_end_if_constraint() {
    let mut problem = ConstraintProblem::new();
    problem.add_variable(int_var("x", Some(int_lit(5))));
    problem.add_variable(int_var("y", None));
    problem.add_conditional_constraint(ConditionalConstraint::new(
        gt(var("x"), int_lit(0)),
        vec![Constraint::new(eq(var("y"), int_lit(10)), test_span())],
        vec![Constraint::new(eq(var("y"), int_lit(-10)), test_span())],
        test_span(),
    ));

    let mut bridge = Z3Bridge::new();
    assert!(bridge.add_problem(&problem).is_ok());
    assert_eq!(model_int(&bridge, "y"), 10);
}

#[test]
fn test_build_field_access_name_simple() {
    let result = Z3Bridge::build_field_access_name(&var("p"), "x");
    assert_eq!(result.unwrap(), "p.x");
}

#[test]
fn test_build_field_access_name_nested() {
    let receiver = field_access(var("line"), "start");
    let result = Z3Bridge::build_field_access_name(&receiver, "x");
    assert_eq!(result.unwrap(), "line.start.x");
}

#[test]
fn test_translate_field_access_simple() {
    let bridge = bridge_with(&["p.x", "p.y"]);
    let result = bridge.translate_expr(&field_access(var("p"), "x"));
    assert!(matches!(result, Ok(Z3Ast::Int(_))));
}

#[test]
fn test_field_access_in_constraint() {
    let mut bridge = bridge_with(&["p.x", "p.y"]);
    let sum = arith(
        |lhs, rhs| ResolvedExprKind::Add { lhs, rhs },
        field_access(var("p"), "x"),
        field_access(var("p"), "y"),
    );
    let result = bridge.add_constraint(&eq(sum, int_lit(15)));
    assert!(result.is_ok());
    assert_eq!(bridge.solver().check(), z3::SatResult::Sat);
}

#[test]
fn test_field_access_variable_not_found() {
    let bridge = Z3Bridge::new();
    let result = bridge.translate_expr(&field_access(var("p"), "x"));
    assert!(matches!(result, Err(Z3BridgeError::VariableNotFound { ref var_name, .. }) if var_name == "p.x"));
}

// ---------------------------------------------------------------------------
// Further cases of the translation's contract
// ---------------------------------------------------------------------------

#[test]
fn float_literal_is_read_at_six_decimals() {
    let mut bridge = Z3Bridge::new();
    bridge.add_variable(&Variable::new("r", real_ty(), Some(float(2.5)), test_span())).unwrap();
    let solver = bridge.solver();
    assert_eq!(solver.check(), z3::SatResult::Sat);
    let model = solver.get_model().unwrap();
    let r = bridge.variable(&"r".to_string()).unwrap().as_real(test_span()).unwrap();
    assert_eq!(model.eval(r.ast(), true).unwrap().as_rational(), Some((5, 2)));
}

#[test]
fn boolean_operands_of_arithmetic_are_refused() {
    let bridge = Z3Bridge::new();
    let expr = arith(|lhs, rhs| ResolvedExprKind::Add { lhs, rhs }, int_lit(1), boolean(true));
    match bridge.translate_expr(&expr) {
        Err(Z3BridgeError::TypeMismatch { expected, found, .. }) => {
            assert_eq!(expected, "Int or Real");
            assert_eq!(found, "Bool");
        }
        other => panic!("unexpected {:?}", other.err()),
    }
}

#[test]
fn equality_of_bool_and_int_is_refused() {
    let bridge = Z3Bridge::new();
    match bridge.translate_expr(&eq(boolean(true), int_lit(1))) {
        Err(Z3BridgeError::TypeMismatch { expected, found, .. }) => {
            assert_eq!(expected, "matching types");
            assert_eq!(found, "mismatched types");
        }
        other => panic!("unexpected {:?}", other.err()),
    }
}

#[test]
fn non_boolean_constraint_is_refused() {
    let mut bridge = Z3Bridge::new();
    match bridge.add_constraint(&int_lit(3)) {
        Err(Z3BridgeError::TypeMismatch { expected, found, .. }) => {
            assert_eq!(expected, "Bool");
            assert_eq!(found, "Int");
        }
        other => panic!("unexpected {:?}", other.err()),
    }
    assert_eq!(bridge.solver().get_assertions().len(), 0);
}

#[test]
fn unsupported_expression_names_its_kind() {
    let bridge = Z3Bridge::new();
    let expr = make_expr(ResolvedExprKind::Mod { lhs: b(int_lit(1)), rhs: b(int_lit(2)) }, int_ty());
    match bridge.translate_expr(&expr) {
        Err(Z3BridgeError::UnsupportedExpression { expr_type, message, .. }) => {
            assert_eq!(expr_type, "Mod");
            assert_eq!(message, "This expression type is not supported in constraint solving");
        }
        other => panic!("unexpected {:?}", other.err()),
    }
}

#[test]
fn user_defined_type_has_no_sort() {
    let bridge = Z3Bridge::new();
    let ty = ResolvedType::UserDefined { name: "Point".to_string(), definition: 0, span: test_span() };
    match bridge.create_z3_constant("p", &ty) {
        Err(Z3BridgeError::UnsupportedType { type_label, .. }) => assert_eq!(type_label, "Point"),
        other => panic!("unexpected {:?}", other.err()),
    }
}

#[test]
fn redeclared_variable_replaces_its_constant() {
    let mut bridge = Z3Bridge::new();
    bridge.add_variable(&int_var("x", None)).unwrap();
    bridge.add_variable(&Variable::new("x", bool_ty(), None, test_span())).unwrap();
    assert_eq!(bridge.variables().len(), 1);
    assert!(matches!(bridge.variable(&"x".to_string()), Some(Z3Ast::Bool(_))));
}

#[test]
fn unsatisfiable_problem_is_reported_by_the_solver() {
    let mut problem = ConstraintProblem::new();
    problem.add_variable(int_var("x", Some(int_lit(1))));
    problem.add_constraint(Constraint::new(eq(var("x"), int_lit(2)), test_span()));
    let mut bridge = Z3Bridge::new();
    bridge.add_problem(&problem).unwrap();
    assert_eq!(bridge.solver().check(), z3::SatResult::Unsat);
}

#[test]
fn bridge_error_texts_are_exact() {
    let span = Span { start: LineColumn { line: 2, column: 5 }, lines: 0, end_column: 9 };
    assert_eq!(
        Z3BridgeError::VariableNotFound { var_name: "q".to_string(), span }.to_text(),
        "Variable 'q' not found at line 2, column 5"
    );
    assert_eq!(
        Z3BridgeError::TypeMismatch { expected: "Bool".to_string(), found: "Int".to_string(), span }.to_text(),
        "Type mismatch at line 2, column 5: expected Bool, found Int"
    );
    assert_eq!(
        Z3BridgeError::UnsupportedType { type_label: "Reference".to_string(), span, message: "m".to_string() }.to_text(),
        "Unsupported type 'Reference' at line 2, column 5: m"
    );
}

#[test]
fn default_bridge_has_no_variables() {
    let bridge = Z3Bridge::default();
    assert!(bridge.variables().is_empty());
    assert_eq!(bridge.solver().check(), z3::SatResult::Sat);
}
