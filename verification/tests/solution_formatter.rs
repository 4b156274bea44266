use cad_solver::hir::{ResolvedExpr, ResolvedExprKind, ResolvedType};
use cad_solver::lexer::{LineColumn, Span};
use cad_solver::solver::constraint_extractor::{Constraint, ConstraintProblem, Variable};
use cad_solver::solver::solution_formatter::{
    name_less, odd_bool_value, ratio_value_text, read_bool_value, read_int_value, read_real_value, render_assignments, sort_by_name, wide_int_value,
    wide_real_value, SolutionFormatter, SolutionFormatterError, ValueText,
};
use cad_solver::solver::z3_bridge::Z3Bridge;

fn test_span() -> Span {
    Span { start: LineColumn { line: 1, column: 1 }, lines: 0, end_column: 10 }
}

fn int_ty() -> ResolvedType {
    ResolvedType::I32 { span: test_span() }
}

fn bool_ty() -> ResolvedType {
    ResolvedType::Bool { span: test_span() }
}

fn make_expr(kind: ResolvedExprKind, ty: ResolvedType) -> ResolvedExpr {
    ResolvedExpr { span: test_span(), kind, ty }
}

fn int_lit(value: i64) -> ResolvedExpr {
    make_expr(ResolvedExprKind::IntLit { value }, int_ty())
}

fn var(name: &str) -> ResolvedExpr {
    make_expr(ResolvedExprKind::Var { name: name.to_string() }, int_ty())
}

fn eq(l: ResolvedExpr, r: ResolvedExpr) -> ResolvedExpr {
    make_expr(ResolvedExprKind::Eq { lhs: Box::new(l), rhs: Box::new(r) }, bool_ty())
}

/// The text of a formatted solution: real values are printed as the nearest `f64`.
fn render(values: Vec<(String, ValueText)>) -> String {
    let lines: Vec<(String, String)> = values
        .into_iter()
        .map(|(name, v)| {
            let text = match v {
                ValueText::Text(t) => t,
                ValueText::Ratio { numerator, denominator } => format!("{}", numerator as f64 / denominator as f64),
            };
            (name, text)
        })
        .collect();
    render_assignments(&lines)
}

/// Translates `problem` and formats the listed variables' solution.
fn solve(problem: &ConstraintProblem, listed: &[&str]) -> Result<String, SolutionFormatterError> {
    let mut bridge = Z3Bridge::new();
    bridge.add_problem(problem).unwrap();
    let vars: Vec<&Variable> = listed.iter().map(|n| problem.variables.iter().find(|v| v.name == *n).unwrap()).collect();
    let formatter = SolutionFormatter::new(bridge.variables(), vars);
    formatter.format_solution(bridge.solver()).map(render)
}

#[test]
fn test_format_sat_result_single_variable() {
    let mut problem = ConstraintProblem::new();
    problem.add_variable(Variable::new("x", int_ty(), Some(int_lit(10)), test_span()));
    let result = solve(&problem, &["x"]);
    assert!(result.is_ok());
    assert_eq!(result.unwrap().trim(), "x = 10");
}

#[test]
fn test_format_sat_result_multiple_variables() {
    let mut problem = ConstraintProblem::new();
    problem.add_variable(Variable::new("y", int_ty(), Some(int_lit(10)), test_span()));
    problem.add_variable(Variable::new("x", int_ty(), None, test_span()));
    let sum = make_expr(ResolvedExprKind::Add { lhs: Box::new(var("x")), rhs: Box::new(var("y")) }, int_ty());
    problem.add_constraint(Constraint::new(eq(sum, int_lit(20)), test_span()));
    let result = solve(&problem, &["x", "y"]);
    assert!(result.is_ok());
    assert_eq!(result.unwrap(), "x = 10\ny = 10\n");
}

#[test]
fn test_format_sat_result_alphabetical_sorting() {
    let mut problem = ConstraintProblem::new();
    problem.add_variable(Variable::new("z", int_ty(), Some(int_lit(3)), test_span()));
    problem.add_variable(Variable::new("a", int_ty(), Some(int_lit(1)), test_span()));
    problem.add_variable(Variable::new("m", int_ty(), Some(int_lit(2)), test_span()));
    let result = solve(&problem, &["z", "a", "m"]);
    assert!(result.is_ok());
    assert_eq!(result.unwrap(), "a = 1\nm = 2\nz = 3\n");
}

#[test]
fn test_format_unsat_result() {
    let mut problem = ConstraintProblem::new();
    problem.add_variable(Variable::new("x", int_ty(), None, test_span()));
    problem.add_constraint(Constraint::new(eq(var("x"), int_lit(10)), test_span()));
    problem.add_constraint(Constraint::new(eq(var("x"), int_lit(20)), test_span()));
    let result = solve(&problem, &["x"]);
    assert!(result.is_err());
    assert!(matches!(result.unwrap_err(), SolutionFormatterError::Unsat));
}

#[test]
fn test_format_float_variable() {
    let real_ty = ResolvedType::F64 { span: test_span() };
    let init = make_expr(ResolvedExprKind::FloatLit { scaled: (3.14f64 * 1_000_000.0).round() as i64 }, ResolvedType::F64 { span: test_span() });
    let mut problem = ConstraintProblem::new();
    problem.add_variable(Variable::new("x", real_ty, Some(init), test_span()));
    let result = solve(&problem, &["x"]);
    assert!(result.is_ok());
    assert!(result.unwrap().contains("x = 3.14"));
}

#[test]
fn test_format_bool_variable() {
    let init = make_expr(ResolvedExprKind::BoolLit { value: true }, bool_ty());
    let mut problem = ConstraintProblem::new();
    problem.add_variable(Variable::new("x", bool_ty(), Some(init), test_span()));
    let result = solve(&problem, &["x"]);
    assert!(result.is_ok());
    assert_eq!(result.unwrap().trim(), "x = true");
}

#[test]
fn test_format_mixed_types() {
    let mut problem = ConstraintProblem::new();
    problem.add_variable(Variable::new("x", int_ty(), Some(int_lit(42)), test_span()));
    let flag_init = make_expr(ResolvedExprKind::BoolLit { value: false }, bool_ty());
    problem.add_variable(Variable::new("flag", bool_ty(), Some(flag_init), test_span()));
    let result = solve(&problem, &["x", "flag"]);
    assert!(result.is_ok());
    assert_eq!(result.unwrap(), "flag = false\nx = 42\n");
}

#[test]
fn test_error_display_unsat() {
    let display = SolutionFormatterError::Unsat.to_text();
    assert!(display.contains("UNSAT"));
    assert!(display.contains("cannot be satisfied"));
}

#[test]
fn test_error_display_unknown() {
    let display = SolutionFormatterError::Unknown.to_text();
    assert!(display.contains("UNKNOWN"));
    assert!(display.contains("could not determine"));
}

#[test]
fn test_error_display_variable_not_in_model() {
    let display = SolutionFormatterError::VariableNotInModel { var_name: "x".to_string() }.to_text();
    assert!(display.contains("x"));
    assert!(display.contains("not found in model"));
}

#[test]
fn test_error_display_evaluation_failed() {
    let display = SolutionFormatterError::EvaluationFailed { var_name: "y".to_string() }.to_text();
    assert!(display.contains("y"));
    assert!(display.contains("Failed to evaluate"));
}

#[test]
fn test_error_display_type_conversion_failed() {
    let display = SolutionFormatterError::TypeConversionFailed {
        var_name: "z".to_string(),
        expected_type: "i32".to_string(),
    }
    .to_text();
    assert!(display.contains("z"));
    assert!(display.contains("i32"));
    assert!(display.contains("Failed to convert"));
}

#[test]
fn test_format_unconstrained_variable() {
    let mut problem = ConstraintProblem::new();
    problem.add_variable(Variable::new("x", int_ty(), None, test_span()));
    problem.add_variable(Variable::new("y", int_ty(), Some(int_lit(10)), test_span()));
    problem.add_constraint(Constraint::new(eq(var("y"), int_lit(10)), test_span()));
    let result = solve(&problem, &["x", "y"]);
    assert_eq!(result.unwrap(), "x = <under-constrained>\ny = 10\n");
}

// ---------------------------------------------------------------------------
// The pieces of formatting, on given evaluations
// ---------------------------------------------------------------------------

#[test]
fn variable_without_constant_is_reported() {
    let bridge = Z3Bridge::new();
    let v = Variable::new("ghost", int_ty(), None, test_span());
    let formatter = SolutionFormatter::new(bridge.variables(), vec![&v]);
    match formatter.format_solution(bridge.solver()) {
        Err(SolutionFormatterError::VariableNotInModel { var_name }) => assert_eq!(var_name, "ghost"),
        other => panic!("unexpected {:?}", other),
    }
}

#[test]
fn wide_integer_texts() {
    assert_eq!(wide_int_value("123456789012345678901234".to_string()), "123456789012345678901234 (exceeds i64 range)");
    assert_eq!(wide_int_value("-99999999999999999999".to_string()), "-99999999999999999999 (exceeds i64 range)");
    assert_eq!(wide_int_value("(+ x 1)".to_string()), "<under-constrained>");
    assert_eq!(wide_int_value(String::new()), "<under-constrained>");
}

#[test]
fn real_value_texts() {
    assert!(matches!(ratio_value_text(7, 2), ValueText::Ratio { numerator: 7, denominator: 2 }));
    match ratio_value_text(-3, 0) {
        ValueText::Text(t) => assert_eq!(t, "-3/0 (invalid rational)"),
        other => panic!("unexpected {:?}", other),
    }
    assert_eq!(wide_real_value("1/3".to_string()), "1/3 (cannot convert to f64)");
    assert_eq!(wide_real_value("x".to_string()), "<under-constrained>");
}

#[test]
fn odd_boolean_texts() {
    assert_eq!(odd_bool_value("true".to_string()), "true (unexpected bool value)");
    assert_eq!(odd_bool_value("false".to_string()), "false (unexpected bool value)");
    assert_eq!(odd_bool_value("b".to_string()), "<under-constrained>");
}

#[test]
fn names_order_like_strings() {
    let s = |x: &str| x.to_string();
    assert!(name_less(&s("a"), &s("b")));
    assert!(!name_less(&s("b"), &s("a")));
    assert!(name_less(&s("p"), &s("p.x")));
    assert!(!name_less(&s("p.x"), &s("p.x")));
    assert!(name_less(&s("Z"), &s("a")));
    assert!(name_less(&s("p.x"), &s("p[0]")));
    assert!(!name_less(&s(""), &s("")));
    assert!(name_less(&s(""), &s("a")));
}

#[test]
fn sorting_is_stable_for_equal_names() {
    let t = |x: &str| ValueText::Text(x.to_string());
    let items = vec![
        ("b".to_string(), t("1")),
        ("a".to_string(), t("2")),
        ("b".to_string(), t("3")),
        ("a".to_string(), t("4")),
    ];
    let sorted = sort_by_name(items);
    let texts: Vec<String> = sorted
        .into_iter()
        .map(|(n, v)| match v {
            ValueText::Text(x) => format!("{}{}", n, x),
            _ => unreachable!(),
        })
        .collect();
    assert_eq!(texts, vec!["a2", "a4", "b1", "b3"]);
}

#[test]
fn render_assignments_lines() {
    let lines = vec![("a".to_string(), "1".to_string()), ("b.c".to_string(), "true".to_string())];
    assert_eq!(render_assignments(&lines), "a = 1\nb.c = true\n");
    assert_eq!(render_assignments(&vec![]), "");
}

#[test]
fn formatter_error_texts_are_exact() {
    assert_eq!(SolutionFormatterError::Unsat.to_text(), "UNSAT: The constraints cannot be satisfied");
    assert_eq!(
        SolutionFormatterError::TypeConversionFailed { var_name: "v".to_string(), expected_type: "f64".to_string() }.to_text(),
        "Failed to convert variable 'v' to type f64"
    );
    assert_eq!(
        SolutionFormatterError::EvaluationFailed { var_name: "v".to_string() }.to_text(),
        "Failed to evaluate variable 'v' in model"
    );
}

fn text_of(v: ValueText) -> String {
    match v {
        ValueText::Text(t) => t,
        ValueText::Ratio { numerator, denominator } => format!("{}/{}", numerator, denominator),
    }
}

#[test]
fn integer_readings_of_evaluations() {
    assert_eq!(text_of(read_int_value(Some((Some(-42), "(- 42)".to_string())))), "-42");
    assert_eq!(
        text_of(read_int_value(Some((None, "99999999999999999999".to_string())))),
        "99999999999999999999 (exceeds i64 range)"
    );
    assert_eq!(text_of(read_int_value(Some((None, "(+ x 1)".to_string())))), "<under-constrained>");
    assert_eq!(text_of(read_int_value(None)), "<under-constrained>");
}

#[test]
fn real_readings_of_evaluations() {
    assert!(matches!(
        read_real_value(Some((Some((3, 2)), "(/ 3.0 2.0)".to_string()))),
        ValueText::Ratio { numerator: 3, denominator: 2 }
    ));
    assert_eq!(text_of(read_real_value(Some((Some((5, 0)), "x".to_string())))), "5/0 (invalid rational)");
    assert_eq!(
        text_of(read_real_value(Some((None, "1e400".to_string())))),
        "1e400 (cannot convert to f64)"
    );
    assert_eq!(text_of(read_real_value(Some((None, "y".to_string())))), "<under-constrained>");
    assert_eq!(text_of(read_real_value(None)), "<under-constrained>");
}

#[test]
fn boolean_readings_of_evaluations() {
    assert_eq!(text_of(read_bool_value(Some((Some(true), "true".to_string())))), "true");
    assert_eq!(text_of(read_bool_value(Some((Some(false), "false".to_string())))), "false");
    assert_eq!(text_of(read_bool_value(Some((None, "true".to_string())))), "true (unexpected bool value)");
    assert_eq!(text_of(read_bool_value(Some((None, "(and p q)".to_string())))), "<under-constrained>");
    assert_eq!(text_of(read_bool_value(None)), "<under-constrained>");
}
