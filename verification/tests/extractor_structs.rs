use cad_solver::hir::{
    FieldDefinition, ResolvedExpr, ResolvedExprKind, ResolvedStmt, ResolvedStmtKind, ResolvedStructLitField,
    ResolvedType, StructDefinition, StructTable, VarDefinition,
};
use cad_solver::lexer::{LineColumn, Span};
use cad_solver::solver::constraint_extractor::{extract_constraints, ConstraintExtractorError, ConstraintProblem, Variable};

fn test_span() -> Span {
    Span { start: LineColumn { line: 1, column: 1 }, lines: 0, end_column: 10 }
}

fn int_ty() -> ResolvedType {
    ResolvedType::I32 { span: test_span() }
}

fn make_expr(kind: ResolvedExprKind, ty: ResolvedType) -> ResolvedExpr {
    ResolvedExpr { span: test_span(), kind, ty }
}

fn int_lit(value: i64) -> ResolvedExpr {
    make_expr(ResolvedExprKind::IntLit { value }, int_ty())
}

fn make_stmt(kind: ResolvedStmtKind) -> ResolvedStmt {
    ResolvedStmt { span: test_span(), kind }
}

fn field(name: &str, field_type: ResolvedType) -> FieldDefinition {
    FieldDefinition { name: name.to_string(), name_span: test_span(), field_type, span: test_span() }
}

fn struct_def(name: &str, fields: Vec<FieldDefinition>) -> StructDefinition {
    StructDefinition { name: name.to_string(), name_span: test_span(), fields, span: test_span() }
}

fn user_ty(name: &str, definition: usize) -> ResolvedType {
    ResolvedType::UserDefined { name: name.to_string(), definition, span: test_span() }
}

/// Struct 0 is `Point { x: i32, y: i32 }`, struct 1 is `Line { start: Point, end: Point }`.
fn geometry() -> StructTable {
    StructTable {
        defs: vec![
            struct_def("Point", vec![field("x", int_ty()), field("y", int_ty())]),
            struct_def("Line", vec![field("start", user_ty("Point", 0)), field("end", user_ty("Point", 0))]),
        ],
    }
}

fn point_ty() -> ResolvedType {
    user_ty("Point", 0)
}

fn line_ty() -> ResolvedType {
    user_ty("Line", 1)
}

fn lit_field(name: &str, value: ResolvedExpr) -> ResolvedStructLitField {
    ResolvedStructLitField::Field { name: name.to_string(), value, span: test_span() }
}

fn struct_lit(name: &str, fields: Vec<ResolvedStructLitField>, ty: ResolvedType) -> ResolvedExpr {
    make_expr(ResolvedExprKind::StructLit { name: name.to_string(), fields }, ty)
}

/// `Point { x: .., y: .. }` with the given fields.
fn point_lit(x: Option<i64>, y: Option<i64>) -> ResolvedExpr {
    let mut fields = vec![];
    if let Some(x) = x {
        fields.push(lit_field("x", int_lit(x)));
    }
    if let Some(y) = y {
        fields.push(lit_field("y", int_lit(y)));
    }
    struct_lit("Point", fields, point_ty())
}

fn let_stmt(name: &str, ty: fn() -> ResolvedType, init: Option<fn() -> ResolvedExpr>) -> ResolvedStmt {
    make_stmt(ResolvedStmtKind::Let {
        var_def: VarDefinition {
            name: name.to_string(),
            name_span: test_span(),
            var_type: Some(ty()),
            init: init.map(|f| f()),
            scope_level: 0,
            span: test_span(),
        },
        init: init.map(|f| f()),
        span: test_span(),
    })
}

fn var(name: &str, ty: ResolvedType) -> ResolvedExpr {
    make_expr(ResolvedExprKind::Var { name: name.to_string() }, ty)
}

fn field_access(receiver: ResolvedExpr, field_name: &str, ty: ResolvedType) -> ResolvedExpr {
    make_expr(ResolvedExprKind::FieldAccess { receiver: Box::new(receiver), field_name: field_name.to_string() }, ty)
}

fn field_assign(target: ResolvedExpr, value: i64) -> ResolvedStmt {
    make_stmt(ResolvedStmtKind::FieldAssignment { target, value: int_lit(value), span: test_span() })
}

fn find<'a>(problem: &'a ConstraintProblem, name: &str) -> &'a Variable {
    problem.variables.iter().find(|v| v.name == name).unwrap()
}

fn init_value(v: &Variable) -> Option<i64> {
    match &v.init {
        Some(ResolvedExpr { kind: ResolvedExprKind::IntLit { value }, .. }) => Some(*value),
        _ => None,
    }
}

#[test]
fn test_struct_literal_simple() {
    let stmt = let_stmt("p", point_ty, Some(|| point_lit(Some(5), Some(10))));
    let result = extract_constraints(&geometry(), vec![stmt]);
    assert!(result.is_ok());
    let problem = result.unwrap();

    assert_eq!(problem.variable_count(), 2);
    assert_eq!(problem.known_variables().len(), 2);

    let p_x = find(&problem, "p.x");
    assert!(p_x.is_known());
    assert_eq!(init_value(p_x), Some(5));
    let p_y = find(&problem, "p.y");
    assert!(p_y.is_known());
    assert_eq!(init_value(p_y), Some(10));
}

#[test]
fn test_struct_literal_without_init() {
    let stmt = let_stmt("p", point_ty, None);
    let result = extract_constraints(&geometry(), vec![stmt]);
    assert!(result.is_ok());
    let problem = result.unwrap();

    assert_eq!(problem.variable_count(), 2);
    assert_eq!(problem.unknown_variables().len(), 2);
}

fn line_lit() -> ResolvedExpr {
    struct_lit(
        "Line",
        vec![lit_field("start", point_lit(Some(0), Some(0))), lit_field("end", point_lit(Some(10), Some(10)))],
        line_ty(),
    )
}

#[test]
fn test_struct_literal_nested() {
    let stmt = let_stmt("line", line_ty, Some(line_lit));
    let result = extract_constraints(&geometry(), vec![stmt]);
    assert!(result.is_ok());
    let problem = result.unwrap();

    assert_eq!(problem.variable_count(), 4);
    assert_eq!(problem.known_variables().len(), 4);
    assert_eq!(init_value(find(&problem, "line.start.x")), Some(0));
    assert_eq!(init_value(find(&problem, "line.end.x")), Some(10));
}

#[test]
fn test_struct_literal_partial_init() {
    let stmt = let_stmt("p", point_ty, Some(|| point_lit(Some(5), None)));
    let result = extract_constraints(&geometry(), vec![stmt]);
    assert!(result.is_ok());
    let problem = result.unwrap();

    assert_eq!(problem.variable_count(), 2);
    assert_eq!(problem.known_variables().len(), 1);
    assert_eq!(problem.unknown_variables().len(), 1);

    let p_x = find(&problem, "p.x");
    assert!(p_x.is_known());
    assert_eq!(init_value(p_x), Some(5));
    assert!(find(&problem, "p.y").is_unknown());
}

#[test]
fn test_struct_literal_computed_property_error() {
    let table = StructTable { defs: vec![struct_def("Point", vec![field("x", int_ty())])] };
    let computed = || {
        struct_lit(
            "Point",
            vec![ResolvedStructLitField::ComputedProperty {
                name: "length".to_string(),
                value: int_lit(5),
                span: test_span(),
            }],
            point_ty(),
        )
    };
    let stmt = let_stmt("p", point_ty, Some(computed));
    let result = extract_constraints(&table, vec![stmt]);
    assert!(result.is_err());
    let errors = result.unwrap_err();
    assert_eq!(errors.len(), 1);
    assert!(matches!(
        errors[0],
        ConstraintExtractorError::UnsupportedStatement { ref statement_type, .. }
        if statement_type == "computed property in struct literal"
    ));
}

#[test]
fn test_field_assignment_simple() {
    let stmts = vec![
        let_stmt("p", point_ty, None),
        field_assign(field_access(var("p", point_ty()), "x", int_ty()), 5),
    ];
    let result = extract_constraints(&geometry(), stmts);
    assert!(result.is_ok());
    let problem = result.unwrap();

    assert_eq!(problem.variable_count(), 2);
    assert_eq!(problem.known_variables().len(), 1);
    assert_eq!(problem.unknown_variables().len(), 1);

    let p_x = find(&problem, "p.x");
    assert!(p_x.is_known());
    assert_eq!(init_value(p_x), Some(5));
    assert!(find(&problem, "p.y").is_unknown());
}

#[test]
fn test_field_assignment_multiple() {
    let stmts = vec![
        let_stmt("p", point_ty, None),
        field_assign(field_access(var("p", point_ty()), "x", int_ty()), 10),
        field_assign(field_access(var("p", point_ty()), "y", int_ty()), 20),
    ];
    let result = extract_constraints(&geometry(), stmts);
    assert!(result.is_ok());
    let problem = result.unwrap();

    assert_eq!(problem.variable_count(), 2);
    assert_eq!(problem.known_variables().len(), 2);
    assert_eq!(init_value(find(&problem, "p.x")), Some(10));
    assert_eq!(init_value(find(&problem, "p.y")), Some(20));
}

#[test]
fn test_field_assignment_nested() {
    let target = field_access(field_access(var("line", line_ty()), "start", point_ty()), "x", int_ty());
    let stmts = vec![let_stmt("line", line_ty, None), field_assign(target, 42)];
    let result = extract_constraints(&geometry(), stmts);
    assert!(result.is_ok());
    let problem = result.unwrap();

    assert_eq!(problem.variable_count(), 4);
    assert_eq!(problem.known_variables().len(), 1);
    assert_eq!(init_value(find(&problem, "line.start.x")), Some(42));
}

#[test]
fn test_field_assignment_mixed_with_struct_literal() {
    let stmts = vec![
        let_stmt("p", point_ty, Some(|| point_lit(Some(5), None))),
        field_assign(field_access(var("p", point_ty()), "y", int_ty()), 10),
    ];
    let result = extract_constraints(&geometry(), stmts);
    assert!(result.is_ok());
    let problem = result.unwrap();

    assert_eq!(problem.variable_count(), 2);
    assert_eq!(problem.known_variables().len(), 2);
    assert_eq!(init_value(find(&problem, "p.x")), Some(5));
    assert_eq!(init_value(find(&problem, "p.y")), Some(10));
}

#[test]
fn test_field_assignment_to_unknown_variable_error() {
    let table = StructTable { defs: vec![struct_def("Point", vec![])] };
    let stmts = vec![field_assign(field_access(var("p", point_ty()), "x", int_ty()), 5)];
    let result = extract_constraints(&table, stmts);
    assert!(result.is_err());
    let errors = result.unwrap_err();
    assert_eq!(errors.len(), 1);
    assert!(matches!(
        errors[0],
        ConstraintExtractorError::UnsupportedStatement { ref statement_type, ref message, .. }
        if statement_type == "field assignment to unknown variable"
            && message == "Field assignment to 'p.x' but variable not found in problem"
    ));
}

// A struct that contains itself is refused, with the cycle of struct names.
#[test]
fn recursive_struct_variable_is_refused() {
    let table = StructTable {
        defs: vec![struct_def("Node", vec![field("value", int_ty()), field("next", user_ty("Node", 0))])],
    };
    let stmt = let_stmt("n", || user_ty("Node", 0), None);
    let errors = extract_constraints(&table, vec![stmt]).unwrap_err();
    assert_eq!(errors.len(), 1);
    match &errors[0] {
        ConstraintExtractorError::RecursiveStruct { cycle_path, .. } => {
            assert_eq!(cycle_path, &vec!["Node".to_string(), "Node".to_string()]);
        }
        other => panic!("unexpected error {:?}", other),
    }
}

// A struct variable becomes one variable per primitive field, in field order.
#[test]
fn struct_fields_are_declared_in_field_order() {
    let stmt = let_stmt("line", line_ty, None);
    let problem = extract_constraints(&geometry(), vec![stmt]).unwrap();
    let names: Vec<&str> = problem.variables.iter().map(|v| v.name.as_str()).collect();
    assert_eq!(names, vec!["line.start.x", "line.start.y", "line.end.x", "line.end.y"]);
}
