use cad_solver::hir::{
    FunctionDefinition, ResolvedExpr, ResolvedExprKind, ResolvedStmt, ResolvedStmtKind, ResolvedType,
    StructDefinition, StructTable, VarDefinition,
};
use cad_solver::lexer::{LineColumn, Span};
use cad_solver::solver::constraint_extractor::{
    extract_constraints, is_comparison_expr, ConditionalConstraint, Constraint, ConstraintExtractorError,
    ConstraintProblem, Variable,
};

fn test_span() -> Span {
    Span { start: LineColumn { line: 1, column: 1 }, lines: 0, end_column: 10 }
}

fn int_ty() -> ResolvedType {
    ResolvedType::I32 { span: test_span() }
}

fn bool_ty() -> ResolvedType {
    ResolvedType::Bool { span: test_span() }
}

fn make_expr(kind: ResolvedExprKind, ty: ResolvedType) -> ResolvedExpr {
    ResolvedExpr { span: test_span(), kind, ty }
}

fn int_lit(value: i64) -> ResolvedExpr {
    make_expr(ResolvedExprKind::IntLit { value }, int_ty())
}

fn boolean(value: bool) -> ResolvedExpr {
    make_expr(ResolvedExprKind::BoolLit { value }, bool_ty())
}

fn eq(a: i64, b: i64) -> ResolvedExpr {
    make_expr(ResolvedExprKind::Eq { lhs: Box::new(int_lit(a)), rhs: Box::new(int_lit(b)) }, bool_ty())
}

fn make_stmt(kind: ResolvedStmtKind) -> ResolvedStmt {
    ResolvedStmt { span: test_span(), kind }
}

fn var_def(name: &str, ty: Option<ResolvedType>, init: Option<ResolvedExpr>, scope_level: usize) -> VarDefinition {
    VarDefinition {
        name: name.to_string(),
        name_span: test_span(),
        var_type: ty,
        init,
        scope_level,
        span: test_span(),
    }
}

/// `let name: i32 = init;` (or without initializer).
fn let_int(name: &str, init: Option<i64>) -> ResolvedStmt {
    make_stmt(ResolvedStmtKind::Let {
        var_def: var_def(name, Some(int_ty()), init.map(int_lit), 0),
        init: init.map(int_lit),
        span: test_span(),
    })
}

fn expr_stmt(expr: ResolvedExpr) -> ResolvedStmt {
    make_stmt(ResolvedStmtKind::Expression { expr, span: test_span() })
}

fn no_structs() -> StructTable {
    StructTable { defs: vec![] }
}

#[test]
fn test_variable_is_known() {
    let var = Variable::new("x", int_ty(), Some(int_lit(10)), test_span());
    assert!(var.is_known());
    assert!(!var.is_unknown());
}

#[test]
fn test_variable_is_unknown() {
    let var = Variable::new("x", int_ty(), None, test_span());
    assert!(var.is_unknown());
    assert!(!var.is_known());
}

#[test]
fn test_constraint_problem_counts() {
    let mut problem = ConstraintProblem::new();
    assert_eq!(problem.variable_count(), 0);
    assert_eq!(problem.constraint_count(), 0);

    problem.add_variable(Variable::new("x", int_ty(), None, test_span()));
    assert_eq!(problem.variable_count(), 1);

    let expr = make_expr(ResolvedExprKind::Eq { lhs: Box::new(int_lit(1)), rhs: Box::new(int_lit(2)) }, int_ty());
    problem.add_constraint(Constraint::new(expr, test_span()));
    assert_eq!(problem.constraint_count(), 1);
}

#[test]
fn test_constraint_problem_filters() {
    let mut problem = ConstraintProblem::new();
    problem.add_variable(Variable::new("x", int_ty(), Some(int_lit(10)), test_span()));
    problem.add_variable(Variable::new("y", int_ty(), None, test_span()));

    assert_eq!(problem.known_variables().len(), 1);
    assert_eq!(problem.unknown_variables().len(), 1);
    assert_eq!(problem.known_variables()[0].name, "x");
    assert_eq!(problem.unknown_variables()[0].name, "y");
}

#[test]
fn test_extract_let_statement_with_init() {
    let result = extract_constraints(&no_structs(), vec![let_int("x", Some(10))]);
    assert!(result.is_ok());

    let problem = result.unwrap();
    assert_eq!(problem.variable_count(), 1);
    assert_eq!(problem.constraint_count(), 0);
    assert_eq!(problem.known_variables().len(), 1);
    assert_eq!(problem.variables[0].name, "x");
}

#[test]
fn test_extract_let_statement_without_init() {
    let result = extract_constraints(&no_structs(), vec![let_int("x", None)]);
    assert!(result.is_ok());

    let problem = result.unwrap();
    assert_eq!(problem.variable_count(), 1);
    assert_eq!(problem.constraint_count(), 0);
    assert_eq!(problem.unknown_variables().len(), 1);
    assert_eq!(problem.variables[0].name, "x");
}

#[test]
fn test_extract_constraint_expression() {
    let result = extract_constraints(&no_structs(), vec![expr_stmt(eq(1, 2))]);
    assert!(result.is_ok());

    let problem = result.unwrap();
    assert_eq!(problem.variable_count(), 0);
    assert_eq!(problem.constraint_count(), 1);
}

#[test]
fn test_multiple_variables_and_constraints() {
    let stmts = vec![let_int("x", Some(10)), let_int("y", None), expr_stmt(eq(1, 2))];
    let result = extract_constraints(&no_structs(), stmts);
    assert!(result.is_ok());

    let problem = result.unwrap();
    assert_eq!(problem.variable_count(), 2);
    assert_eq!(problem.constraint_count(), 1);
    assert_eq!(problem.known_variables().len(), 1);
    assert_eq!(problem.unknown_variables().len(), 1);
}

#[test]
fn test_is_comparison_expr() {
    let bin = |k: fn(Box<ResolvedExpr>, Box<ResolvedExpr>) -> ResolvedExprKind| {
        make_expr(k(Box::new(int_lit(1)), Box::new(int_lit(2))), int_ty())
    };
    assert!(is_comparison_expr(&bin(|lhs, rhs| ResolvedExprKind::Eq { lhs, rhs })));
    assert!(is_comparison_expr(&bin(|lhs, rhs| ResolvedExprKind::NotEq { lhs, rhs })));
    assert!(is_comparison_expr(&bin(|lhs, rhs| ResolvedExprKind::Lt { lhs, rhs })));
    assert!(is_comparison_expr(&bin(|lhs, rhs| ResolvedExprKind::Gt { lhs, rhs })));
    assert!(is_comparison_expr(&bin(|lhs, rhs| ResolvedExprKind::LtEq { lhs, rhs })));
    assert!(is_comparison_expr(&bin(|lhs, rhs| ResolvedExprKind::GtEq { lhs, rhs })));

    assert!(!is_comparison_expr(&int_lit(42)));
    assert!(!is_comparison_expr(&bin(|lhs, rhs| ResolvedExprKind::Add { lhs, rhs })));
}

#[test]
fn test_error_not_a_constraint() {
    let result = extract_constraints(&no_structs(), vec![expr_stmt(int_lit(42))]);
    assert!(result.is_err());
    let errors = result.unwrap_err();
    assert_eq!(errors.len(), 1);
    assert!(matches!(errors[0], ConstraintExtractorError::NotAConstraint { .. }));
}

#[test]
fn test_if_statement_with_empty_branches() {
    let stmt = make_stmt(ResolvedStmtKind::If {
        condition: boolean(true),
        then_branch: vec![],
        else_branch: None,
        span: test_span(),
    });
    let result = extract_constraints(&no_structs(), vec![stmt]);
    assert!(result.is_ok());

    let problem = result.unwrap();
    assert_eq!(problem.conditional_constraint_count(), 1);
    assert_eq!(problem.conditional_constraints[0].then_constraints.len(), 0);
    assert_eq!(problem.conditional_constraints[0].else_constraints.len(), 0);
}

#[test]
fn test_error_unsupported_for_statement() {
    let stmt = make_stmt(ResolvedStmtKind::For {
        loop_var_def: var_def("i", Some(int_ty()), None, 1),
        iterator: int_lit(0),
        body: vec![],
        span: test_span(),
    });
    let result = extract_constraints(&no_structs(), vec![stmt]);
    assert!(result.is_err());
    let errors = result.unwrap_err();
    assert_eq!(errors.len(), 1);
    assert!(matches!(
        errors[0],
        ConstraintExtractorError::UnsupportedStatement { ref statement_type, .. }
        if statement_type == "for"
    ));
}

#[test]
fn test_struct_def_allowed() {
    let table = StructTable {
        defs: vec![StructDefinition {
            name: "Point".to_string(),
            name_span: test_span(),
            fields: vec![],
            span: test_span(),
        }],
    };
    let stmt = make_stmt(ResolvedStmtKind::StructDef { struct_def: 0, methods: vec![], span: test_span() });

    let result = extract_constraints(&table, vec![stmt]);
    assert!(result.is_ok());
    let problem = result.unwrap();
    assert_eq!(problem.variables.len(), 0);
    assert_eq!(problem.constraints.len(), 0);
}

#[test]
fn test_function_def_skipped() {
    let func_def = FunctionDefinition {
        name: "foo".to_string(),
        name_span: test_span(),
        params: vec![],
        return_type: int_ty(),
        parent_struct: None,
        span: test_span(),
    };
    let stmt = make_stmt(ResolvedStmtKind::FunctionDef {
        func_def,
        body: vec![],
        return_expr: None,
        span: test_span(),
    });

    let result = extract_constraints(&no_structs(), vec![stmt]);
    assert!(result.is_ok());
    let problem = result.unwrap();
    assert_eq!(problem.constraints.len(), 0);
}

#[test]
fn test_error_missing_type_info() {
    let stmt = make_stmt(ResolvedStmtKind::Let {
        var_def: var_def("x", None, None, 0),
        init: None,
        span: test_span(),
    });
    let result = extract_constraints(&no_structs(), vec![stmt]);
    assert!(result.is_err());
    let errors = result.unwrap_err();
    assert_eq!(errors.len(), 1);
    assert!(matches!(
        errors[0],
        ConstraintExtractorError::MissingTypeInfo { ref var_name, .. }
        if var_name == "x"
    ));
}

#[test]
fn test_block_statement_recursion() {
    let inner = make_stmt(ResolvedStmtKind::Let {
        var_def: var_def("x", Some(int_ty()), None, 1),
        init: None,
        span: test_span(),
    });
    let block = make_stmt(ResolvedStmtKind::Block { statements: vec![inner], span: test_span() });

    let result = extract_constraints(&no_structs(), vec![block]);
    assert!(result.is_ok());
    let problem = result.unwrap();
    assert_eq!(problem.variable_count(), 1);
    assert_eq!(problem.variables[0].name, "x");
}

#[test]
fn test_error_display_unsupported_statement() {
    let error = ConstraintExtractorError::UnsupportedStatement {
        statement_type: "if".to_string(),
        span: test_span(),
        message: "Control flow is not supported".to_string(),
    };
    let display = error.to_text();
    assert!(display.contains("if"));
    assert!(display.contains("Control flow is not supported"));
}

#[test]
fn test_error_display_not_a_constraint() {
    let error = ConstraintExtractorError::NotAConstraint { span: test_span() };
    let display = error.to_text();
    assert!(display.contains("not a constraint"));
    assert!(display.contains("comparison"));
}

#[test]
fn test_error_display_missing_type_info() {
    let error = ConstraintExtractorError::MissingTypeInfo { var_name: "x".to_string(), span: test_span() };
    let display = error.to_text();
    assert!(display.contains("x"));
    assert!(display.contains("no type information"));
}

#[test]
fn test_if_statement_with_then_branch_only() {
    let stmt = make_stmt(ResolvedStmtKind::If {
        condition: boolean(true),
        then_branch: vec![expr_stmt(eq(1, 10))],
        else_branch: None,
        span: test_span(),
    });
    let result = extract_constraints(&no_structs(), vec![stmt]);
    assert!(result.is_ok());
    let problem = result.unwrap();
    assert_eq!(problem.conditional_constraint_count(), 1);
    assert_eq!(problem.conditional_constraints[0].then_constraints.len(), 1);
    assert_eq!(problem.conditional_constraints[0].else_constraints.len(), 0);
}

#[test]
fn test_if_statement_with_else_branch() {
    let condition = make_expr(ResolvedExprKind::Gt { lhs: Box::new(int_lit(1)), rhs: Box::new(int_lit(0)) }, bool_ty());
    let stmt = make_stmt(ResolvedStmtKind::If {
        condition,
        then_branch: vec![expr_stmt(eq(2, 10))],
        else_branch: Some(vec![expr_stmt(eq(2, 0))]),
        span: test_span(),
    });
    let result = extract_constraints(&no_structs(), vec![stmt]);
    assert!(result.is_ok());
    let problem = result.unwrap();
    assert_eq!(problem.conditional_constraint_count(), 1);
    assert_eq!(problem.conditional_constraints[0].then_constraints.len(), 1);
    assert_eq!(problem.conditional_constraints[0].else_constraints.len(), 1);
}

#[test]
fn test_if_statement_with_multiple_constraints() {
    let stmt = make_stmt(ResolvedStmtKind::If {
        condition: boolean(true),
        then_branch: vec![expr_stmt(eq(1, 10)), expr_stmt(eq(2, 20))],
        else_branch: None,
        span: test_span(),
    });
    let result = extract_constraints(&no_structs(), vec![stmt]);
    assert!(result.is_ok());
    let problem = result.unwrap();
    assert_eq!(problem.conditional_constraint_count(), 1);
    assert_eq!(problem.conditional_constraints[0].then_constraints.len(), 2);
}

#[test]
fn test_error_variable_declaration_in_then_branch() {
    let stmt = make_stmt(ResolvedStmtKind::If {
        condition: boolean(true),
        then_branch: vec![let_int("x", None)],
        else_branch: None,
        span: test_span(),
    });
    let result = extract_constraints(&no_structs(), vec![stmt]);
    assert!(result.is_err());
    let errors = result.unwrap_err();
    assert_eq!(errors.len(), 1);
    assert!(matches!(
        errors[0],
        ConstraintExtractorError::UnsupportedStatement { ref statement_type, .. }
        if statement_type == "let in conditional branch"
    ));
}

#[test]
fn test_error_variable_declaration_in_else_branch() {
    let stmt = make_stmt(ResolvedStmtKind::If {
        condition: boolean(true),
        then_branch: vec![expr_stmt(eq(1, 2))],
        else_branch: Some(vec![let_int("y", None)]),
        span: test_span(),
    });
    let result = extract_constraints(&no_structs(), vec![stmt]);
    assert!(result.is_err());
    let errors = result.unwrap_err();
    assert_eq!(errors.len(), 1);
    assert!(matches!(
        errors[0],
        ConstraintExtractorError::UnsupportedStatement { ref statement_type, .. }
        if statement_type == "let in conditional branch"
    ));
}

#[test]
fn test_error_nested_if_statement() {
    let inner_if = make_stmt(ResolvedStmtKind::If {
        condition: boolean(false),
        then_branch: vec![],
        else_branch: None,
        span: test_span(),
    });
    let outer_if = make_stmt(ResolvedStmtKind::If {
        condition: boolean(true),
        then_branch: vec![inner_if],
        else_branch: None,
        span: test_span(),
    });
    let result = extract_constraints(&no_structs(), vec![outer_if]);
    assert!(result.is_err());
    let errors = result.unwrap_err();
    assert_eq!(errors.len(), 1);
    assert!(matches!(
        errors[0],
        ConstraintExtractorError::UnsupportedStatement { ref statement_type, .. }
        if statement_type == "nested if"
    ));
}

#[test]
fn test_if_statement_with_block_in_branch() {
    let block = make_stmt(ResolvedStmtKind::Block { statements: vec![expr_stmt(eq(1, 10))], span: test_span() });
    let stmt = make_stmt(ResolvedStmtKind::If {
        condition: boolean(true),
        then_branch: vec![block],
        else_branch: None,
        span: test_span(),
    });
    let result = extract_constraints(&no_structs(), vec![stmt]);
    assert!(result.is_ok());
    let problem = result.unwrap();
    assert_eq!(problem.conditional_constraint_count(), 1);
    assert_eq!(problem.conditional_constraints[0].then_constraints.len(), 1);
}

#[test]
fn test_conditional_constraint_helper_methods() {
    let mut problem = ConstraintProblem::new();
    assert_eq!(problem.conditional_constraint_count(), 0);

    let conditional = ConditionalConstraint::new(
        boolean(true),
        vec![Constraint::new(eq(1, 2), test_span())],
        vec![],
        test_span(),
    );
    problem.add_conditional_constraint(conditional);
    assert_eq!(problem.conditional_constraint_count(), 1);
}

// Every failing top-level statement contributes its error, in order; the
// statements after a failing one are still processed.
#[test]
fn extraction_reports_every_failing_statement_in_order() {
    let for_stmt = make_stmt(ResolvedStmtKind::For {
        loop_var_def: var_def("i", Some(int_ty()), None, 1),
        iterator: int_lit(0),
        body: vec![],
        span: test_span(),
    });
    let stmts = vec![expr_stmt(int_lit(1)), let_int("x", None), for_stmt, expr_stmt(eq(1, 1))];
    let errors = extract_constraints(&no_structs(), stmts).unwrap_err();
    assert_eq!(errors.len(), 2);
    assert!(matches!(errors[0], ConstraintExtractorError::NotAConstraint { .. }));
    assert!(matches!(
        errors[1],
        ConstraintExtractorError::UnsupportedStatement { ref statement_type, ref message, .. }
        if statement_type == "for" && message == "Loops are not supported in constraint problems"
    ));
}

#[test]
fn extractor_error_texts_are_exact() {
    let span = Span { start: LineColumn { line: 3, column: 14 }, lines: 0, end_column: 20 };
    assert_eq!(
        ConstraintExtractorError::NotAConstraint { span }.to_text(),
        "Expression statement at line 3, column 14 is not a constraint (must be a comparison)"
    );
    assert_eq!(
        ConstraintExtractorError::MissingTypeInfo { var_name: "w".to_string(), span }.to_text(),
        "Variable 'w' at line 3, column 14 has no type information"
    );
    assert_eq!(
        ConstraintExtractorError::UnsupportedStatement {
            statement_type: "with".to_string(),
            span,
            message: "m".to_string(),
        }
        .to_text(),
        "Unsupported statement type 'with' at line 3, column 14: m"
    );
    assert_eq!(
        ConstraintExtractorError::RecursiveStruct {
            cycle_path: vec!["A".to_string(), "B".to_string(), "A".to_string()],
            span,
        }
        .to_text(),
        "Recursive struct detected at line 3, column 14: A → B → A. Recursive structs cannot be solved."
    );
}

#[test]
fn default_problem_is_empty() {
    let p = ConstraintProblem::default();
    assert_eq!(p.variable_count(), 0);
    assert_eq!(p.constraint_count(), 0);
    assert_eq!(p.conditional_constraint_count(), 0);
}

#[test]
fn known_and_unknown_variables_split_the_variables() {
    let mut p = ConstraintProblem::new();
    p.add_variable(Variable::new("a", ResolvedType::I32 { span: test_span() }, None, test_span()));
    p.add_variable(Variable::new("b", ResolvedType::I32 { span: test_span() },
        Some(ResolvedExpr { span: test_span(), kind: ResolvedExprKind::IntLit { value: 3 }, ty: ResolvedType::I32 { span: test_span() } }),
        test_span()));
    p.add_variable(Variable::new("c", ResolvedType::Bool { span: test_span() }, None, test_span()));
    let unknown: Vec<&str> = p.unknown_variables().iter().map(|v| v.name.as_str()).collect();
    let known: Vec<&str> = p.known_variables().iter().map(|v| v.name.as_str()).collect();
    assert_eq!(unknown, vec!["a", "c"]);
    assert_eq!(known, vec!["b"]);
    assert_eq!(unknown.len() + known.len(), p.variable_count());
}
