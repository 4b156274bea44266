use cad_solver::hir::{
    Callee, FunctionDefinition, ResolvedExpr, ResolvedExprKind, ResolvedStmt, ResolvedStmtKind,
    ResolvedStructLitField, ResolvedType, VarDefinition,
};
use cad_solver::lexer::{LineColumn, Span};
use cad_solver::solver::function_inliner::{inline_functions, substitute_parameters, FunctionInlinerError};

fn sp(line: usize) -> Span {
    Span { start: LineColumn { line, column: 1 }, lines: 0, end_column: 10 }
}

fn int_ty() -> ResolvedType {
    ResolvedType::I32 { span: sp(1) }
}

fn e(kind: ResolvedExprKind) -> ResolvedExpr {
    ResolvedExpr { span: sp(1), kind, ty: int_ty() }
}

fn lit(value: i64) -> ResolvedExpr {
    e(ResolvedExprKind::IntLit { value })
}

fn var(name: &str) -> ResolvedExpr {
    e(ResolvedExprKind::Var { name: name.to_string() })
}

fn add(l: ResolvedExpr, r: ResolvedExpr) -> ResolvedExpr {
    e(ResolvedExprKind::Add { lhs: Box::new(l), rhs: Box::new(r) })
}

fn callee(name: &str, parent: Option<&str>, params: &[&str]) -> Callee {
    Callee {
        name: name.to_string(),
        parent_struct: parent.map(|p| p.to_string()),
        param_names: params.iter().map(|p| p.to_string()).collect(),
    }
}

fn call(name: &str, params: &[&str], args: Vec<ResolvedExpr>) -> ResolvedExpr {
    e(ResolvedExprKind::FunctionCall { name: name.to_string(), callee: callee(name, None, params), args })
}

fn param(name: &str) -> VarDefinition {
    VarDefinition {
        name: name.to_string(),
        name_span: sp(1),
        var_type: Some(int_ty()),
        init: None,
        scope_level: 1,
        span: sp(1),
    }
}

fn stmt(kind: ResolvedStmtKind) -> ResolvedStmt {
    ResolvedStmt { span: sp(1), kind }
}

/// `fn name(params) { return body; }` (or with an implicit return expression).
fn fn_def(name: &str, parent: Option<&str>, params: &[&str], body: ResolvedExpr, explicit_return: bool) -> ResolvedStmt {
    let func_def = FunctionDefinition {
        name: name.to_string(),
        name_span: sp(1),
        params: params.iter().map(|p| param(p)).collect(),
        return_type: int_ty(),
        parent_struct: parent.map(|p| p.to_string()),
        span: sp(1),
    };
    if explicit_return {
        stmt(ResolvedStmtKind::FunctionDef {
            func_def,
            body: vec![stmt(ResolvedStmtKind::Return { value: Some(body), span: sp(1) })],
            return_expr: None,
            span: sp(1),
        })
    } else {
        stmt(ResolvedStmtKind::FunctionDef { func_def, body: vec![], return_expr: Some(body), span: sp(1) })
    }
}

fn let_stmt(name: &str, init: ResolvedExpr) -> ResolvedStmt {
    stmt(ResolvedStmtKind::Let { var_def: param(name), init: Some(init), span: sp(1) })
}

/// A compact rendering of an expression, for comparisons.
fn show(x: &ResolvedExpr) -> String {
    match &x.kind {
        ResolvedExprKind::IntLit { value } => value.to_string(),
        ResolvedExprKind::Var { name } => name.clone(),
        ResolvedExprKind::Add { lhs, rhs } => format!("({} + {})", show(lhs), show(rhs)),
        ResolvedExprKind::Mul { lhs, rhs } => format!("({} * {})", show(lhs), show(rhs)),
        ResolvedExprKind::FieldAccess { receiver, field_name } => format!("{}.{}", show(receiver), field_name),
        ResolvedExprKind::FunctionCall { name, args, .. } => {
            format!("{}({})", name, args.iter().map(show).collect::<Vec<_>>().join(", "))
        }
        ResolvedExprKind::StructLit { name, fields } => {
            let parts: Vec<String> = fields
                .iter()
                .map(|f| match f {
                    ResolvedStructLitField::Field { name, value, .. } => format!("{}: {}", name, show(value)),
                    ResolvedStructLitField::ComputedProperty { name, value, .. } => format!("{}() = {}", name, show(value)),
                })
                .collect();
            format!("{} {{ {} }}", name, parts.join(", "))
        }
        other => format!("{:?}", other),
    }
}

fn init_of(s: &ResolvedStmt) -> String {
    match &s.kind {
        ResolvedStmtKind::Let { init: Some(x), .. } => show(x),
        other => panic!("not a let: {:?}", other),
    }
}

#[test]
fn call_is_replaced_by_the_substituted_return_expression() {
    let stmts = vec![
        fn_def("add", None, &["a", "b"], add(var("a"), var("b")), true),
        let_stmt("x", call("add", &["a", "b"], vec![lit(10), lit(20)])),
    ];
    let out = inline_functions(stmts).unwrap();
    // The definition is dropped; the call becomes `10 + 20`.
    assert_eq!(out.len(), 1);
    assert_eq!(init_of(&out[0]), "(10 + 20)");
}

#[test]
fn implicit_return_expression_is_used() {
    let stmts = vec![
        let_stmt("y", call("double", &["v"], vec![var("z")])),
        fn_def("double", None, &["v"], add(var("v"), var("v")), false),
    ];
    let out = inline_functions(stmts).unwrap();
    // Functions are collected before inlining: a call before the definition works, and a
    // parameter used twice gets the argument twice.
    assert_eq!(init_of(&out[0]), "(z + z)");
}

#[test]
fn calls_in_arguments_are_inlined_first() {
    let stmts = vec![
        fn_def("inc", None, &["n"], add(var("n"), lit(1)), true),
        fn_def("twice", None, &["m"], add(var("m"), var("m")), true),
        let_stmt("r", call("twice", &["m"], vec![call("inc", &["n"], vec![lit(4)])])),
    ];
    let out = inline_functions(stmts).unwrap();
    assert_eq!(init_of(&out[0]), "((4 + 1) + (4 + 1))");
}

#[test]
fn calls_in_a_function_body_are_inlined_too() {
    let stmts = vec![
        fn_def("inc", None, &["n"], add(var("n"), lit(1)), true),
        fn_def("inc2", None, &["k"], call("inc", &["n"], vec![var("k")]), true),
        let_stmt("r", call("inc2", &["k"], vec![lit(7)])),
    ];
    let out = inline_functions(stmts).unwrap();
    assert_eq!(init_of(&out[0]), "(7 + 1)");
}

#[test]
fn nested_calls_of_one_function_are_not_recursive() {
    let stmts = vec![
        fn_def("f", None, &["a"], add(var("a"), lit(1)), true),
        let_stmt("y", call("f", &["a"], vec![call("f", &["a"], vec![lit(1)])])),
    ];
    let out = inline_functions(stmts).unwrap();
    assert_eq!(init_of(&out[0]), "((1 + 1) + 1)");
}

#[test]
fn method_call_binds_self_to_the_receiver() {
    let method = fn_def(
        "sum",
        Some("Point"),
        &["k"],
        add(add(e(ResolvedExprKind::FieldAccess { receiver: Box::new(var("self")), field_name: "x".to_string() }), var("k")), lit(0)),
        true,
    );
    let struct_def = stmt(ResolvedStmtKind::StructDef { struct_def: 0, methods: vec![method], span: sp(1) });
    let mcall = e(ResolvedExprKind::MethodCall {
        receiver: Box::new(var("p")),
        method_name: "sum".to_string(),
        callee: callee("sum", Some("Point"), &["k"]),
        args: vec![lit(3)],
    });
    let out = inline_functions(vec![struct_def, let_stmt("s", mcall)]).unwrap();
    assert_eq!(out.len(), 1);
    assert_eq!(init_of(&out[0]), "((p.x + 3) + 0)");
}

#[test]
fn recursive_call_is_refused_with_the_call_chain() {
    // `f` calls itself in its return expression.
    let stmts = vec![
        fn_def("f", None, &["a"], call("f", &["a"], vec![var("a")]), true),
        let_stmt("y", call("f", &["a"], vec![lit(1)])),
    ];
    match inline_functions(stmts) {
        Err(FunctionInlinerError::RecursiveCall { function_name, call_chain, .. }) => {
            assert_eq!(function_name, "f");
            assert_eq!(call_chain, vec!["f".to_string(), "f".to_string()]);
        }
        other => panic!("unexpected {:?}", other.map(|v| v.len())),
    }
}

#[test]
fn unknown_function_is_refused() {
    let stmts = vec![let_stmt("x", call("missing", &[], vec![]))];
    match inline_functions(stmts) {
        Err(FunctionInlinerError::NoReturnStatement { function_name, .. }) => assert_eq!(function_name, "missing"),
        other => panic!("unexpected {:?}", other.map(|v| v.len())),
    }
}

#[test]
fn function_without_return_is_refused() {
    let func_def = FunctionDefinition {
        name: "nothing".to_string(),
        name_span: sp(1),
        params: vec![],
        return_type: int_ty(),
        parent_struct: None,
        span: sp(1),
    };
    let def = stmt(ResolvedStmtKind::FunctionDef { func_def, body: vec![], return_expr: None, span: sp(4) });
    match inline_functions(vec![def]) {
        Err(FunctionInlinerError::NoReturnStatement { function_name, span }) => {
            assert_eq!(function_name, "nothing");
            assert_eq!(span, sp(4));
        }
        other => panic!("unexpected {:?}", other.map(|v| v.len())),
    }
}

#[test]
fn nested_definitions_and_other_statements_are_kept() {
    let inner_def = fn_def("g", None, &[], lit(5), true);
    let block = stmt(ResolvedStmtKind::Block {
        statements: vec![inner_def, let_stmt("b", call("g", &[], vec![]))],
        span: sp(1),
    });
    let out = inline_functions(vec![block]).unwrap();
    assert_eq!(out.len(), 1);
    match &out[0].kind {
        ResolvedStmtKind::Block { statements, .. } => {
            assert_eq!(statements.len(), 2);
            assert!(matches!(statements[0].kind, ResolvedStmtKind::FunctionDef { .. }));
            assert_eq!(init_of(&statements[1]), "5");
        }
        other => panic!("unexpected {:?}", other),
    }
}

#[test]
fn substitution_replaces_bound_variables_only() {
    let body = e(ResolvedExprKind::StructLit {
        name: "P".to_string(),
        fields: vec![
            ResolvedStructLitField::Field { name: "x".to_string(), value: var("a"), span: sp(1) },
            ResolvedStructLitField::Field { name: "y".to_string(), value: var("c"), span: sp(1) },
        ],
    });
    let map = vec![("a".to_string(), lit(1)), ("a".to_string(), lit(2))];
    let out = substitute_parameters(&body, &map).unwrap();
    // The last binding of a name counts; unbound variables stay.
    assert_eq!(show(&out), "P { x: 2, y: c }");
}

#[test]
fn inliner_error_texts() {
    let err = FunctionInlinerError::RecursiveCall {
        function_name: "f".to_string(),
        call_chain: vec!["g".to_string(), "f".to_string()],
        span: sp(3),
    };
    assert_eq!(err.to_text(), "Recursive function call to 'f' at line 3, column 1. Call chain: g -> f");
    let err = FunctionInlinerError::NoReturnStatement { function_name: "h".to_string(), span: sp(2) };
    assert_eq!(err.to_text(), "Function 'h' at line 2, column 1 has no return statement");
    let err = FunctionInlinerError::UnsupportedControlFlow {
        function_name: "h".to_string(),
        statement_type: "for".to_string(),
        span: sp(2),
    };
    assert_eq!(err.to_text(), "Function 'h' at line 2, column 1 has unsupported control flow: for");
}

#[test]
fn substituting_no_parameters_leaves_the_expression_as_it_is() {
    let expr = add(var("a"), e(ResolvedExprKind::Neg { inner: Box::new(var("b")) }));
    let out = substitute_parameters(&expr, &vec![]).unwrap();
    assert_eq!(show(&out), show(&expr));
}

#[test]
fn statements_without_calls_are_kept_unchanged() {
    let stmts = vec![let_stmt("x", add(lit(1), var("y")))];
    let out = inline_functions(stmts).unwrap();
    assert_eq!(out.len(), 1);
    assert_eq!(init_of(&out[0]), "(1 + y)");
}
