use cad_solver::hir::{FieldDefinition, ResolvedExpr, ResolvedExprKind, ResolvedType, StructDefinition, StructTable};
use cad_solver::lexer::{LineColumn, Span};
use cad_solver::solver::context::{SolverContext, SolverError, Value, VariableNode, Z3Primitive, int_reading, real_reading, bool_reading};
use cad_solver::solver::{PathComponent, VariablePath};

fn test_span() -> Span {
    Span { start: LineColumn { line: 1, column: 1 }, lines: 0, end_column: 10 }
}

fn i32_ty() -> ResolvedType {
    ResolvedType::I32 { span: test_span() }
}

fn f64_ty() -> ResolvedType {
    ResolvedType::F64 { span: test_span() }
}

fn bool_ty() -> ResolvedType {
    ResolvedType::Bool { span: test_span() }
}

fn field(name: &str, field_type: ResolvedType) -> FieldDefinition {
    FieldDefinition { name: name.to_string(), name_span: test_span(), field_type, span: test_span() }
}

fn struct_def(name: &str, fields: Vec<FieldDefinition>) -> StructDefinition {
    StructDefinition { name: name.to_string(), name_span: test_span(), fields, span: test_span() }
}

fn user(name: &str, definition: usize) -> ResolvedType {
    ResolvedType::UserDefined { name: name.to_string(), definition, span: test_span() }
}

fn array(element: ResolvedType, size: usize) -> ResolvedType {
    ResolvedType::Array { element_type: Box::new(element), size, span: test_span() }
}

/// Point { x: i32, y: f64 }
fn table() -> StructTable {
    StructTable { defs: vec![struct_def("Point", vec![field("x", i32_ty()), field("y", f64_ty())])] }
}

fn context(table: &StructTable) -> SolverContext<'_> {
    let z3_solver = z3::Solver::new();
    let z3_ctx = z3_solver.get_context().clone();
    SolverContext::new(z3_ctx, z3_solver, table)
}

fn is_int_leaf(node: Option<&VariableNode>) -> bool {
    matches!(node.and_then(|n| n.as_primitive()), Some(Z3Primitive::Int(_)))
}

fn is_real_leaf(node: Option<&VariableNode>) -> bool {
    matches!(node.and_then(|n| n.as_primitive()), Some(Z3Primitive::Real(_)))
}

fn is_bool_leaf(node: Option<&VariableNode>) -> bool {
    matches!(node.and_then(|n| n.as_primitive()), Some(Z3Primitive::Bool(_)))
}

fn int_leaf<'a>(ctx: &'a SolverContext<'a>, path: &VariablePath<'a>) -> &'a z3::ast::Int {
    match ctx.get_variable(path).and_then(|n| n.as_primitive()) {
        Some(Z3Primitive::Int(i)) => i.ast(),
        _ => panic!("not an integer variable"),
    }
}

#[test]
fn test_basic_context_creation() {
    let table = StructTable { defs: vec![] };
    let z3_solver = z3::Solver::new();
    let z3_ctx = z3_solver.get_context().clone();
    let ctx = SolverContext::new(z3_ctx, z3_solver, &table);
    assert!(ctx.get_variable(&VariablePath::from_name("x")).is_none());
    assert!(ctx.get_current_solution().is_none());
}

#[test]
fn declared_primitive_is_a_leaf_of_its_sort() {
    let table = table();
    let (i, f, b) = (i32_ty(), f64_ty(), bool_ty());
    let mut ctx = context(&table);
    assert!(ctx.declare_variable_at_path(&VariablePath::from_name("n"), &i).is_ok());
    assert!(ctx.declare_variable_at_path(&VariablePath::from_name("r"), &f).is_ok());
    assert!(ctx.declare_variable_at_path(&VariablePath::from_name("flag"), &b).is_ok());
    assert!(is_int_leaf(ctx.get_variable(&VariablePath::from_name("n"))));
    assert!(is_real_leaf(ctx.get_variable(&VariablePath::from_name("r"))));
    assert!(is_bool_leaf(ctx.get_variable(&VariablePath::from_name("flag"))));
    assert!(ctx.get_variable(&VariablePath::from_name("missing")).is_none());
}

#[test]
fn declared_struct_has_one_child_per_field() {
    let table = table();
    let ty = user("Point", 0);
    let mut ctx = context(&table);
    assert!(ctx.declare_variable_at_path(&VariablePath::from_name("p"), &ty).is_ok());
    let p = VariablePath::from_name("p");
    assert!(matches!(ctx.get_variable(&p), Some(VariableNode::Struct { .. })));
    assert!(is_int_leaf(ctx.get_variable(&p.with_field("x"))));
    assert!(is_real_leaf(ctx.get_variable(&p.with_field("y"))));
    assert!(ctx.get_variable(&p.with_field("z")).is_none());
    assert!(ctx.get_variable(&p.with_index(0)).is_none());
}

#[test]
fn declared_array_has_one_child_per_element() {
    let table = table();
    let ty = array(user("Point", 0), 2);
    let mut ctx = context(&table);
    assert!(ctx.declare_variable_at_path(&VariablePath::from_name("pts"), &ty).is_ok());
    let pts = VariablePath::from_name("pts");
    assert!(is_int_leaf(ctx.get_variable(&pts.with_index(1).with_field("x"))));
    assert!(ctx.get_variable(&pts.with_index(2)).is_none());
    assert!(ctx.get_variable(&pts.with_field("x")).is_none());
}

#[test]
fn leaf_constants_are_named_by_their_path() {
    let table = table();
    let ty = array(user("Point", 0), 2);
    let mut ctx = context(&table);
    ctx.declare_variable_at_path(&VariablePath::from_name("pts"), &ty).unwrap();
    let x = int_leaf(&ctx, &VariablePath::from_name("pts").with_index(1).with_field("x"));
    assert_eq!(x.to_string(), "|pts[1].x|");
}

#[test]
fn unsupported_primitive_type_is_refused() {
    let table = table();
    let ty = ResolvedType::Real { span: test_span() };
    let mut ctx = context(&table);
    match ctx.declare_variable_at_path(&VariablePath::from_name("r"), &ty) {
        Err(SolverError::UnsupportedType(name)) => assert_eq!(name, "Real"),
        other => panic!("unexpected {:?}", other),
    }
    assert!(ctx.get_variable(&VariablePath::from_name("r")).is_none());
}

#[test]
fn nested_declaration_adds_a_struct_field() {
    let table = table();
    let (point, i) = (user("Point", 0), i32_ty());
    let mut ctx = context(&table);
    ctx.declare_variable_at_path(&VariablePath::from_name("p"), &point).unwrap();
    let extra = VariablePath::from_name("p").with_field("extra");
    assert!(ctx.declare_variable_at_path(&extra, &i).is_ok());
    assert!(is_int_leaf(ctx.get_variable(&extra)));
    assert!(is_int_leaf(ctx.get_variable(&VariablePath::from_name("p").with_field("x"))));
}

#[test]
fn nested_declaration_errors() {
    let table = table();
    let i = i32_ty();
    let mut ctx = context(&table);
    ctx.declare_variable_at_path(&VariablePath::from_name("n"), &i).unwrap();
    match ctx.declare_variable_at_path(&VariablePath::from_name("q").with_field("x"), &i) {
        Err(SolverError::UndefinedVariable(name)) => assert_eq!(name, "q"),
        other => panic!("unexpected {:?}", other),
    }
    match ctx.declare_variable_at_path(&VariablePath::from_name("n").with_field("x"), &i) {
        Err(SolverError::ContextError(m)) => assert_eq!(m, "Cannot add field to non-struct variable"),
        other => panic!("unexpected {:?}", other),
    }
    match ctx.declare_variable_at_path(&VariablePath::from_name("n").with_field("a").with_field("b"), &i) {
        Err(SolverError::UndefinedVariable(m)) => assert_eq!(m, "Parent path not found for variable declaration"),
        other => panic!("unexpected {:?}", other),
    }
    match ctx.declare_variable_at_path(&VariablePath::from_name("n").with_index(0), &i) {
        Err(SolverError::ContextError(m)) => assert_eq!(m, "Last component must be a field name"),
        other => panic!("unexpected {:?}", other),
    }
    let index_root = VariablePath { components: vec![PathComponent::Index(0)] };
    match ctx.declare_variable_at_path(&index_root, &i) {
        Err(SolverError::ContextError(m)) => assert_eq!(m, "Invalid path for variable declaration"),
        other => panic!("unexpected {:?}", other),
    }
    let index_parent = VariablePath { components: vec![PathComponent::Index(0), PathComponent::Field("x")] };
    match ctx.declare_variable_at_path(&index_parent, &i) {
        Err(SolverError::ContextError(m)) => assert_eq!(m, "Parent path must start with a field"),
        other => panic!("unexpected {:?}", other),
    }
}

#[test]
fn redeclaring_a_root_replaces_it() {
    let table = table();
    let (i, b) = (i32_ty(), bool_ty());
    let mut ctx = context(&table);
    ctx.declare_variable_at_path(&VariablePath::from_name("v"), &i).unwrap();
    ctx.declare_variable_at_path(&VariablePath::from_name("v"), &b).unwrap();
    assert!(is_bool_leaf(ctx.get_variable(&VariablePath::from_name("v"))));
}

#[test]
fn aliases_are_followed_to_their_target() {
    let table = table();
    let i = i32_ty();
    let mut ctx = context(&table);
    ctx.declare_variable_at_path(&VariablePath::from_name("x"), &i).unwrap();
    ctx.register_alias(VariablePath::from_name("r2"), VariablePath::from_name("x"));
    ctx.register_alias(VariablePath::from_name("r1"), VariablePath::from_name("r2"));
    assert_eq!(ctx.resolve_alias(&VariablePath::from_name("r1")).to_z3_name(), "x");
    assert_eq!(ctx.resolve_alias(&VariablePath::from_name("x")).to_z3_name(), "x");
    assert!(is_int_leaf(ctx.get_variable(&VariablePath::from_name("r1"))));
}

#[test]
fn circular_aliases_resolve_to_the_path_itself() {
    let table = table();
    let mut ctx = context(&table);
    ctx.register_alias(VariablePath::from_name("a"), VariablePath::from_name("b"));
    ctx.register_alias(VariablePath::from_name("b"), VariablePath::from_name("a"));
    assert_eq!(ctx.resolve_alias(&VariablePath::from_name("a")).to_z3_name(), "a");
    assert_eq!(ctx.resolve_alias(&VariablePath::from_name("b")).to_z3_name(), "b");
}

#[test]
fn registering_an_alias_again_replaces_its_target() {
    let table = table();
    let mut ctx = context(&table);
    ctx.register_alias(VariablePath::from_name("r"), VariablePath::from_name("a"));
    ctx.register_alias(VariablePath::from_name("r"), VariablePath::from_name("b"));
    assert_eq!(ctx.resolve_alias(&VariablePath::from_name("r")).to_z3_name(), "b");
}

#[test]
fn function_returns_are_registered_by_name() {
    let table = table();
    let e1 = ResolvedExpr { span: test_span(), kind: ResolvedExprKind::IntLit { value: 1 }, ty: i32_ty() };
    let e2 = ResolvedExpr { span: test_span(), kind: ResolvedExprKind::IntLit { value: 2 }, ty: i32_ty() };
    let mut ctx = context(&table);
    assert!(ctx.get_function_return("f").is_none());
    ctx.register_function_return("f", &e1);
    ctx.register_function_return("g", &e2);
    assert!(matches!(ctx.get_function_return("f").map(|e| &e.kind), Some(ResolvedExprKind::IntLit { value: 1 })));
    ctx.register_function_return("f", &e2);
    assert!(matches!(ctx.get_function_return("f").map(|e| &e.kind), Some(ResolvedExprKind::IntLit { value: 2 })));
}

#[test]
fn get_at_path_mut_changes_the_tree_in_place() {
    let mut tree = VariableNode::Struct {
        children: vec![("a", VariableNode::Array { children: vec![VariableNode::Struct { children: vec![] }] })],
    };
    let path = [PathComponent::Field("a"), PathComponent::Index(0)];
    match tree.get_at_path_mut(&path) {
        Some(VariableNode::Struct { children }) => children.push(("b", VariableNode::Array { children: vec![] })),
        _ => panic!("path should lead to a struct"),
    }
    let b = [PathComponent::Field("a"), PathComponent::Index(0), PathComponent::Field("b")];
    assert!(matches!(tree.get_at_path(&b), Some(VariableNode::Array { .. })));
    assert!(tree.get_at_path_mut(&[PathComponent::Index(0)]).is_none());
}

#[test]
fn solution_reads_values_and_marks_open_variables() {
    let table = table();
    let (point, i) = (user("Point", 0), i32_ty());
    let mut ctx = context(&table);
    ctx.declare_variable_at_path(&VariablePath::from_name("x"), &i).unwrap();
    ctx.declare_variable_at_path(&VariablePath::from_name("p"), &point).unwrap();
    ctx.declare_variable_at_path(&VariablePath::from_name("__shadow_x"), &i).unwrap();
    let x = int_leaf(&ctx, &VariablePath::from_name("x")).clone();
    let px = int_leaf(&ctx, &VariablePath::from_name("p").with_field("x")).clone();
    ctx.z3_solver.raw().assert(&x.eq(z3::ast::Int::from_i64(5)));
    ctx.z3_solver.raw().assert(&px.eq(&x + z3::ast::Int::from_i64(2)));
    assert_eq!(ctx.z3_solver.raw().check(), z3::SatResult::Sat);
    let solution = ctx.extract_solution().unwrap();
    let value_of = |name: &str| {
        solution.assignments.iter().find(|(p, _)| p.to_z3_name() == name).map(|(_, v)| *v)
    };
    assert_eq!(value_of("x"), Some(Value::Int(5)));
    assert_eq!(value_of("p.x"), Some(Value::Int(7)));
    assert_eq!(value_of("p.y"), Some(Value::UnderConstrained));
    assert_eq!(value_of("__shadow_x"), None);
    assert_eq!(solution.assignments.len(), 3);
}

#[test]
fn solution_needs_a_model() {
    let table = table();
    let ctx = context(&table);
    match ctx.extract_solution() {
        Err(SolverError::ModelEvaluationError(m)) => assert_eq!(m, "No model available"),
        other => panic!("unexpected {:?}", other.map(|s| s.assignments.len())),
    }
}

#[test]
fn deferred_constraints_are_kept() {
    let table = table();
    let mut ctx = context(&table);
    ctx.defer_constraint(vec!["a", "b"], "a depends on b".to_string());
    assert!(ctx.get_variable_value("a").is_none());
}

fn ex(kind: ResolvedExprKind) -> ResolvedExpr {
    ResolvedExpr { span: test_span(), kind, ty: i32_ty() }
}

fn num(value: i64) -> ResolvedExpr {
    ex(ResolvedExprKind::IntLit { value })
}

fn bin(make: fn(Box<ResolvedExpr>, Box<ResolvedExpr>) -> ResolvedExprKind, l: ResolvedExpr, r: ResolvedExpr) -> ResolvedExpr {
    ex(make(Box::new(l), Box::new(r)))
}

fn add_k(l: Box<ResolvedExpr>, r: Box<ResolvedExpr>) -> ResolvedExprKind { ResolvedExprKind::Add { lhs: l, rhs: r } }
fn mul_k(l: Box<ResolvedExpr>, r: Box<ResolvedExpr>) -> ResolvedExprKind { ResolvedExprKind::Mul { lhs: l, rhs: r } }
fn div_k(l: Box<ResolvedExpr>, r: Box<ResolvedExpr>) -> ResolvedExprKind { ResolvedExprKind::Div { lhs: l, rhs: r } }
fn mod_k(l: Box<ResolvedExpr>, r: Box<ResolvedExpr>) -> ResolvedExprKind { ResolvedExprKind::Mod { lhs: l, rhs: r } }
fn pow_k(l: Box<ResolvedExpr>, r: Box<ResolvedExpr>) -> ResolvedExprKind { ResolvedExprKind::Pow { lhs: l, rhs: r } }

fn unsupported(r: Result<i64, SolverError>) -> String {
    match r {
        Err(SolverError::UnsupportedExpression(m)) => m,
        other => panic!("unexpected {:?}", other),
    }
}

#[test]
fn constant_expressions_evaluate_like_machine_integers() {
    let table = table();
    let ctx = context(&table);
    assert_eq!(ctx.evaluate_const_expr(&bin(add_k, num(2), bin(mul_k, num(3), num(4)))).unwrap(), 14);
    assert_eq!(ctx.evaluate_const_expr(&bin(div_k, num(7), num(-2))).unwrap(), -3);
    assert_eq!(ctx.evaluate_const_expr(&bin(div_k, num(-7), num(2))).unwrap(), -3);
    assert_eq!(ctx.evaluate_const_expr(&bin(mod_k, num(-7), num(2))).unwrap(), -1);
    assert_eq!(ctx.evaluate_const_expr(&bin(mod_k, num(7), num(-2))).unwrap(), 1);
    assert_eq!(ctx.evaluate_const_expr(&ex(ResolvedExprKind::Neg { inner: Box::new(num(5)) })).unwrap(), -5);
}

#[test]
fn constant_powers() {
    let table = table();
    let ctx = context(&table);
    assert_eq!(ctx.evaluate_const_expr(&bin(pow_k, num(2), num(10))).unwrap(), 1024);
    assert_eq!(ctx.evaluate_const_expr(&bin(pow_k, num(-3), num(3))).unwrap(), -27);
    assert_eq!(ctx.evaluate_const_expr(&bin(pow_k, num(0), num(0))).unwrap(), 1);
    assert_eq!(ctx.evaluate_const_expr(&bin(pow_k, num(-1), num(7))).unwrap(), -1);
    assert_eq!(ctx.evaluate_const_expr(&bin(pow_k, num(-2), num(63))).unwrap(), i64::MIN);
    assert_eq!(ctx.evaluate_const_expr(&bin(pow_k, num(3), num(4294967296))).unwrap(), 1);
    assert_eq!(unsupported(ctx.evaluate_const_expr(&bin(pow_k, num(2), num(63)))), "Power operation overflow");
    assert_eq!(
        unsupported(ctx.evaluate_const_expr(&bin(pow_k, num(2), num(-1)))),
        "Negative exponents not supported in constant evaluation"
    );
}

#[test]
fn constant_evaluation_errors() {
    let table = table();
    let ctx = context(&table);
    assert_eq!(unsupported(ctx.evaluate_const_expr(&bin(div_k, num(1), num(0)))), "Division by zero");
    assert_eq!(unsupported(ctx.evaluate_const_expr(&bin(mod_k, num(1), num(0)))), "Modulo by zero");
    assert_eq!(
        unsupported(ctx.evaluate_const_expr(&ex(ResolvedExprKind::BoolLit { value: true }))),
        "Cannot evaluate expression to constant: BoolLit"
    );
    match ctx.evaluate_const_expr(&ex(ResolvedExprKind::Var { name: "n".to_string() })) {
        Err(SolverError::UndefinedVariable(m)) => assert_eq!(m, "Variable 'n' not yet resolved (no solution available)"),
        other => panic!("unexpected {:?}", other),
    }
    // the left operand's error comes first
    let both_bad = bin(add_k, bin(div_k, num(1), num(0)), ex(ResolvedExprKind::BoolLit { value: false }));
    assert_eq!(unsupported(ctx.evaluate_const_expr(&both_bad)), "Division by zero");
}

#[test]
fn variable_paths_of_expressions() {
    let table = table();
    let ctx = context(&table);
    let p = ex(ResolvedExprKind::Var { name: "p".to_string() });
    let px = ex(ResolvedExprKind::FieldAccess { receiver: Box::new(p), field_name: "x".to_string() });
    let arr = ex(ResolvedExprKind::Var { name: "arr".to_string() });
    let elem = ex(ResolvedExprKind::Index { array: Box::new(arr), index: Box::new(bin(add_k, num(1), num(1))) });
    let elem_x = ex(ResolvedExprKind::FieldAccess { receiver: Box::new(elem), field_name: "x".to_string() });
    assert_eq!(ctx.build_variable_path(&px).unwrap().to_z3_name(), "p.x");
    assert_eq!(ctx.build_variable_path(&elem_x).unwrap().to_z3_name(), "arr[2].x");
    let lit = num(3);
    match ctx.build_variable_path(&lit) {
        Err(SolverError::UnsupportedExpression(m)) => assert_eq!(m, "Cannot build variable path from this expression: IntLit"),
        other => panic!("unexpected {:?}", other.map(|p| p.to_z3_name())),
    }
}

#[test]
fn int_reading_of_model_values() {
    assert_eq!(int_reading(Some(Some(5))), Value::Int(5));
    assert_eq!(int_reading(Some(Some(-12))), Value::Int(-12));
    assert_eq!(int_reading(Some(None)), Value::UnderConstrained);
    assert_eq!(int_reading(None), Value::UnderConstrained);
}

#[test]
fn real_reading_of_model_values() {
    assert_eq!(real_reading(Some(Some((3, 4)))), Some(Value::Real { numerator: 3, denominator: 4 }));
    assert_eq!(real_reading(Some(Some((-7, 2)))), Some(Value::Real { numerator: -7, denominator: 2 }));
    assert_eq!(real_reading(Some(Some((3, 0)))), None);
    assert_eq!(real_reading(Some(None)), Some(Value::UnderConstrained));
    assert_eq!(real_reading(None), Some(Value::UnderConstrained));
}

#[test]
fn bool_reading_of_model_values() {
    assert_eq!(bool_reading(Some(Some(true))), Some(Value::Bool(true)));
    assert_eq!(bool_reading(Some(Some(false))), Some(Value::Bool(false)));
    assert_eq!(bool_reading(Some(None)), None);
    assert_eq!(bool_reading(None), Some(Value::UnderConstrained));
}
