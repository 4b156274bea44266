use cad_solver::hir::{is_reference_type, types_match_semantically, FieldDefinition, ResolvedType, StructDefinition, StructTable};
use cad_solver::lexer::{LineColumn, Span};
use cad_solver::solver::recursive_struct_detector::{detect_cycles, RecursiveStructError};
use cad_solver::solver::struct_flattener::{flatten_type, flatten_type_recursive, FlattenedField};
use cad_solver::solver::{PathComponent, VariablePath};

fn test_span() -> Span {
    Span { start: LineColumn { line: 1, column: 1 }, lines: 0, end_column: 10 }
}

fn i32_ty() -> ResolvedType {
    ResolvedType::I32 { span: test_span() }
}

fn field(name: &str, field_type: ResolvedType) -> FieldDefinition {
    FieldDefinition { name: name.to_string(), name_span: test_span(), field_type, span: test_span() }
}

fn struct_def(name: &str, fields: Vec<FieldDefinition>) -> StructDefinition {
    StructDefinition { name: name.to_string(), name_span: test_span(), fields, span: test_span() }
}

fn user(name: &str, definition: usize) -> ResolvedType {
    ResolvedType::UserDefined { name: name.to_string(), definition, span: test_span() }
}

fn reference(inner: ResolvedType) -> ResolvedType {
    ResolvedType::Reference { inner: Box::new(inner), span: test_span() }
}

fn point() -> StructDefinition {
    struct_def("Point", vec![field("x", i32_ty()), field("y", i32_ty())])
}

fn names(fields: &[FlattenedField]) -> Vec<&str> {
    fields.iter().map(|f| f.full_name.as_str()).collect()
}

fn all_i32(fields: &[FlattenedField]) -> bool {
    fields.iter().all(|f| matches!(f.primitive_type, ResolvedType::I32 { .. }))
}

// ---------------------------------------------------------------------------
// Recursive struct detection
// ---------------------------------------------------------------------------

#[test]
fn test_non_recursive_simple_struct() {
    let table = StructTable { defs: vec![point()] };
    assert!(detect_cycles(&table, 0).is_ok());
}

#[test]
fn test_direct_recursion() {
    let table = StructTable { defs: vec![struct_def("Node", vec![field("value", i32_ty()), field("next", user("Node", 0))])] };
    let result = detect_cycles(&table, 0);
    assert!(result.is_err());
    let err = result.unwrap_err();
    assert_eq!(err.cycle_path, vec!["Node", "Node"]);
}

#[test]
fn test_indirect_recursion() {
    let table = StructTable {
        defs: vec![struct_def("A", vec![field("field", user("B", 1))]), struct_def("B", vec![field("field", user("A", 0))])],
    };
    let result = detect_cycles(&table, 0);
    assert!(result.is_err());
    let err = result.unwrap_err();
    assert_eq!(err.cycle_path, vec!["A", "B", "A"]);
}

#[test]
fn test_nested_non_recursive() {
    let table = StructTable {
        defs: vec![point(), struct_def("Line", vec![field("start", user("Point", 0)), field("end", user("Point", 0))])],
    };
    assert!(detect_cycles(&table, 1).is_ok());
}

#[test]
fn test_reference_type_non_recursive() {
    let table = StructTable {
        defs: vec![struct_def("Node", vec![field("value", i32_ty()), field("next", reference(user("Node", 0)))])],
    };
    // References are looked through: a struct reaching itself through a reference is
    // still a cycle.
    let result = detect_cycles(&table, 0);
    assert!(result.is_err());
}

#[test]
fn cycle_reached_from_a_non_cyclic_struct_names_the_path() {
    // Outer { b: B }, B { a: A }, A { b: B }: the cycle B → A → B is met from Outer.
    let table = StructTable {
        defs: vec![
            struct_def("Outer", vec![field("b", user("B", 1))]),
            struct_def("B", vec![field("a", user("A", 2))]),
            struct_def("A", vec![field("b", user("B", 1))]),
        ],
    };
    let err = detect_cycles(&table, 0).unwrap_err();
    assert_eq!(err.cycle_path, vec!["Outer", "B", "A", "B"]);
}

#[test]
fn recursive_struct_error_text() {
    let err = RecursiveStructError {
        cycle_path: vec!["A".to_string(), "B".to_string(), "A".to_string()],
        span: Span { start: LineColumn { line: 7, column: 2 }, lines: 0, end_column: 3 },
    };
    assert_eq!(
        err.to_text(),
        "Recursive struct detected at line 7, column 2: A → B → A. Recursive structs cannot be solved."
    );
}

// ---------------------------------------------------------------------------
// Flattening
// ---------------------------------------------------------------------------

#[test]
fn test_flatten_primitive_type() {
    let table = StructTable { defs: vec![] };
    let result = flatten_type(&table, "x", &i32_ty());
    assert_eq!(result.len(), 1);
    assert_eq!(result[0].full_name, "x");
    assert!(matches!(result[0].primitive_type, ResolvedType::I32 { .. }));
}

#[test]
fn test_flatten_simple_struct() {
    let table = StructTable { defs: vec![point()] };
    let result = flatten_type(&table, "p", &user("Point", 0));
    assert_eq!(names(&result), vec!["p.x", "p.y"]);
    assert!(all_i32(&result));
}

#[test]
fn test_flatten_nested_struct() {
    let table = StructTable {
        defs: vec![point(), struct_def("Line", vec![field("start", user("Point", 0)), field("end", user("Point", 0))])],
    };
    let result = flatten_type(&table, "line", &user("Line", 1));
    assert_eq!(names(&result), vec!["line.start.x", "line.start.y", "line.end.x", "line.end.y"]);
    assert!(all_i32(&result));
}

#[test]
fn test_flatten_mixed_types() {
    let table = StructTable {
        defs: vec![struct_def(
            "Mixed",
            vec![
                field("a", ResolvedType::Bool { span: test_span() }),
                field("b", i32_ty()),
                field("c", ResolvedType::F64 { span: test_span() }),
            ],
        )],
    };
    let result = flatten_type(&table, "m", &user("Mixed", 0));
    assert_eq!(names(&result), vec!["m.a", "m.b", "m.c"]);
    assert!(matches!(result[0].primitive_type, ResolvedType::Bool { .. }));
    assert!(matches!(result[1].primitive_type, ResolvedType::I32 { .. }));
    assert!(matches!(result[2].primitive_type, ResolvedType::F64 { .. }));
}

#[test]
fn test_flatten_reference_type() {
    let table = StructTable { defs: vec![] };
    let result = flatten_type(&table, "r", &reference(i32_ty()));
    assert_eq!(names(&result), vec!["r"]);
    assert!(all_i32(&result));
}

#[test]
fn test_flatten_reference_to_struct() {
    let table = StructTable { defs: vec![point()] };
    let result = flatten_type(&table, "p", &reference(user("Point", 0)));
    assert_eq!(names(&result), vec!["p.x", "p.y"]);
    assert!(all_i32(&result));
}

#[test]
fn test_flatten_deeply_nested() {
    let table = StructTable {
        defs: vec![
            struct_def("A", vec![field("value", i32_ty())]),
            struct_def("B", vec![field("a", user("A", 0))]),
            struct_def("C", vec![field("b", user("B", 1))]),
        ],
    };
    let result = flatten_type(&table, "c", &user("C", 2));
    assert_eq!(names(&result), vec!["c.b.a.value"]);
    assert!(all_i32(&result));
}

#[test]
fn test_flatten_empty_prefix() {
    let table = StructTable { defs: vec![point()] };
    let result = flatten_type(&table, "", &user("Point", 0));
    assert_eq!(names(&result), vec!["x", "y"]);
}

#[test]
fn test_flatten_array_of_primitives() {
    let table = StructTable { defs: vec![] };
    let array = ResolvedType::Array { element_type: Box::new(i32_ty()), size: 3, span: test_span() };
    let result = flatten_type(&table, "nums", &array);
    assert_eq!(names(&result), vec!["nums[0]", "nums[1]", "nums[2]"]);
    assert!(all_i32(&result));
}

#[test]
fn test_flatten_array_of_structs() {
    let table = StructTable { defs: vec![point()] };
    let array = ResolvedType::Array { element_type: Box::new(user("Point", 0)), size: 2, span: test_span() };
    let result = flatten_type(&table, "points", &array);
    assert_eq!(names(&result), vec!["points[0].x", "points[0].y", "points[1].x", "points[1].y"]);
    assert!(all_i32(&result));
}

#[test]
fn flatten_two_digit_indices() {
    let table = StructTable { defs: vec![] };
    let array = ResolvedType::Array { element_type: Box::new(i32_ty()), size: 12, span: test_span() };
    let result = flatten_type(&table, "a", &array);
    assert_eq!(result.len(), 12);
    assert_eq!(result[10].full_name, "a[10]");
    assert_eq!(result[11].full_name, "a[11]");
}

#[test]
fn flattened_field_new_keeps_its_parts() {
    let f = FlattenedField::new("q.r".to_string(), i32_ty(), test_span());
    assert_eq!(f.full_name, "q.r");
    assert!(matches!(f.primitive_type, ResolvedType::I32 { .. }));
    assert_eq!(f.span, test_span());
}

// ---------------------------------------------------------------------------
// Variable paths
// ---------------------------------------------------------------------------

#[test]
fn test_path_from_name() {
    let path = VariablePath::from_name("x");
    assert_eq!(path.to_z3_name(), "x");
}

#[test]
fn test_path_with_field() {
    let path = VariablePath::from_name("p").with_field("x");
    assert_eq!(path.to_z3_name(), "p.x");
}

#[test]
fn test_path_with_index() {
    let path = VariablePath::from_name("arr").with_index(0);
    assert_eq!(path.to_z3_name(), "arr[0]");
}

#[test]
fn test_path_complex() {
    let path = VariablePath::from_name("points").with_index(0).with_field("x");
    assert_eq!(path.to_z3_name(), "points[0].x");
}

#[test]
fn test_variable_path_operations() {
    let path = VariablePath::from_name("test");
    assert_eq!(path.to_z3_name(), "test");
    assert!(!path.is_empty());

    let nested = path.with_field("field");
    assert_eq!(nested.to_z3_name(), "test.field");

    let indexed = nested.with_index(5);
    assert_eq!(indexed.to_z3_name(), "test.field[5]");
}

#[test]
fn test_path_components() {
    let path = VariablePath::from_name("x").with_field("y").with_index(0);
    let components = path.components();

    assert!(matches!(components[0], PathComponent::Field("x")));
    assert!(matches!(components[1], PathComponent::Field("y")));
    assert!(matches!(components[2], PathComponent::Index(0)));
}

#[test]
fn path_extension_leaves_the_original_unchanged() {
    let base = VariablePath::from_name("grid");
    let row = base.with_index(12);
    let cell = row.with_index(3).with_field("value");
    assert_eq!(base.to_z3_name(), "grid");
    assert_eq!(row.to_z3_name(), "grid[12]");
    assert_eq!(cell.to_z3_name(), "grid[12][3].value");
    assert_eq!(cell.components().len(), 4);
}

#[test]
fn types_match_apart_from_spans() {
    let other_span = Span { start: LineColumn { line: 7, column: 3 }, lines: 2, end_column: 1 };
    assert!(types_match_semantically(&i32_ty(), &ResolvedType::I32 { span: other_span }));
    assert!(types_match_semantically(&reference(user("P", 0)), &reference(user("P", 0))));
    let arr = |n: usize| ResolvedType::Array { element_type: Box::new(i32_ty()), size: n, span: test_span() };
    assert!(types_match_semantically(&arr(3), &arr(3)));
    assert!(!types_match_semantically(&arr(3), &arr(4)));
    assert!(!types_match_semantically(&user("P", 0), &user("P", 1)));
    assert!(!types_match_semantically(&user("P", 0), &user("Q", 0)));
    assert!(!types_match_semantically(&i32_ty(), &reference(i32_ty())));
    let real = ResolvedType::Real { span: test_span() };
    assert!(types_match_semantically(&real, &ResolvedType::Real { span: other_span }));
    let algebraic = ResolvedType::Algebraic { span: test_span() };
    assert!(types_match_semantically(&algebraic, &ResolvedType::Algebraic { span: other_span }));
    assert!(!types_match_semantically(&real, &algebraic));
}

#[test]
fn reference_types_are_recognised() {
    assert!(is_reference_type(&reference(i32_ty())));
    assert!(!is_reference_type(&i32_ty()));
    assert!(!is_reference_type(&user("P", 0)));
}

#[test]
fn flattening_into_a_list_appends_after_its_entries() {
    let table = StructTable { defs: vec![point()] };
    let mut fields = flatten_type(&table, "a", &i32_ty());
    flatten_type_recursive(&table, &"p".to_string(), &user("Point", 0), &mut fields);
    let names: Vec<String> = fields.iter().map(|f| f.full_name.clone()).collect();
    assert_eq!(names, vec!["a".to_string(), "p.x".to_string(), "p.y".to_string()]);
}
