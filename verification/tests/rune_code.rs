use cad_solver::solver::rune_code::generate_rune_code;

#[test]
fn rune_code_wraps_body_with_one_parameter() {
    let code = generate_rune_code("x * 2", &vec!["x".to_string()]);
    assert_eq!(code, "pub fn __rune_fn__(x) { x * 2 }");
}

#[test]
fn rune_code_separates_parameters_with_commas() {
    let code = generate_rune_code("a + b + c", &vec!["a".to_string(), "b".to_string(), "c".to_string()]);
    assert_eq!(code, "pub fn __rune_fn__(a, b, c) { a + b + c }");
}

#[test]
fn rune_code_without_parameters() {
    let code = generate_rune_code("42", &vec![]);
    assert_eq!(code, "pub fn __rune_fn__() { 42 }");
}
