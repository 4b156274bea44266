//! The resolved, type-checked program representation that the solver consumes.
//!
//! Struct definitions live in a [`StructTable`]; a user-defined type refers to its
//! definition by index, so two mentions of the same definition are the same struct.

use vstd::prelude::*;
use crate::lexer::Span;

verus! {

/// A resolved type.
#[derive(Debug)]
pub enum ResolvedType {
    Bool { span: Span },
    I32 { span: Span },
    F64 { span: Span },
    Real { span: Span },
    Algebraic { span: Span },
    /// `&inner`
    Reference { inner: Box<ResolvedType>, span: Span },
    /// `[element_type; size]`
    Array { element_type: Box<ResolvedType>, size: usize, span: Span },
    /// A struct type; `definition` indexes the [`StructTable`].
    UserDefined { name: String, definition: usize, span: Span },
}

/// A field of a struct definition.
#[derive(Debug)]
pub struct FieldDefinition {
    pub name: String,
    pub name_span: Span,
    pub field_type: ResolvedType,
    pub span: Span,
}

/// A struct definition.
#[derive(Debug)]
pub struct StructDefinition {
    pub name: String,
    pub name_span: Span,
    pub fields: Vec<FieldDefinition>,
    pub span: Span,
}

/// All struct definitions of a program, indexed by position.
#[derive(Debug)]
pub struct StructTable {
    pub defs: Vec<StructDefinition>,
}

/// A variable definition.
#[derive(Debug)]
pub struct VarDefinition {
    pub name: String,
    pub name_span: Span,
    pub var_type: Option<ResolvedType>,
    pub init: Option<ResolvedExpr>,
    pub scope_level: usize,
    pub span: Span,
}

/// A function (or method) definition.
#[derive(Debug)]
pub struct FunctionDefinition {
    pub name: String,
    pub name_span: Span,
    pub params: Vec<VarDefinition>,
    pub return_type: ResolvedType,
    /// Name of the struct that owns this method, if it is a method.
    pub parent_struct: Option<String>,
    pub span: Span,
}

/// The resolved definition of a called function or method, as far as calls read it:
/// its name, the struct that owns it if it is a method, and its parameter names.
#[derive(Debug)]
pub struct Callee {
    pub name: String,
    pub parent_struct: Option<String>,
    pub param_names: Vec<String>,
}

/// A field of a struct literal.
#[derive(Debug)]
pub enum ResolvedStructLitField {
    /// `name: value`
    Field { name: String, value: ResolvedExpr, span: Span },
    /// A computed property.
    ComputedProperty { name: String, value: ResolvedExpr, span: Span },
}

/// A resolved expression.
#[derive(Debug)]
pub struct ResolvedExpr {
    pub span: Span,
    pub kind: ResolvedExprKind,
    pub ty: ResolvedType,
}

/// The kinds of resolved expressions.
///
/// A floating-point literal is held as its value times one million, rounded
/// (`scaled`), the precision at which the solver reads it.
#[derive(Debug)]
#[allow(inconsistent_fields)]
pub enum ResolvedExprKind {
    IntLit { value: i64 },
    FloatLit { scaled: i64 },
    BoolLit { value: bool },
    Var { name: String },
    FieldAccess { receiver: Box<ResolvedExpr>, field_name: String },
    Index { array: Box<ResolvedExpr>, index: Box<ResolvedExpr> },
    Add { lhs: Box<ResolvedExpr>, rhs: Box<ResolvedExpr> },
    Sub { lhs: Box<ResolvedExpr>, rhs: Box<ResolvedExpr> },
    Mul { lhs: Box<ResolvedExpr>, rhs: Box<ResolvedExpr> },
    Div { lhs: Box<ResolvedExpr>, rhs: Box<ResolvedExpr> },
    Mod { lhs: Box<ResolvedExpr>, rhs: Box<ResolvedExpr> },
    Pow { lhs: Box<ResolvedExpr>, rhs: Box<ResolvedExpr> },
    Eq { lhs: Box<ResolvedExpr>, rhs: Box<ResolvedExpr> },
    NotEq { lhs: Box<ResolvedExpr>, rhs: Box<ResolvedExpr> },
    Lt { lhs: Box<ResolvedExpr>, rhs: Box<ResolvedExpr> },
    Gt { lhs: Box<ResolvedExpr>, rhs: Box<ResolvedExpr> },
    LtEq { lhs: Box<ResolvedExpr>, rhs: Box<ResolvedExpr> },
    GtEq { lhs: Box<ResolvedExpr>, rhs: Box<ResolvedExpr> },
    And { lhs: Box<ResolvedExpr>, rhs: Box<ResolvedExpr> },
    Or { lhs: Box<ResolvedExpr>, rhs: Box<ResolvedExpr> },
    Neg { inner: Box<ResolvedExpr> },
    Ref { inner: Box<ResolvedExpr> },
    Deref { inner: Box<ResolvedExpr> },
    /// `(inner)`
    Paren { inner: Box<ResolvedExpr> },
    /// `[e0, e1, ..]`
    ArrayLit { elements: Vec<ResolvedExpr> },
    StructLit { name: String, fields: Vec<ResolvedStructLitField> },
    /// A call of the function `name`, resolved to `callee`.
    FunctionCall { name: String, callee: Callee, args: Vec<ResolvedExpr> },
    /// A call of the method `method_name` on `receiver`, resolved to `callee`.
    MethodCall { receiver: Box<ResolvedExpr>, method_name: String, callee: Callee, args: Vec<ResolvedExpr> },
}

/// A resolved statement.
#[derive(Debug)]
pub struct ResolvedStmt {
    pub span: Span,
    pub kind: ResolvedStmtKind,
}

/// The kinds of resolved statements.
#[derive(Debug)]
#[allow(inconsistent_fields)]
pub enum ResolvedStmtKind {
    Let { var_def: VarDefinition, init: Option<ResolvedExpr>, span: Span },
    Expression { expr: ResolvedExpr, span: Span },
    If {
        condition: ResolvedExpr,
        then_branch: Vec<ResolvedStmt>,
        else_branch: Option<Vec<ResolvedStmt>>,
        span: Span,
    },
    For { loop_var_def: VarDefinition, iterator: ResolvedExpr, body: Vec<ResolvedStmt>, span: Span },
    Return { value: Option<ResolvedExpr>, span: Span },
    FunctionDef {
        func_def: FunctionDefinition,
        body: Vec<ResolvedStmt>,
        return_expr: Option<ResolvedExpr>,
        span: Span,
    },
    /// `struct_def` indexes the [`StructTable`].
    StructDef { struct_def: usize, methods: Vec<ResolvedStmt>, span: Span },
    Assignment { target: ResolvedExpr, value: ResolvedExpr, span: Span },
    FieldAssignment { target: ResolvedExpr, value: ResolvedExpr, span: Span },
    With { context: ResolvedExpr, body: Vec<ResolvedStmt>, span: Span },
    Block { statements: Vec<ResolvedStmt>, span: Span },
}

} // verus!

verus! {

/// Nesting size of a type: one for each level of references and arrays.
pub open spec fn ty_size(ty: ResolvedType) -> nat
    decreases ty,
{
    match ty {
        ResolvedType::Reference { inner, .. } => 1 + ty_size(*inner),
        ResolvedType::Array { element_type, .. } => 1 + ty_size(*element_type),
        _ => 1,
    }
}

/// Total nesting size of the field types `fields[i..]`, plus one.
pub open spec fn fields_size(fields: Seq<FieldDefinition>, i: int) -> nat
    decreases fields.len() - i,
{
    if i < 0 || i >= fields.len() {
        1
    } else {
        ty_size(fields[i].field_type) + fields_size(fields, i + 1) + 1
    }
}

/// Every struct that `ty` names is a definition of `table`.
pub open spec fn type_in_table(table: StructTable, ty: ResolvedType) -> bool
    decreases ty,
{
    match ty {
        ResolvedType::Reference { inner, .. } => type_in_table(table, *inner),
        ResolvedType::Array { element_type, .. } => type_in_table(table, *element_type),
        ResolvedType::UserDefined { definition, .. } => definition < table.defs@.len(),
        _ => true,
    }
}

/// Every field type of every definition names only definitions of the table.
pub open spec fn table_wf(table: StructTable) -> bool {
    forall|d: int, f: int|
        0 <= d < table.defs@.len() && 0 <= f < table.defs@[d].fields@.len()
            ==> #[trigger] type_in_table(table, table.defs@[d].fields@[f].field_type)
}

/// `ty` names the struct `d`, directly or through references and arrays.
pub open spec fn type_mentions(ty: ResolvedType, d: int) -> bool
    decreases ty,
{
    match ty {
        ResolvedType::Reference { inner, .. } => type_mentions(*inner, d),
        ResolvedType::Array { element_type, .. } => type_mentions(*element_type, d),
        ResolvedType::UserDefined { definition, .. } => definition == d,
        _ => false,
    }
}

/// Struct `b` is the type (seen through references and arrays) of a field of struct `a`.
pub open spec fn child_struct(table: StructTable, a: int, b: int) -> bool {
    0 <= a < table.defs@.len() && exists|f: int|
        0 <= f < table.defs@[a].fields@.len()
            && #[trigger] type_mentions(table.defs@[a].fields@[f].field_type, b)
}

/// Expanding `ty` into its fields takes at most `n` nested struct levels.
pub open spec fn bounded(table: StructTable, ty: ResolvedType, n: nat) -> bool
    decreases n, ty_size(ty),
{
    match ty {
        ResolvedType::Reference { inner, .. } => bounded(table, *inner, n),
        ResolvedType::Array { element_type, .. } => bounded(table, *element_type, n),
        ResolvedType::UserDefined { definition, .. } => {
            &&& n > 0
            &&& definition < table.defs@.len()
            &&& fields_bounded(table, table.defs@[definition as int].fields@, 0, (n - 1) as nat)
        },
        _ => true,
    }
}

/// Every field type of `fields[i..]` is [`bounded`] by `n`.
pub open spec fn fields_bounded(table: StructTable, fields: Seq<FieldDefinition>, i: int, n: nat) -> bool
    decreases n, fields_size(fields, i),
{
    if i < 0 || i >= fields.len() {
        true
    } else {
        bounded(table, fields[i].field_type, n) && fields_bounded(table, fields, i + 1, n)
    }
}

} // verus!

verus! {

/// The span stored in a type.
pub open spec fn type_span(ty: ResolvedType) -> Span {
    match ty {
        ResolvedType::Bool { span } => span,
        ResolvedType::I32 { span } => span,
        ResolvedType::F64 { span } => span,
        ResolvedType::Real { span } => span,
        ResolvedType::Algebraic { span } => span,
        ResolvedType::Reference { span, .. } => span,
        ResolvedType::Array { span, .. } => span,
        ResolvedType::UserDefined { span, .. } => span,
    }
}

/// The type is one of the primitive types `bool`, `i32`, `f64`, `real`, `algebraic`.
pub open spec fn is_primitive(ty: ResolvedType) -> bool {
    ty is Bool || ty is I32 || ty is F64 || ty is Real || ty is Algebraic
}

/// Two types are the same apart from spans: each primitive type matches itself,
/// struct types match when they name the same definition under the same name,
/// references and arrays (of equal size) match when what they hold does.
pub open spec fn same_type(a: ResolvedType, b: ResolvedType) -> bool
    decreases a,
{
    match (a, b) {
        (ResolvedType::I32 { .. }, ResolvedType::I32 { .. }) => true,
        (ResolvedType::F64 { .. }, ResolvedType::F64 { .. }) => true,
        (ResolvedType::Bool { .. }, ResolvedType::Bool { .. }) => true,
        (ResolvedType::Real { .. }, ResolvedType::Real { .. }) => true,
        (ResolvedType::Algebraic { .. }, ResolvedType::Algebraic { .. }) => true,
        (ResolvedType::UserDefined { name: n1, definition: d1, .. }, ResolvedType::UserDefined { name: n2, definition: d2, .. }) =>
            n1@ == n2@ && d1 == d2,
        (ResolvedType::Reference { inner: i1, .. }, ResolvedType::Reference { inner: i2, .. }) => same_type(*i1, *i2),
        (ResolvedType::Array { element_type: e1, size: s1, .. }, ResolvedType::Array { element_type: e2, size: s2, .. }) =>
            s1 == s2 && same_type(*e1, *e2),
        _ => false,
    }
}

/// Whether two types are the same apart from spans (see [`same_type`]).
pub fn types_match_semantically(type1: &ResolvedType, type2: &ResolvedType) -> (r: bool)
    ensures
        r == same_type(*type1, *type2),
    decreases type1,
{
    match (type1, type2) {
        (ResolvedType::I32 { .. }, ResolvedType::I32 { .. }) => true,
        (ResolvedType::F64 { .. }, ResolvedType::F64 { .. }) => true,
        (ResolvedType::Bool { .. }, ResolvedType::Bool { .. }) => true,
        (ResolvedType::Real { .. }, ResolvedType::Real { .. }) => true,
        (ResolvedType::Algebraic { .. }, ResolvedType::Algebraic { .. }) => true,
        (ResolvedType::UserDefined { name: n1, definition: d1, .. }, ResolvedType::UserDefined { name: n2, definition: d2, .. }) =>
            *n1 == *n2 && *d1 == *d2,
        (ResolvedType::Reference { inner: i1, .. }, ResolvedType::Reference { inner: i2, .. }) =>
            types_match_semantically(i1, i2),
        (ResolvedType::Array { element_type: e1, size: s1, .. }, ResolvedType::Array { element_type: e2, size: s2, .. }) =>
            *s1 == *s2 && types_match_semantically(e1, e2),
        _ => false,
    }
}

/// Every type matches itself apart from spans.
pub proof fn lemma_same_type_reflexive(a: ResolvedType)
    ensures
        same_type(a, a),
    decreases a,
{
    match a {
        ResolvedType::Reference { inner, .. } => lemma_same_type_reflexive(*inner),
        ResolvedType::Array { element_type, .. } => lemma_same_type_reflexive(*element_type),
        _ => {},
    }
}

/// Matching types apart from spans is symmetric and transitive.
pub proof fn lemma_same_type_symmetric_transitive(a: ResolvedType, b: ResolvedType, c: ResolvedType)
    ensures
        same_type(a, b) == same_type(b, a),
        same_type(a, b) && same_type(b, c) ==> same_type(a, c),
    decreases a,
{
    match (a, b) {
        (ResolvedType::Reference { inner: i1, .. }, ResolvedType::Reference { inner: i2, .. }) => {
            match c {
                ResolvedType::Reference { inner: i3, .. } => lemma_same_type_symmetric_transitive(*i1, *i2, *i3),
                _ => lemma_same_type_symmetric_transitive(*i1, *i2, *i2),
            }
        },
        (ResolvedType::Array { element_type: e1, .. }, ResolvedType::Array { element_type: e2, .. }) => {
            match c {
                ResolvedType::Array { element_type: e3, .. } => lemma_same_type_symmetric_transitive(*e1, *e2, *e3),
                _ => lemma_same_type_symmetric_transitive(*e1, *e2, *e2),
            }
        },
        _ => {},
    }
}

/// Whether the type is a reference type.
pub fn is_reference_type(ty: &ResolvedType) -> (r: bool)
    ensures
        r == ty is Reference,
{
    match ty {
        ResolvedType::Reference { .. } => true,
        _ => false,
    }
}

/// A copy of a type.
pub fn copy_type(ty: &ResolvedType) -> (r: ResolvedType)
    ensures
        r == *ty,
    decreases ty,
{
    match ty {
        ResolvedType::Bool { span } => ResolvedType::Bool { span: *span },
        ResolvedType::I32 { span } => ResolvedType::I32 { span: *span },
        ResolvedType::F64 { span } => ResolvedType::F64 { span: *span },
        ResolvedType::Real { span } => ResolvedType::Real { span: *span },
        ResolvedType::Algebraic { span } => ResolvedType::Algebraic { span: *span },
        ResolvedType::Reference { inner, span } => ResolvedType::Reference {
            inner: Box::new(copy_type(inner)),
            span: *span,
        },
        ResolvedType::Array { element_type, size, span } => ResolvedType::Array {
            element_type: Box::new(copy_type(element_type)),
            size: *size,
            span: *span,
        },
        ResolvedType::UserDefined { name, definition, span } => ResolvedType::UserDefined {
            name: name.clone(),
            definition: *definition,
            span: *span,
        },
    }
}

} // verus!
