//! The mathematical model of expressions.
//!
//! The model holds what an expression says with sequences in place of vectors, so
//! that two expressions with the same content have the same model. Binary and unary
//! operators are grouped by operator.

use vstd::prelude::*;
use crate::hir::{Callee, ResolvedExpr, ResolvedExprKind, ResolvedStructLitField, ResolvedType, copy_type};
use crate::lexer::Span;

verus! {

/// Binary operators, including indexing.
#[derive(Debug, Clone, Copy, PartialEq, Eq)]
pub enum BinOp {
    Index,
    Add,
    Sub,
    Mul,
    Div,
    Mod,
    Pow,
    Eq,
    NotEq,
    Lt,
    Gt,
    LtEq,
    GtEq,
    And,
    Or,
}

/// Unary operators, including parentheses.
#[derive(Debug, Clone, Copy, PartialEq, Eq)]
pub enum UnOp {
    Neg,
    Ref,
    Deref,
    Paren,
}

/// A literal.
pub enum LitModel {
    Int(i64),
    Float(i64),
    Bool(bool),
}

/// The content of a resolved callee.
pub struct CalleeModel {
    pub name: Seq<char>,
    pub parent_struct: Option<Seq<char>>,
    pub param_names: Seq<Seq<char>>,
}

/// The content of a struct literal field; `computed` for a computed property.
pub struct FieldModel {
    pub computed: bool,
    pub name: Seq<char>,
    pub value: ExprModel,
    pub span: Span,
}

/// The content of an expression kind.
pub enum KindModel {
    Lit(LitModel),
    Var(Seq<char>),
    Bin(BinOp, Box<ExprModel>, Box<ExprModel>),
    Un(UnOp, Box<ExprModel>),
    Field(Box<ExprModel>, Seq<char>),
    StructLit(Seq<char>, Seq<FieldModel>),
    Call(Seq<char>, CalleeModel, Seq<ExprModel>),
    Method(Box<ExprModel>, Seq<char>, CalleeModel, Seq<ExprModel>),
    Array(Seq<ExprModel>),
}

/// The content of an expression.
pub struct ExprModel {
    pub span: Span,
    pub ty: ResolvedType,
    pub kind: KindModel,
}

/// The content of a callee.
pub open spec fn callee_model(c: Callee) -> CalleeModel {
    CalleeModel {
        name: c.name@,
        parent_struct: match c.parent_struct { Some(p) => Some(p@), None => None },
        param_names: c.param_names@.map_values(|s: String| s@),
    }
}

/// The content of an expression.
pub open spec fn expr_model(e: ResolvedExpr) -> ExprModel
    decreases e, 0nat,
{
    ExprModel { span: e.span, ty: e.ty, kind: kind_model(e.kind) }
}

/// The content of an expression kind.
pub open spec fn kind_model(k: ResolvedExprKind) -> KindModel
    decreases k, 0nat,
{
    match k {
        ResolvedExprKind::IntLit { value } => KindModel::Lit(LitModel::Int(value)),
        ResolvedExprKind::FloatLit { scaled } => KindModel::Lit(LitModel::Float(scaled)),
        ResolvedExprKind::BoolLit { value } => KindModel::Lit(LitModel::Bool(value)),
        ResolvedExprKind::Var { name } => KindModel::Var(name@),
        ResolvedExprKind::Index { array, index } => KindModel::Bin(BinOp::Index, Box::new(expr_model(*array)), Box::new(expr_model(*index))),
        ResolvedExprKind::Add { lhs, rhs } => KindModel::Bin(BinOp::Add, Box::new(expr_model(*lhs)), Box::new(expr_model(*rhs))),
        ResolvedExprKind::Sub { lhs, rhs } => KindModel::Bin(BinOp::Sub, Box::new(expr_model(*lhs)), Box::new(expr_model(*rhs))),
        ResolvedExprKind::Mul { lhs, rhs } => KindModel::Bin(BinOp::Mul, Box::new(expr_model(*lhs)), Box::new(expr_model(*rhs))),
        ResolvedExprKind::Div { lhs, rhs } => KindModel::Bin(BinOp::Div, Box::new(expr_model(*lhs)), Box::new(expr_model(*rhs))),
        ResolvedExprKind::Mod { lhs, rhs } => KindModel::Bin(BinOp::Mod, Box::new(expr_model(*lhs)), Box::new(expr_model(*rhs))),
        ResolvedExprKind::Pow { lhs, rhs } => KindModel::Bin(BinOp::Pow, Box::new(expr_model(*lhs)), Box::new(expr_model(*rhs))),
        ResolvedExprKind::Eq { lhs, rhs } => KindModel::Bin(BinOp::Eq, Box::new(expr_model(*lhs)), Box::new(expr_model(*rhs))),
        ResolvedExprKind::NotEq { lhs, rhs } => KindModel::Bin(BinOp::NotEq, Box::new(expr_model(*lhs)), Box::new(expr_model(*rhs))),
        ResolvedExprKind::Lt { lhs, rhs } => KindModel::Bin(BinOp::Lt, Box::new(expr_model(*lhs)), Box::new(expr_model(*rhs))),
        ResolvedExprKind::Gt { lhs, rhs } => KindModel::Bin(BinOp::Gt, Box::new(expr_model(*lhs)), Box::new(expr_model(*rhs))),
        ResolvedExprKind::LtEq { lhs, rhs } => KindModel::Bin(BinOp::LtEq, Box::new(expr_model(*lhs)), Box::new(expr_model(*rhs))),
        ResolvedExprKind::GtEq { lhs, rhs } => KindModel::Bin(BinOp::GtEq, Box::new(expr_model(*lhs)), Box::new(expr_model(*rhs))),
        ResolvedExprKind::And { lhs, rhs } => KindModel::Bin(BinOp::And, Box::new(expr_model(*lhs)), Box::new(expr_model(*rhs))),
        ResolvedExprKind::Or { lhs, rhs } => KindModel::Bin(BinOp::Or, Box::new(expr_model(*lhs)), Box::new(expr_model(*rhs))),
        ResolvedExprKind::Neg { inner } => KindModel::Un(UnOp::Neg, Box::new(expr_model(*inner))),
        ResolvedExprKind::Ref { inner } => KindModel::Un(UnOp::Ref, Box::new(expr_model(*inner))),
        ResolvedExprKind::Deref { inner } => KindModel::Un(UnOp::Deref, Box::new(expr_model(*inner))),
        ResolvedExprKind::Paren { inner } => KindModel::Un(UnOp::Paren, Box::new(expr_model(*inner))),
        ResolvedExprKind::FieldAccess { receiver, field_name } =>
            KindModel::Field(Box::new(expr_model(*receiver)), field_name@),
        ResolvedExprKind::StructLit { name, fields } => KindModel::StructLit(name@, fields_model(fields@, 0)),
        ResolvedExprKind::FunctionCall { name, callee, args } =>
            KindModel::Call(name@, callee_model(callee), exprs_model(args@, 0)),
        ResolvedExprKind::MethodCall { receiver, method_name, callee, args } =>
            KindModel::Method(Box::new(expr_model(*receiver)), method_name@, callee_model(callee), exprs_model(args@, 0)),
        ResolvedExprKind::ArrayLit { elements } => KindModel::Array(exprs_model(elements@, 0)),
    }
}

/// The contents of the expressions `xs[i..]`.
pub open spec fn exprs_model(xs: Seq<ResolvedExpr>, i: int) -> Seq<ExprModel>
    decreases xs, xs.len() - i,
{
    if i < 0 || i >= xs.len() {
        Seq::empty()
    } else {
        seq![expr_model(xs[i])] + exprs_model(xs, i + 1)
    }
}

/// The content of a struct literal field.
pub open spec fn field_model(f: ResolvedStructLitField) -> FieldModel
    decreases f, 0nat,
{
    match f {
        ResolvedStructLitField::Field { name, value, span } =>
            FieldModel { computed: false, name: name@, value: expr_model(value), span },
        ResolvedStructLitField::ComputedProperty { name, value, span } =>
            FieldModel { computed: true, name: name@, value: expr_model(value), span },
    }
}

/// The contents of the struct literal fields `fs[i..]`.
pub open spec fn fields_model(fs: Seq<ResolvedStructLitField>, i: int) -> Seq<FieldModel>
    decreases fs, fs.len() - i,
{
    if i < 0 || i >= fs.len() {
        Seq::empty()
    } else {
        seq![field_model(fs[i])] + fields_model(fs, i + 1)
    }
}

/// Expression lists with elementwise equal contents have equal contents.
pub proof fn lemma_exprs_model_eq(xs: Seq<ResolvedExpr>, ys: Seq<ResolvedExpr>, i: int)
    requires
        0 <= i,
        xs.len() == ys.len(),
        forall|k: int| i <= k < xs.len() ==> #[trigger] expr_model(xs[k]) == expr_model(ys[k]),
    ensures
        exprs_model(xs, i) == exprs_model(ys, i),
    decreases xs.len() - i,
{
    if i < xs.len() {
        lemma_exprs_model_eq(xs, ys, i + 1);
        assert(expr_model(xs[i]) == expr_model(ys[i]));
    }
}

/// Field lists with elementwise equal contents have equal contents.
pub proof fn lemma_fields_model_eq(xs: Seq<ResolvedStructLitField>, ys: Seq<ResolvedStructLitField>, i: int)
    requires
        0 <= i,
        xs.len() == ys.len(),
        forall|k: int| i <= k < xs.len() ==> #[trigger] field_model(xs[k]) == field_model(ys[k]),
    ensures
        fields_model(xs, i) == fields_model(ys, i),
    decreases xs.len() - i,
{
    if i < xs.len() {
        lemma_fields_model_eq(xs, ys, i + 1);
        assert(field_model(xs[i]) == field_model(ys[i]));
    }
}

/// A copy of a callee.
pub fn copy_callee(c: &Callee) -> (r: Callee)
    ensures
        callee_model(r) == callee_model(*c),
{
    let parent_struct = match &c.parent_struct {
        Some(p) => Some(p.clone()),
        None => None,
    };
    let mut param_names: Vec<String> = Vec::new();
    let mut i: usize = 0;
    while i < c.param_names.len()
        invariant
            i <= c.param_names@.len(),
            param_names@.len() == i,
            forall|k: int| 0 <= k < i ==> #[trigger] param_names@[k]@ == c.param_names@[k]@,
        decreases c.param_names.len() - i,
    {
        param_names.push(c.param_names[i].clone());
        i = i + 1;
    }
    let r = Callee { name: c.name.clone(), parent_struct, param_names };
    assert(r.param_names@.map_values(|s: String| s@) =~= c.param_names@.map_values(|s: String| s@));
    r
}

/// A copy of an expression.
pub fn copy_expr(e: &ResolvedExpr) -> (r: ResolvedExpr)
    ensures
        expr_model(r) == expr_model(*e),
    decreases e,
{
    ResolvedExpr { span: e.span, kind: copy_kind(&e.kind), ty: copy_type(&e.ty) }
}

/// A copy of a list of expressions.
pub fn copy_exprs(xs: &Vec<ResolvedExpr>) -> (r: Vec<ResolvedExpr>)
    ensures
        exprs_model(r@, 0) == exprs_model(xs@, 0),
    decreases xs@,
{
    let mut r: Vec<ResolvedExpr> = Vec::new();
    let mut i: usize = 0;
    while i < xs.len()
        invariant
            i <= xs@.len(),
            r@.len() == i,
            forall|k: int| 0 <= k < i ==> #[trigger] expr_model(r@[k]) == expr_model(xs@[k]),
        decreases xs.len() - i,
    {
        assert(decreases_to!(xs@ => xs@[i as int]));
        r.push(copy_expr(&xs[i]));
        i = i + 1;
    }
    proof {
        lemma_exprs_model_eq(r@, xs@, 0);
    }
    r
}

/// A copy of a list of struct literal fields.
pub fn copy_fields(fs: &Vec<ResolvedStructLitField>) -> (r: Vec<ResolvedStructLitField>)
    ensures
        fields_model(r@, 0) == fields_model(fs@, 0),
    decreases fs@,
{
    let mut r: Vec<ResolvedStructLitField> = Vec::new();
    let mut i: usize = 0;
    while i < fs.len()
        invariant
            i <= fs@.len(),
            r@.len() == i,
            forall|k: int| 0 <= k < i ==> #[trigger] field_model(r@[k]) == field_model(fs@[k]),
        decreases fs.len() - i,
    {
        let f = match &fs[i] {
            ResolvedStructLitField::Field { name, value, span } => {
                assert(decreases_to!(fs@ => fs@[i as int]));
                ResolvedStructLitField::Field { name: name.clone(), value: copy_expr(value), span: *span }
            },
            ResolvedStructLitField::ComputedProperty { name, value, span } => {
                assert(decreases_to!(fs@ => fs@[i as int]));
                ResolvedStructLitField::ComputedProperty { name: name.clone(), value: copy_expr(value), span: *span }
            },
        };
        r.push(f);
        i = i + 1;
    }
    proof {
        lemma_fields_model_eq(r@, fs@, 0);
    }
    r
}

/// A copy of an expression kind.
pub fn copy_kind(k: &ResolvedExprKind) -> (r: ResolvedExprKind)
    ensures
        kind_model(r) == kind_model(*k),
    decreases k,
{
    match k {
        ResolvedExprKind::IntLit { value } => ResolvedExprKind::IntLit { value: *value },
        ResolvedExprKind::FloatLit { scaled } => ResolvedExprKind::FloatLit { scaled: *scaled },
        ResolvedExprKind::BoolLit { value } => ResolvedExprKind::BoolLit { value: *value },
        ResolvedExprKind::Var { name } => ResolvedExprKind::Var { name: name.clone() },
        ResolvedExprKind::Index { array, index } => ResolvedExprKind::Index { array: Box::new(copy_expr(array)), index: Box::new(copy_expr(index)) },
        ResolvedExprKind::Add { lhs, rhs } => ResolvedExprKind::Add { lhs: Box::new(copy_expr(lhs)), rhs: Box::new(copy_expr(rhs)) },
        ResolvedExprKind::Sub { lhs, rhs } => ResolvedExprKind::Sub { lhs: Box::new(copy_expr(lhs)), rhs: Box::new(copy_expr(rhs)) },
        ResolvedExprKind::Mul { lhs, rhs } => ResolvedExprKind::Mul { lhs: Box::new(copy_expr(lhs)), rhs: Box::new(copy_expr(rhs)) },
        ResolvedExprKind::Div { lhs, rhs } => ResolvedExprKind::Div { lhs: Box::new(copy_expr(lhs)), rhs: Box::new(copy_expr(rhs)) },
        ResolvedExprKind::Mod { lhs, rhs } => ResolvedExprKind::Mod { lhs: Box::new(copy_expr(lhs)), rhs: Box::new(copy_expr(rhs)) },
        ResolvedExprKind::Pow { lhs, rhs } => ResolvedExprKind::Pow { lhs: Box::new(copy_expr(lhs)), rhs: Box::new(copy_expr(rhs)) },
        ResolvedExprKind::Eq { lhs, rhs } => ResolvedExprKind::Eq { lhs: Box::new(copy_expr(lhs)), rhs: Box::new(copy_expr(rhs)) },
        ResolvedExprKind::NotEq { lhs, rhs } => ResolvedExprKind::NotEq { lhs: Box::new(copy_expr(lhs)), rhs: Box::new(copy_expr(rhs)) },
        ResolvedExprKind::Lt { lhs, rhs } => ResolvedExprKind::Lt { lhs: Box::new(copy_expr(lhs)), rhs: Box::new(copy_expr(rhs)) },
        ResolvedExprKind::Gt { lhs, rhs } => ResolvedExprKind::Gt { lhs: Box::new(copy_expr(lhs)), rhs: Box::new(copy_expr(rhs)) },
        ResolvedExprKind::LtEq { lhs, rhs } => ResolvedExprKind::LtEq { lhs: Box::new(copy_expr(lhs)), rhs: Box::new(copy_expr(rhs)) },
        ResolvedExprKind::GtEq { lhs, rhs } => ResolvedExprKind::GtEq { lhs: Box::new(copy_expr(lhs)), rhs: Box::new(copy_expr(rhs)) },
        ResolvedExprKind::And { lhs, rhs } => ResolvedExprKind::And { lhs: Box::new(copy_expr(lhs)), rhs: Box::new(copy_expr(rhs)) },
        ResolvedExprKind::Or { lhs, rhs } => ResolvedExprKind::Or { lhs: Box::new(copy_expr(lhs)), rhs: Box::new(copy_expr(rhs)) },
        ResolvedExprKind::Neg { inner } => ResolvedExprKind::Neg { inner: Box::new(copy_expr(inner)) },
        ResolvedExprKind::Ref { inner } => ResolvedExprKind::Ref { inner: Box::new(copy_expr(inner)) },
        ResolvedExprKind::Deref { inner } => ResolvedExprKind::Deref { inner: Box::new(copy_expr(inner)) },
        ResolvedExprKind::Paren { inner } => ResolvedExprKind::Paren { inner: Box::new(copy_expr(inner)) },
        ResolvedExprKind::FieldAccess { receiver, field_name } =>
            ResolvedExprKind::FieldAccess { receiver: Box::new(copy_expr(receiver)), field_name: field_name.clone() },
        ResolvedExprKind::StructLit { name, fields } =>
            ResolvedExprKind::StructLit { name: name.clone(), fields: copy_fields(fields) },
        ResolvedExprKind::FunctionCall { name, callee, args } =>
            ResolvedExprKind::FunctionCall { name: name.clone(), callee: copy_callee(callee), args: copy_exprs(args) },
        ResolvedExprKind::MethodCall { receiver, method_name, callee, args } => ResolvedExprKind::MethodCall {
            receiver: Box::new(copy_expr(receiver)),
            method_name: method_name.clone(),
            callee: copy_callee(callee),
            args: copy_exprs(args),
        },
        ResolvedExprKind::ArrayLit { elements } => ResolvedExprKind::ArrayLit { elements: copy_exprs(elements) },
    }
}

/// The contents of `xs[i..]`, element by element.
pub proof fn lemma_exprs_model_shape(xs: Seq<ResolvedExpr>, i: int)
    requires
        0 <= i <= xs.len(),
    ensures
        exprs_model(xs, i).len() == xs.len() - i,
        forall|k: int| 0 <= k < xs.len() - i ==> #[trigger] exprs_model(xs, i)[k] == expr_model(xs[i + k]),
    decreases xs.len() - i,
{
    if i < xs.len() {
        lemma_exprs_model_shape(xs, i + 1);
        assert forall|k: int| 0 <= k < xs.len() - i implies #[trigger] exprs_model(xs, i)[k] == expr_model(xs[i + k]) by {
            if k > 0 {
                assert(exprs_model(xs, i)[k] == exprs_model(xs, i + 1)[k - 1]);
            }
        }
    }
}

/// The contents of the fields `fs[i..]`, field by field.
pub proof fn lemma_fields_model_shape(fs: Seq<ResolvedStructLitField>, i: int)
    requires
        0 <= i <= fs.len(),
    ensures
        fields_model(fs, i).len() == fs.len() - i,
        forall|k: int| 0 <= k < fs.len() - i ==> #[trigger] fields_model(fs, i)[k] == field_model(fs[i + k]),
    decreases fs.len() - i,
{
    if i < fs.len() {
        lemma_fields_model_shape(fs, i + 1);
        assert forall|k: int| 0 <= k < fs.len() - i implies #[trigger] fields_model(fs, i)[k] == field_model(fs[i + k]) by {
            if k > 0 {
                assert(fields_model(fs, i)[k] == fields_model(fs, i + 1)[k - 1]);
            }
        }
    }
}

} // verus!
