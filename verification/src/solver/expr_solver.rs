//! Turning expressions into Z3 terms over the solver context's variables.
//!
//! A variable, a field of one or an element at a constant index stands for the Z3
//! constant of that primitive part of the variable tree (aliases followed). A field of
//! a struct literal stands for the value given to that field. Arithmetic and
//! comparisons mixing integers and reals promote the integer side to a real; `%` takes
//! integers only, and `**` always gives a real. `&` and `*` are looked through.

use vstd::prelude::*;
use crate::hir::{ResolvedExpr, ResolvedExprKind, ResolvedStructLitField};
use crate::solver::path::{PathComponent, ComponentView, VariablePath, path_view, path_name};
use crate::solver::context::{SolverContext, SolverError, SolverErrorModel, NodeModel, Z3Primitive, Value,
    primitive_term, variable_at, var_path, var_path_fits, solution_model};
use crate::solver::z3_api::{BoolTerm, TermModel, TermOp, bin, int_numeral, bool_literal, int_to_real, real_div, int_clone,
    real_clone, bool_clone, int_add, int_sub, int_mul, int_div, int_neg, int_eq, int_lt, int_gt, int_le, int_ge,
    real_add, real_sub, real_mul, real_neg, real_eq, real_lt, real_gt, real_le, real_ge, bool_eq, bool_not,
    int_modulo, int_power, real_power, bool_and, bool_or};
use crate::solver::z3_bridge::{Z3Ast, SortModel, sort_of, ast_model, mixed, kind_name, kind_label, compares};
use crate::text::{append_str, decimal};

verus! {

// ============================================================================
// What solving an expression gives
// ============================================================================

/// What the solver context holds that solving reads: the variable trees by root
/// name, the aliases, and the assignments of the last solution.
pub struct SolveModel {
    pub vars: Seq<(Seq<char>, NodeModel)>,
    pub aliases: Seq<(Seq<ComponentView>, Seq<ComponentView>)>,
    pub sol: Option<Seq<(Seq<ComponentView>, Value)>>,
}

/// The part of a context that solving reads.
pub open spec fn solve_model(ctx: SolverContext) -> SolveModel {
    SolveModel { vars: ctx.vars(), aliases: ctx.aliases(), sol: solution_model(ctx.solution()) }
}

/// The text of a path: `points[0].x`.
pub open spec fn view_name(p: Seq<ComponentView>) -> Seq<char>
    decreases p.len(),
{
    if p.len() == 0 {
        Seq::empty()
    } else {
        view_name(p.drop_last()) + match p.last() {
            ComponentView::Field(f) => if p.len() == 1 { f } else { seq!['.'] + f },
            ComponentView::Index(i) => seq!['['] + decimal(i as nat) + seq![']'],
        }
    }
}

/// The name of a path is the text of its view.
pub proof fn lemma_path_name_view(cs: Seq<PathComponent>)
    ensures
        path_name(cs) == view_name(path_view(cs)),
    decreases cs.len(),
{
    if cs.len() > 0 {
        lemma_path_name_view(cs.drop_last());
        assert(path_view(cs).drop_last() =~= path_view(cs.drop_last()));
    }
}

/// The sort of a leaf's constant.
pub open spec fn primitive_sort(p: Z3Primitive) -> SortModel {
    match p {
        Z3Primitive::Int(_) => SortModel::Int,
        Z3Primitive::Real(_) => SortModel::Real,
        Z3Primitive::Bool(_) => SortModel::Bool,
    }
}

/// A sort and the term of that sort, or the error that stopped solving.
pub type Solved = Result<(SortModel, TermModel), SolverErrorModel>;

/// The constant of the primitive part at the path `p` (aliases followed).
pub open spec fn path_leaf_spec(m: SolveModel, p: Seq<ComponentView>) -> Solved {
    match variable_at(m.vars, m.aliases, p) {
        None => Err(SolverErrorModel::UndefinedVariable(view_name(p))),
        Some(NodeModel::Leaf(prim)) => Ok((primitive_sort(prim), primitive_term(prim))),
        Some(_) => Err(SolverErrorModel::NotAPrimitiveType),
    }
}

/// The constant of the primitive part that the variable expression `e` denotes.
pub open spec fn leaf_spec(m: SolveModel, e: ResolvedExpr) -> Solved {
    match var_path(e, m.sol) {
        Err(x) => Err(x),
        Ok(p) => path_leaf_spec(m, p),
    }
}

/// The conjunction of `ts`, folded from the left; `true` when there is none.
pub open spec fn conjunction(ts: Seq<TermModel>) -> TermModel
    decreases ts.len(),
{
    if ts.len() == 0 {
        TermModel::BoolLit(true)
    } else if ts.len() == 1 {
        ts[0]
    } else {
        bin(TermOp::And, conjunction(ts.drop_last()), ts.last())
    }
}

/// The equality of the part at `p` and the solved value `v`, the value solved first;
/// `msg` for sorts that do not match.
pub open spec fn field_eq_term(m: SolveModel, p: Seq<ComponentView>, v: Solved, msg: Seq<char>) -> Result<TermModel, SolverErrorModel> {
    match v {
        Err(x) => Err(x),
        Ok((vs, vt)) => match path_leaf_spec(m, p) {
            Err(x) => Err(x),
            Ok((ps, pt)) => if (ps == SortModel::Bool) != (vs == SortModel::Bool) {
                Err(SolverErrorModel::UnsupportedExpression(msg))
            } else {
                Ok(mixed(TermOp::Eq, ps, pt, vs, vt))
            },
        },
    }
}

/// Prepends `t` to the equalities that follow, or passes on the first error.
pub open spec fn then_more(t: Result<TermModel, SolverErrorModel>, rest: Result<Seq<TermModel>, SolverErrorModel>) -> Result<Seq<TermModel>, SolverErrorModel> {
    match t {
        Err(x) => Err(x),
        Ok(a) => match rest {
            Err(x) => Err(x),
            Ok(r) => Ok(seq![a] + r),
        },
    }
}

/// Appends the equalities that follow to `ts`, or passes on the first error.
pub open spec fn then_all(ts: Result<Seq<TermModel>, SolverErrorModel>, rest: Result<Seq<TermModel>, SolverErrorModel>) -> Result<Seq<TermModel>, SolverErrorModel> {
    match ts {
        Err(x) => Err(x),
        Ok(a) => match rest {
            Err(x) => Err(x),
            Ok(r) => Ok(a + r),
        },
    }
}

/// The equalities of the parts under `p` and the plain fields `fs[i..]` of a nested
/// struct literal (the field `outer` of the outer literal); computed fields are passed
/// over.
pub open spec fn nested_eqs(m: SolveModel, p: Seq<ComponentView>, fs: Seq<ResolvedStructLitField>, i: int, outer: Seq<char>)
    -> Result<Seq<TermModel>, SolverErrorModel>
    decreases fs, fs.len() - i,
{
    if i < 0 || i >= fs.len() {
        Ok(Seq::empty())
    } else {
        match fs[i] {
            ResolvedStructLitField::Field { name, value, .. } => then_more(
                field_eq_term(m, p.push(ComponentView::Field(name@)), solve_spec(m, value),
                    "Type mismatch in nested struct field equality for field '"@ + outer + "."@ + name@ + "'"@),
                nested_eqs(m, p, fs, i + 1, outer)),
            ResolvedStructLitField::ComputedProperty { .. } => nested_eqs(m, p, fs, i + 1, outer),
        }
    }
}

/// The equalities of the parts under `p` and the fields `fs[i..]` of a struct literal;
/// a field holding a struct literal gives one equality per field of that literal.
pub open spec fn struct_eqs(m: SolveModel, p: Seq<ComponentView>, fs: Seq<ResolvedStructLitField>, i: int)
    -> Result<Seq<TermModel>, SolverErrorModel>
    decreases fs, fs.len() - i,
{
    if i < 0 || i >= fs.len() {
        Ok(Seq::empty())
    } else {
        match fs[i] {
            ResolvedStructLitField::Field { name, value, .. } => match value.kind {
                ResolvedExprKind::StructLit { fields: nested, .. } => then_all(
                    nested_eqs(m, p.push(ComponentView::Field(name@)), nested@, 0, name@),
                    struct_eqs(m, p, fs, i + 1)),
                _ => then_more(
                    field_eq_term(m, p.push(ComponentView::Field(name@)), solve_spec(m, value),
                        "Type mismatch in struct field equality for field '"@ + name@ + "'"@),
                    struct_eqs(m, p, fs, i + 1)),
            },
            ResolvedStructLitField::ComputedProperty { .. } =>
                Err(SolverErrorModel::UnsupportedExpression("Computed properties in struct equality not supported"@)),
        }
    }
}

/// `l op r` for `+ - * /`: booleans are refused with `msg`.
pub open spec fn arith_result(op: TermOp, l: Solved, r: Solved, msg: Seq<char>) -> Solved {
    match l {
        Err(x) => Err(x),
        Ok((ls, lt)) => match r {
            Err(x) => Err(x),
            Ok((rs, rt)) => if ls == SortModel::Bool || rs == SortModel::Bool {
                Err(SolverErrorModel::UnsupportedExpression(msg))
            } else if ls == SortModel::Int && rs == SortModel::Int {
                Ok((SortModel::Int, bin(op, lt, rt)))
            } else {
                Ok((SortModel::Real, mixed(op, ls, lt, rs, rt)))
            },
        },
    }
}

/// `l op r` for `< > <= >=`: booleans are refused with `msg`.
pub open spec fn compare_result(op: TermOp, l: Solved, r: Solved, msg: Seq<char>) -> Solved {
    match l {
        Err(x) => Err(x),
        Ok((ls, lt)) => match r {
            Err(x) => Err(x),
            Ok((rs, rt)) => if ls == SortModel::Bool || rs == SortModel::Bool {
                Err(SolverErrorModel::UnsupportedExpression(msg))
            } else {
                Ok((SortModel::Bool, mixed(op, ls, lt, rs, rt)))
            },
        },
    }
}

/// `l == r` (negated when `negate`): operands of one sort, or numbers; else `msg`.
pub open spec fn equality_result(negate: bool, l: Solved, r: Solved, msg: Seq<char>) -> Solved {
    match l {
        Err(x) => Err(x),
        Ok((ls, lt)) => match r {
            Err(x) => Err(x),
            Ok((rs, rt)) => if (ls == SortModel::Bool) != (rs == SortModel::Bool) {
                Err(SolverErrorModel::UnsupportedExpression(msg))
            } else if negate {
                Ok((SortModel::Bool, TermModel::Not(Box::new(mixed(TermOp::Eq, ls, lt, rs, rt)))))
            } else {
                Ok((SortModel::Bool, mixed(TermOp::Eq, ls, lt, rs, rt)))
            },
        },
    }
}

/// `l % r`: integers only.
pub open spec fn modulo_result(l: Solved, r: Solved) -> Solved {
    match l {
        Err(x) => Err(x),
        Ok((ls, lt)) => match r {
            Err(x) => Err(x),
            Ok((rs, rt)) => if ls == SortModel::Int && rs == SortModel::Int {
                Ok((SortModel::Int, bin(TermOp::Mod, lt, rt)))
            } else {
                Err(SolverErrorModel::UnsupportedExpression("Modulo operation only supported for integer types"@))
            },
        },
    }
}

/// `l ** r`: a real; booleans are refused.
pub open spec fn power_result(l: Solved, r: Solved) -> Solved {
    match l {
        Err(x) => Err(x),
        Ok((ls, lt)) => match r {
            Err(x) => Err(x),
            Ok((rs, rt)) => if ls == SortModel::Bool || rs == SortModel::Bool {
                Err(SolverErrorModel::UnsupportedExpression("Invalid types for power operation"@))
            } else {
                Ok((SortModel::Real, mixed(TermOp::Pow, ls, lt, rs, rt)))
            },
        },
    }
}

/// `l && r` or `l || r`: booleans only, else `msg`.
pub open spec fn logic_result(op: TermOp, l: Solved, r: Solved, msg: Seq<char>) -> Solved {
    match l {
        Err(x) => Err(x),
        Ok((ls, lt)) => match r {
            Err(x) => Err(x),
            Ok((rs, rt)) => if ls == SortModel::Bool && rs == SortModel::Bool {
                Ok((SortModel::Bool, bin(op, lt, rt)))
            } else {
                Err(SolverErrorModel::UnsupportedExpression(msg))
            },
        },
    }
}

/// `-x`: numbers only.
pub open spec fn negation_result(x: Solved) -> Solved {
    match x {
        Err(e) => Err(e),
        Ok((s, t)) => if s == SortModel::Bool {
            Err(SolverErrorModel::UnsupportedExpression("Cannot negate boolean expression"@))
        } else {
            Ok((s, TermModel::Neg(Box::new(t))))
        },
    }
}

/// The sort and term that solving `e` gives, or the error that stops it.
pub open spec fn solve_spec(m: SolveModel, e: ResolvedExpr) -> Solved
    decreases e, 0nat,
{
    match e.kind {
        ResolvedExprKind::IntLit { value } => Ok((SortModel::Int, TermModel::IntNum(value))),
        ResolvedExprKind::FloatLit { scaled } => Ok((SortModel::Real, bin(
            TermOp::Div,
            TermModel::ToReal(Box::new(TermModel::IntNum(scaled))),
            TermModel::ToReal(Box::new(TermModel::IntNum(1000000))),
        ))),
        ResolvedExprKind::BoolLit { value } => Ok((SortModel::Bool, TermModel::BoolLit(value))),
        ResolvedExprKind::Var { .. } | ResolvedExprKind::Index { .. } => leaf_spec(m, e),
        ResolvedExprKind::FieldAccess { receiver, field_name } => match receiver.kind {
            ResolvedExprKind::StructLit { fields, .. } => lit_field_spec(m, fields@, field_name@, 0),
            _ => leaf_spec(m, e),
        },
        ResolvedExprKind::Add { lhs, rhs } =>
            arith_result(TermOp::Add, solve_spec(m, *lhs), solve_spec(m, *rhs), "Invalid types for addition"@),
        ResolvedExprKind::Sub { lhs, rhs } =>
            arith_result(TermOp::Sub, solve_spec(m, *lhs), solve_spec(m, *rhs), "Invalid types for subtraction"@),
        ResolvedExprKind::Mul { lhs, rhs } =>
            arith_result(TermOp::Mul, solve_spec(m, *lhs), solve_spec(m, *rhs), "Invalid types for multiplication"@),
        ResolvedExprKind::Div { lhs, rhs } =>
            arith_result(TermOp::Div, solve_spec(m, *lhs), solve_spec(m, *rhs), "Invalid types for division"@),
        ResolvedExprKind::Mod { lhs, rhs } => modulo_result(solve_spec(m, *lhs), solve_spec(m, *rhs)),
        ResolvedExprKind::Pow { lhs, rhs } => power_result(solve_spec(m, *lhs), solve_spec(m, *rhs)),
        ResolvedExprKind::Eq { lhs, rhs } => match rhs.kind {
            ResolvedExprKind::StructLit { fields, .. } => match var_path(*lhs, m.sol) {
                Err(x) => Err(x),
                Ok(p) => match struct_eqs(m, p, fields@, 0) {
                    Err(x) => Err(x),
                    Ok(ts) => Ok((SortModel::Bool, conjunction(ts))),
                },
            },
            _ => equality_result(false, solve_spec(m, *lhs), solve_spec(m, *rhs), "Invalid types for equality comparison"@),
        },
        ResolvedExprKind::NotEq { lhs, rhs } =>
            equality_result(true, solve_spec(m, *lhs), solve_spec(m, *rhs), "Invalid types for not-equal comparison"@),
        ResolvedExprKind::Lt { lhs, rhs } =>
            compare_result(TermOp::Lt, solve_spec(m, *lhs), solve_spec(m, *rhs), "Invalid types for less-than comparison"@),
        ResolvedExprKind::LtEq { lhs, rhs } =>
            compare_result(TermOp::Le, solve_spec(m, *lhs), solve_spec(m, *rhs), "Invalid types for less-than-or-equal comparison"@),
        ResolvedExprKind::Gt { lhs, rhs } =>
            compare_result(TermOp::Gt, solve_spec(m, *lhs), solve_spec(m, *rhs), "Invalid types for greater-than comparison"@),
        ResolvedExprKind::GtEq { lhs, rhs } =>
            compare_result(TermOp::Ge, solve_spec(m, *lhs), solve_spec(m, *rhs), "Invalid types for greater-than-or-equal comparison"@),
        ResolvedExprKind::And { lhs, rhs } =>
            logic_result(TermOp::And, solve_spec(m, *lhs), solve_spec(m, *rhs), "Invalid types for logical AND"@),
        ResolvedExprKind::Or { lhs, rhs } =>
            logic_result(TermOp::Or, solve_spec(m, *lhs), solve_spec(m, *rhs), "Invalid types for logical OR"@),
        ResolvedExprKind::Neg { inner } => negation_result(solve_spec(m, *inner)),
        ResolvedExprKind::Ref { inner } => solve_spec(m, *inner),
        ResolvedExprKind::Deref { inner } => solve_spec(m, *inner),
        _ => Err(SolverErrorModel::UnsupportedExpression(kind_name(e.kind))),
    }
}

/// The value given to the field `name` among the struct literal's fields `fs[i..]`,
/// solved; an error naming the field when no plain field of that name is there.
pub open spec fn lit_field_spec(m: SolveModel, fs: Seq<ResolvedStructLitField>, name: Seq<char>, i: int) -> Solved
    decreases fs, fs.len() - i,
{
    if i < 0 || i >= fs.len() {
        Err(SolverErrorModel::UnsupportedExpression("Field '"@ + name + "' not found in struct literal"@))
    } else {
        match fs[i] {
            ResolvedStructLitField::Field { name: n, value, .. } => if n@ == name {
                solve_spec(m, value)
            } else {
                lit_field_spec(m, fs, name, i + 1)
            },
            _ => lit_field_spec(m, fs, name, i + 1),
        }
    }
}

/// Solving `e` evaluates no index with a machine overflow.
pub open spec fn solve_fits(m: SolveModel, e: ResolvedExpr) -> bool
    decreases e, 0nat,
{
    match e.kind {
        ResolvedExprKind::Var { .. } | ResolvedExprKind::Index { .. } => var_path_fits(e, m.sol),
        ResolvedExprKind::FieldAccess { receiver, .. } => match receiver.kind {
            ResolvedExprKind::StructLit { fields, .. } => lit_fields_fit(m, fields@, 0),
            _ => var_path_fits(e, m.sol),
        },
        ResolvedExprKind::Eq { lhs, rhs } => match rhs.kind {
            ResolvedExprKind::StructLit { fields, .. } => var_path_fits(*lhs, m.sol) && struct_fits(m, fields@, 0),
            _ => solve_fits(m, *lhs) && solve_fits(m, *rhs),
        },
        ResolvedExprKind::Add { lhs, rhs } | ResolvedExprKind::Sub { lhs, rhs } | ResolvedExprKind::Mul { lhs, rhs }
        | ResolvedExprKind::Div { lhs, rhs } | ResolvedExprKind::Mod { lhs, rhs } | ResolvedExprKind::Pow { lhs, rhs }
        | ResolvedExprKind::NotEq { lhs, rhs } | ResolvedExprKind::Lt { lhs, rhs }
        | ResolvedExprKind::LtEq { lhs, rhs } | ResolvedExprKind::Gt { lhs, rhs } | ResolvedExprKind::GtEq { lhs, rhs }
        | ResolvedExprKind::And { lhs, rhs } | ResolvedExprKind::Or { lhs, rhs } =>
            solve_fits(m, *lhs) && solve_fits(m, *rhs),
        ResolvedExprKind::Neg { inner } | ResolvedExprKind::Ref { inner } | ResolvedExprKind::Deref { inner } =>
            solve_fits(m, *inner),
        _ => true,
    }
}

/// [`solve_fits`] for the values of the fields `fs[i..]` of a struct literal compared
/// field-wise, and of the fields of the struct literals among them.
pub open spec fn struct_fits(m: SolveModel, fs: Seq<ResolvedStructLitField>, i: int) -> bool
    decreases fs, fs.len() - i,
{
    if i < 0 || i >= fs.len() {
        true
    } else {
        match fs[i] {
            ResolvedStructLitField::Field { value, .. } => match value.kind {
                ResolvedExprKind::StructLit { fields: nested, .. } => lit_fields_fit(m, nested@, 0) && struct_fits(m, fs, i + 1),
                _ => solve_fits(m, value) && struct_fits(m, fs, i + 1),
            },
            ResolvedStructLitField::ComputedProperty { .. } => struct_fits(m, fs, i + 1),
        }
    }
}

/// [`solve_fits`] for the values of the struct literal's fields `fs[i..]`.
pub open spec fn lit_fields_fit(m: SolveModel, fs: Seq<ResolvedStructLitField>, i: int) -> bool
    decreases fs, fs.len() - i,
{
    if i < 0 || i >= fs.len() {
        true
    } else {
        match fs[i] {
            ResolvedStructLitField::Field { value, .. } => solve_fits(m, value) && lit_fields_fit(m, fs, i + 1),
            ResolvedStructLitField::ComputedProperty { .. } => lit_fields_fit(m, fs, i + 1),
        }
    }
}

/// `r` is what solving owes for the specified outcome `spec`.
pub open spec fn solved(spec: Solved, r: Result<Z3Ast, SolverError>) -> bool {
    match spec {
        Ok((s, t)) => r matches Ok(a) && sort_of(a) == s && ast_model(a) == t,
        Err(x) => r matches Err(e) && e@ == x,
    }
}

// ============================================================================
// Solving (executable)
// ============================================================================

/// The operations `+ - * /`.
pub enum NumOp {
    Add,
    Sub,
    Mul,
    Div,
}

/// The term operation of a [`NumOp`].
pub open spec fn num_term_op(op: NumOp) -> TermOp {
    match op {
        NumOp::Add => TermOp::Add,
        NumOp::Sub => TermOp::Sub,
        NumOp::Mul => TermOp::Mul,
        NumOp::Div => TermOp::Div,
    }
}

/// The comparisons `< <= > >=`.
pub enum CmpOp {
    Lt,
    Le,
    Gt,
    Ge,
}

/// The term operation of a [`CmpOp`].
pub open spec fn cmp_term_op(op: CmpOp) -> TermOp {
    match op {
        CmpOp::Lt => TermOp::Lt,
        CmpOp::Le => TermOp::Le,
        CmpOp::Gt => TermOp::Gt,
        CmpOp::Ge => TermOp::Ge,
    }
}

/// The sort and term of a Z3 term.
pub open spec fn ast_solved(a: Z3Ast) -> (SortModel, TermModel) {
    (sort_of(a), ast_model(a))
}

/// Another handle to the constant of a leaf.
fn copy_primitive(p: &Z3Primitive) -> (a: Z3Ast)
    ensures
        sort_of(a) == primitive_sort(*p),
        ast_model(a) == primitive_term(*p),
{
    match p {
        Z3Primitive::Int(t) => Z3Ast::Int(int_clone(t)),
        Z3Primitive::Real(t) => Z3Ast::Real(real_clone(t)),
        Z3Primitive::Bool(t) => Z3Ast::Bool(bool_clone(t)),
    }
}

/// `l op r` for `+ - * /`; `None` for a boolean operand.
fn arith_terms(op: NumOp, l: &Z3Ast, r: &Z3Ast) -> (a: Option<Z3Ast>)
    ensures
        arith_result(num_term_op(op), Ok(ast_solved(*l)), Ok(ast_solved(*r)), Seq::empty()) matches Ok(x)
            ==> (a matches Some(y) && ast_solved(y) == x),
        arith_result(num_term_op(op), Ok(ast_solved(*l)), Ok(ast_solved(*r)), Seq::empty()) is Err ==> a is None,
{
    match (l, r) {
        (Z3Ast::Int(x), Z3Ast::Int(y)) => Some(Z3Ast::Int(match op {
            NumOp::Add => int_add(x, y),
            NumOp::Sub => int_sub(x, y),
            NumOp::Mul => int_mul(x, y),
            NumOp::Div => int_div(x, y),
        })),
        (Z3Ast::Bool(_), _) | (_, Z3Ast::Bool(_)) => None,
        _ => {
            let x = match l {
                Z3Ast::Int(t) => int_to_real(t),
                Z3Ast::Real(t) => real_clone(t),
                Z3Ast::Bool(_) => { return None; },
            };
            let y = match r {
                Z3Ast::Int(t) => int_to_real(t),
                Z3Ast::Real(t) => real_clone(t),
                Z3Ast::Bool(_) => { return None; },
            };
            Some(Z3Ast::Real(match op {
                NumOp::Add => real_add(&x, &y),
                NumOp::Sub => real_sub(&x, &y),
                NumOp::Mul => real_mul(&x, &y),
                NumOp::Div => real_div(&x, &y),
            }))
        },
    }
}

/// `l op r` for `< <= > >=`; `None` for a boolean operand.
fn compare_terms(op: CmpOp, l: &Z3Ast, r: &Z3Ast) -> (a: Option<Z3Ast>)
    ensures
        compare_result(cmp_term_op(op), Ok(ast_solved(*l)), Ok(ast_solved(*r)), Seq::empty()) matches Ok(x)
            ==> (a matches Some(y) && ast_solved(y) == x),
        compare_result(cmp_term_op(op), Ok(ast_solved(*l)), Ok(ast_solved(*r)), Seq::empty()) is Err ==> a is None,
{
    match (l, r) {
        (Z3Ast::Int(x), Z3Ast::Int(y)) => Some(Z3Ast::Bool(match op {
            CmpOp::Lt => int_lt(x, y),
            CmpOp::Le => int_le(x, y),
            CmpOp::Gt => int_gt(x, y),
            CmpOp::Ge => int_ge(x, y),
        })),
        (Z3Ast::Bool(_), _) | (_, Z3Ast::Bool(_)) => None,
        _ => {
            let x = match l {
                Z3Ast::Int(t) => int_to_real(t),
                Z3Ast::Real(t) => real_clone(t),
                Z3Ast::Bool(_) => { return None; },
            };
            let y = match r {
                Z3Ast::Int(t) => int_to_real(t),
                Z3Ast::Real(t) => real_clone(t),
                Z3Ast::Bool(_) => { return None; },
            };
            Some(Z3Ast::Bool(match op {
                CmpOp::Lt => real_lt(&x, &y),
                CmpOp::Le => real_le(&x, &y),
                CmpOp::Gt => real_gt(&x, &y),
                CmpOp::Ge => real_ge(&x, &y),
            }))
        },
    }
}

/// `l == r`, negated when `negate`; `None` for a boolean beside a number.
pub(crate) fn equality_terms(negate: bool, l: &Z3Ast, r: &Z3Ast) -> (a: Option<Z3Ast>)
    ensures
        equality_result(negate, Ok(ast_solved(*l)), Ok(ast_solved(*r)), Seq::empty()) matches Ok(x)
            ==> (a matches Some(y) && ast_solved(y) == x),
        equality_result(negate, Ok(ast_solved(*l)), Ok(ast_solved(*r)), Seq::empty()) is Err ==> a is None,
{
    let eq = match (l, r) {
        (Z3Ast::Int(x), Z3Ast::Int(y)) => int_eq(x, y),
        (Z3Ast::Real(x), Z3Ast::Real(y)) => real_eq(x, y),
        (Z3Ast::Bool(x), Z3Ast::Bool(y)) => bool_eq(x, y),
        (Z3Ast::Int(x), Z3Ast::Real(y)) => real_eq(&int_to_real(x), y),
        (Z3Ast::Real(x), Z3Ast::Int(y)) => real_eq(x, &int_to_real(y)),
        _ => { return None; },
    };
    if negate {
        Some(Z3Ast::Bool(bool_not(&eq)))
    } else {
        Some(Z3Ast::Bool(eq))
    }
}

/// `l % r`; `None` unless both are integers.
fn modulo_terms(l: &Z3Ast, r: &Z3Ast) -> (a: Option<Z3Ast>)
    ensures
        modulo_result(Ok(ast_solved(*l)), Ok(ast_solved(*r))) matches Ok(x) ==> (a matches Some(y) && ast_solved(y) == x),
        modulo_result(Ok(ast_solved(*l)), Ok(ast_solved(*r))) is Err ==> a is None,
{
    match (l, r) {
        (Z3Ast::Int(x), Z3Ast::Int(y)) => Some(Z3Ast::Int(int_modulo(x, y))),
        _ => None,
    }
}

/// `l ** r`, a real; `None` for a boolean operand.
fn power_terms(l: &Z3Ast, r: &Z3Ast) -> (a: Option<Z3Ast>)
    ensures
        power_result(Ok(ast_solved(*l)), Ok(ast_solved(*r))) matches Ok(x) ==> (a matches Some(y) && ast_solved(y) == x),
        power_result(Ok(ast_solved(*l)), Ok(ast_solved(*r))) is Err ==> a is None,
{
    match (l, r) {
        (Z3Ast::Int(x), Z3Ast::Int(y)) => Some(Z3Ast::Real(int_power(x, y))),
        (Z3Ast::Real(x), Z3Ast::Real(y)) => Some(Z3Ast::Real(real_power(x, y))),
        (Z3Ast::Int(x), Z3Ast::Real(y)) => Some(Z3Ast::Real(real_power(&int_to_real(x), y))),
        (Z3Ast::Real(x), Z3Ast::Int(y)) => Some(Z3Ast::Real(real_power(x, &int_to_real(y)))),
        _ => None,
    }
}

/// `l && r` (`or` false) or `l || r` (`or` true); `None` unless both are booleans.
fn logic_terms(or: bool, l: &Z3Ast, r: &Z3Ast) -> (a: Option<Z3Ast>)
    ensures
        logic_result(if or { TermOp::Or } else { TermOp::And }, Ok(ast_solved(*l)), Ok(ast_solved(*r)), Seq::empty()) matches Ok(x)
            ==> (a matches Some(y) && ast_solved(y) == x),
        logic_result(if or { TermOp::Or } else { TermOp::And }, Ok(ast_solved(*l)), Ok(ast_solved(*r)), Seq::empty()) is Err
            ==> a is None,
{
    match (l, r) {
        (Z3Ast::Bool(x), Z3Ast::Bool(y)) => Some(Z3Ast::Bool(if or { bool_or(x, y) } else { bool_and(x, y) })),
        _ => None,
    }
}

/// The error of an operation on operands of the wrong sorts.
pub(crate) fn type_error(msg: &str) -> (e: SolverError)
    ensures
        e@ == SolverErrorModel::UnsupportedExpression(msg@),
{
    SolverError::UnsupportedExpression(String::from_str(msg))
}

/// The constant of the primitive part that the variable expression `e` denotes.
pub(crate) fn solve_leaf<'src>(ctx: &SolverContext<'src>, e: &'src ResolvedExpr) -> (r: Result<Z3Ast, SolverError>)
    requires
        var_path_fits(*e, solve_model(*ctx).sol),
    ensures
        solved(leaf_spec(solve_model(*ctx), *e), r),
{
    let path = match ctx.build_variable_path(e) {
        Ok(p) => p,
        Err(x) => { return Err(x); },
    };
    path_leaf(ctx, &path)
}

/// The constant of the primitive part at `path`.
fn path_leaf<'src>(ctx: &SolverContext<'src>, path: &VariablePath<'src>) -> (r: Result<Z3Ast, SolverError>)
    ensures
        solved(path_leaf_spec(solve_model(*ctx), path_view(path.components@)), r),
{
    match ctx.get_variable(path) {
        None => {
            let name = path.to_z3_name();
            proof {
                lemma_path_name_view(path.components@);
            }
            Err(SolverError::UndefinedVariable(name))
        },
        Some(node) => match node.as_primitive() {
            None => Err(SolverError::NotAPrimitiveType),
            Some(p) => Ok(copy_primitive(p)),
        },
    }
}

/// The value given to the field `name` in the struct literal's `fields`, solved.
fn solve_lit_field<'src>(ctx: &SolverContext<'src>, fields: &'src Vec<ResolvedStructLitField>, name: &String)
    -> (r: Result<Z3Ast, SolverError>)
    requires
        lit_fields_fit(solve_model(*ctx), fields@, 0),
    ensures
        solved(lit_field_spec(solve_model(*ctx), fields@, name@, 0), r),
    decreases fields@, 0nat,
{
    let ghost m = solve_model(*ctx);
    let mut i: usize = 0;
    while i < fields.len()
        invariant
            i <= fields@.len(),
            m == solve_model(*ctx),
            lit_field_spec(m, fields@, name@, 0) == lit_field_spec(m, fields@, name@, i as int),
            lit_fields_fit(m, fields@, i as int),
        decreases fields.len() - i,
    {
        match &fields[i] {
            ResolvedStructLitField::Field { name: n, value, .. } => {
                if *n == *name {
                    assert(decreases_to!(fields@ => fields@[i as int]));
                    return solve_expr(ctx, value);
                }
            },
            ResolvedStructLitField::ComputedProperty { .. } => {},
        }
        i = i + 1;
    }
    let mut message = String::from_str("Field '");
    append_str(&mut message, name.as_str());
    append_str(&mut message, "' not found in struct literal");
    Err(SolverError::UnsupportedExpression(message))
}

/// The equality of the part at `path` and `value`, the value solved first; `msg` for
/// sorts that do not match.
pub(crate) fn field_equality<'src>(ctx: &SolverContext<'src>, path: &VariablePath<'src>, value: &'src ResolvedExpr, msg: String)
    -> (r: Result<BoolTerm, SolverError>)
    requires
        solve_fits(solve_model(*ctx), *value),
    ensures
        match field_eq_term(solve_model(*ctx), path_view(path.components@), solve_spec(solve_model(*ctx), *value), msg@) {
            Err(x) => r matches Err(e) && e@ == x,
            Ok(t) => r matches Ok(b) && b.model() == t,
        },
    decreases value, 2nat,
{
    let v = match solve_expr(ctx, value) { Ok(a) => a, Err(e) => { return Err(e); } };
    let var = match path_leaf(ctx, path) { Ok(a) => a, Err(e) => { return Err(e); } };
    match equality_terms(false, &var, &v) {
        Some(Z3Ast::Bool(b)) => Ok(b),
        _ => Err(SolverError::UnsupportedExpression(msg)),
    }
}

/// Adds `b` to the conjunction `acc` of the terms `ts`.
fn conjoin(acc: Option<BoolTerm>, b: BoolTerm, Ghost(ts): Ghost<Seq<TermModel>>) -> (r: Option<BoolTerm>)
    requires
        acc is None <==> ts.len() == 0,
        acc matches Some(a) ==> a.model() == conjunction(ts),
    ensures
        r matches Some(x) && x.model() == conjunction(ts.push(b.model())),
{
    assert(ts.push(b.model()).drop_last() =~= ts);
    match acc {
        None => Some(b),
        Some(a) => Some(bool_and(&a, &b)),
    }
}

/// `lhs == S { .. }`: the conjunction of the field-wise equalities of the parts of
/// `lhs` and the literal's `fields` (see [`struct_eqs`]).
#[verifier::loop_isolation(false)]
fn solve_struct_eq<'src>(ctx: &SolverContext<'src>, lhs: &'src ResolvedExpr, fields: &'src Vec<ResolvedStructLitField>)
    -> (r: Result<Z3Ast, SolverError>)
    requires
        var_path_fits(*lhs, solve_model(*ctx).sol),
        struct_fits(solve_model(*ctx), fields@, 0),
    ensures
        solved(match var_path(*lhs, solve_model(*ctx).sol) {
            Err(x) => Err(x),
            Ok(p) => match struct_eqs(solve_model(*ctx), p, fields@, 0) {
                Err(x) => Err(x),
                Ok(ts) => Ok((SortModel::Bool, conjunction(ts))),
            },
        }, r),
    decreases fields@, 0nat,
{
    let ghost m = solve_model(*ctx);
    let path = match ctx.build_variable_path(lhs) {
        Ok(p) => p,
        Err(x) => { return Err(x); },
    };
    let ghost p = path_view(path.components@);
    let mut acc: Option<BoolTerm> = None;
    let ghost mut ts: Seq<TermModel> = Seq::empty();
    let mut i: usize = 0;
    assert(then_all(Ok(Seq::<TermModel>::empty()), struct_eqs(m, p, fields@, 0)) == struct_eqs(m, p, fields@, 0)) by {
        match struct_eqs(m, p, fields@, 0) {
            Ok(r) => { assert(Seq::<TermModel>::empty() + r =~= r); },
            Err(_) => {},
        }
    }
    while i < fields.len()
        invariant
            i <= fields@.len(),
            m == solve_model(*ctx),
            p == path_view(path.components@),
            struct_fits(m, fields@, i as int),
            struct_eqs(m, p, fields@, 0) == then_all(Ok(ts), struct_eqs(m, p, fields@, i as int)),
            acc is None <==> ts.len() == 0,
            acc matches Some(a) ==> a.model() == conjunction(ts),
        decreases fields.len() - i,
    {
        assert(decreases_to!(fields@ => fields@[i as int]));
        match &fields[i] {
            ResolvedStructLitField::ComputedProperty { .. } => {
                assert(struct_eqs(m, p, fields@, i as int) == Err::<Seq<TermModel>, SolverErrorModel>(
                    SolverErrorModel::UnsupportedExpression("Computed properties in struct equality not supported"@)));
                return Err(type_error("Computed properties in struct equality not supported"));
            },
            ResolvedStructLitField::Field { name, value, .. } => {
                let field_path = path.with_field(name.as_str());
                let ghost fp = path_view(field_path.components@);
                assert(fp =~= p.push(ComponentView::Field(name@)));
                match &value.kind {
                    ResolvedExprKind::StructLit { fields: nested, .. } => {
                        let ghost rest = struct_eqs(m, p, fields@, i + 1);
                        let mut j: usize = 0;
                        assert(then_all(Ok(ts), then_all(nested_eqs(m, fp, nested@, 0, name@), rest))
                            == then_all(Ok(ts), then_all(nested_eqs(m, fp, nested@, j as int, name@), rest)));
                        while j < nested.len()
                            invariant
                                j <= nested@.len(),
                                m == solve_model(*ctx),
                                fp == path_view(field_path.components@),
                                lit_fields_fit(m, nested@, j as int),
                                struct_eqs(m, p, fields@, 0) == then_all(Ok(ts), then_all(nested_eqs(m, fp, nested@, j as int, name@), rest)),
                                acc is None <==> ts.len() == 0,
                                acc matches Some(a) ==> a.model() == conjunction(ts),
                            decreases nested.len() - j,
                        {
                            assert(decreases_to!(fields@ => fields@[i as int]));
                            assert(decreases_to!(fields@[i as int] => *value));
                            assert(decreases_to!(*value => value.kind));
                            assert(decreases_to!(value.kind => *nested));
                            assert(decreases_to!(*nested => nested@));
                            assert(decreases_to!(nested@ => nested@[j as int]));
                            match &nested[j] {
                                ResolvedStructLitField::Field { name: inner, value: inner_value, .. } => {
                                    let inner_path = field_path.with_field(inner.as_str());
                                    assert(path_view(inner_path.components@) =~= fp.push(ComponentView::Field(inner@)));
                                    let mut msg = String::from_str("Type mismatch in nested struct field equality for field '");
                                    append_str(&mut msg, name.as_str());
                                    append_str(&mut msg, ".");
                                    append_str(&mut msg, inner.as_str());
                                    append_str(&mut msg, "'");
                                    let ghost msg_v = msg@;
                                    let b = match field_equality(ctx, &inner_path, inner_value, msg) {
                                        Ok(b) => b,
                                        Err(e) => {
                                            assert(nested_eqs(m, fp, nested@, j as int, name@) == Err::<Seq<TermModel>, SolverErrorModel>(e@));
                                            return Err(e);
                                        },
                                    };
                                    proof {
                                        match nested_eqs(m, fp, nested@, j + 1, name@) {
                                            Ok(r1) => match rest {
                                                Ok(r2) => {
                                                    assert(ts + ((seq![b.model()] + r1) + r2) =~= ts.push(b.model()) + (r1 + r2));
                                                },
                                                Err(_) => {},
                                            },
                                            Err(_) => {},
                                        }
                                    }
                                    acc = conjoin(acc, b, Ghost(ts));
                                    proof {
                                        ts = ts.push(b.model());
                                    }
                                },
                                ResolvedStructLitField::ComputedProperty { .. } => {},
                            }
                            j = j + 1;
                        }
                        proof {
                            match rest {
                                Ok(r2) => { assert(Seq::<TermModel>::empty() + r2 =~= r2); assert(ts + r2 =~= ts + (Seq::<TermModel>::empty() + r2)); },
                                Err(_) => {},
                            }
                        }
                    },
                    _ => {
                        let mut msg = String::from_str("Type mismatch in struct field equality for field '");
                        append_str(&mut msg, name.as_str());
                        append_str(&mut msg, "'");
                        let b = match field_equality(ctx, &field_path, value, msg) {
                            Ok(b) => b,
                            Err(e) => {
                                assert(struct_eqs(m, p, fields@, i as int) == Err::<Seq<TermModel>, SolverErrorModel>(e@));
                                return Err(e);
                            },
                        };
                        proof {
                            match struct_eqs(m, p, fields@, i + 1) {
                                Ok(r1) => { assert(ts + (seq![b.model()] + r1) =~= ts.push(b.model()) + r1); },
                                Err(_) => {},
                            }
                        }
                        acc = conjoin(acc, b, Ghost(ts));
                        proof {
                            ts = ts.push(b.model());
                        }
                    },
                }
            },
        }
        i = i + 1;
    }
    proof {
        assert(ts + Seq::<TermModel>::empty() =~= ts);
    }
    match acc {
        Some(a) => Ok(Z3Ast::Bool(a)),
        None => Ok(Z3Ast::Bool(bool_literal(true))),
    }
}

/// The term of `+ - * /`.
fn solve_arith<'src>(ctx: &SolverContext<'src>, e: &'src ResolvedExpr) -> (r: Result<Z3Ast, SolverError>)
    requires
        e.kind is Add || e.kind is Sub || e.kind is Mul || e.kind is Div,
        solve_fits(solve_model(*ctx), *e),
    ensures
        solved(solve_spec(solve_model(*ctx), *e), r),
    decreases e, 0nat,
{
    match &e.kind {
        ResolvedExprKind::Add { lhs, rhs } => {
        let l = match solve_expr(ctx, lhs) { Ok(a) => a, Err(e) => { return Err(e); } };
        let r = match solve_expr(ctx, rhs) { Ok(a) => a, Err(e) => { return Err(e); } };
        match arith_terms(NumOp::Add, &l, &r) {
            Some(a) => Ok(a),
            None => Err(type_error("Invalid types for addition")),
        }
        },
        ResolvedExprKind::Sub { lhs, rhs } => {
        let l = match solve_expr(ctx, lhs) { Ok(a) => a, Err(e) => { return Err(e); } };
        let r = match solve_expr(ctx, rhs) { Ok(a) => a, Err(e) => { return Err(e); } };
        match arith_terms(NumOp::Sub, &l, &r) {
            Some(a) => Ok(a),
            None => Err(type_error("Invalid types for subtraction")),
        }
        },
        ResolvedExprKind::Mul { lhs, rhs } => {
        let l = match solve_expr(ctx, lhs) { Ok(a) => a, Err(e) => { return Err(e); } };
        let r = match solve_expr(ctx, rhs) { Ok(a) => a, Err(e) => { return Err(e); } };
        match arith_terms(NumOp::Mul, &l, &r) {
            Some(a) => Ok(a),
            None => Err(type_error("Invalid types for multiplication")),
        }
        },
        ResolvedExprKind::Div { lhs, rhs } => {
        let l = match solve_expr(ctx, lhs) { Ok(a) => a, Err(e) => { return Err(e); } };
        let r = match solve_expr(ctx, rhs) { Ok(a) => a, Err(e) => { return Err(e); } };
        match arith_terms(NumOp::Div, &l, &r) {
            Some(a) => Ok(a),
            None => Err(type_error("Invalid types for division")),
        }
        },
        _ => Err(type_error("")),
    }
}

/// The term of `< <= > >=`.
fn solve_compare<'src>(ctx: &SolverContext<'src>, e: &'src ResolvedExpr) -> (r: Result<Z3Ast, SolverError>)
    requires
        e.kind is Lt || e.kind is LtEq || e.kind is Gt || e.kind is GtEq,
        solve_fits(solve_model(*ctx), *e),
    ensures
        solved(solve_spec(solve_model(*ctx), *e), r),
    decreases e, 0nat,
{
    match &e.kind {
        ResolvedExprKind::Lt { lhs, rhs } => {
        let l = match solve_expr(ctx, lhs) { Ok(a) => a, Err(e) => { return Err(e); } };
        let r = match solve_expr(ctx, rhs) { Ok(a) => a, Err(e) => { return Err(e); } };
        match compare_terms(CmpOp::Lt, &l, &r) {
            Some(a) => Ok(a),
            None => Err(type_error("Invalid types for less-than comparison")),
        }
        },
        ResolvedExprKind::LtEq { lhs, rhs } => {
        let l = match solve_expr(ctx, lhs) { Ok(a) => a, Err(e) => { return Err(e); } };
        let r = match solve_expr(ctx, rhs) { Ok(a) => a, Err(e) => { return Err(e); } };
        match compare_terms(CmpOp::Le, &l, &r) {
            Some(a) => Ok(a),
            None => Err(type_error("Invalid types for less-than-or-equal comparison")),
        }
        },
        ResolvedExprKind::Gt { lhs, rhs } => {
        let l = match solve_expr(ctx, lhs) { Ok(a) => a, Err(e) => { return Err(e); } };
        let r = match solve_expr(ctx, rhs) { Ok(a) => a, Err(e) => { return Err(e); } };
        match compare_terms(CmpOp::Gt, &l, &r) {
            Some(a) => Ok(a),
            None => Err(type_error("Invalid types for greater-than comparison")),
        }
        },
        ResolvedExprKind::GtEq { lhs, rhs } => {
        let l = match solve_expr(ctx, lhs) { Ok(a) => a, Err(e) => { return Err(e); } };
        let r = match solve_expr(ctx, rhs) { Ok(a) => a, Err(e) => { return Err(e); } };
        match compare_terms(CmpOp::Ge, &l, &r) {
            Some(a) => Ok(a),
            None => Err(type_error("Invalid types for greater-than-or-equal comparison")),
        }
        },
        _ => Err(type_error("")),
    }
}

/// The term of `==` and `!=`.
fn solve_equality<'src>(ctx: &SolverContext<'src>, e: &'src ResolvedExpr) -> (r: Result<Z3Ast, SolverError>)
    requires
        e.kind is Eq || e.kind is NotEq,
        solve_fits(solve_model(*ctx), *e),
    ensures
        solved(solve_spec(solve_model(*ctx), *e), r),
    decreases e, 0nat,
{
    match &e.kind {
        ResolvedExprKind::Eq { lhs, rhs } => {
        if let ResolvedExprKind::StructLit { fields, .. } = &rhs.kind {
            assert(decreases_to!(*e => fields@));
            return solve_struct_eq(ctx, lhs, fields);
        }
        let l = match solve_expr(ctx, lhs) { Ok(a) => a, Err(e) => { return Err(e); } };
        let r = match solve_expr(ctx, rhs) { Ok(a) => a, Err(e) => { return Err(e); } };
        match equality_terms(false, &l, &r) {
            Some(a) => Ok(a),
            None => Err(type_error("Invalid types for equality comparison")),
        }
        },
        ResolvedExprKind::NotEq { lhs, rhs } => {
        let l = match solve_expr(ctx, lhs) { Ok(a) => a, Err(e) => { return Err(e); } };
        let r = match solve_expr(ctx, rhs) { Ok(a) => a, Err(e) => { return Err(e); } };
        match equality_terms(true, &l, &r) {
            Some(a) => Ok(a),
            None => Err(type_error("Invalid types for not-equal comparison")),
        }
        },
        _ => Err(type_error("")),
    }
}

/// The term of `%`, `**`, `&&` and `||`.
fn solve_other_binary<'src>(ctx: &SolverContext<'src>, e: &'src ResolvedExpr) -> (r: Result<Z3Ast, SolverError>)
    requires
        e.kind is Mod || e.kind is Pow || e.kind is And || e.kind is Or,
        solve_fits(solve_model(*ctx), *e),
    ensures
        solved(solve_spec(solve_model(*ctx), *e), r),
    decreases e, 0nat,
{
    match &e.kind {
        ResolvedExprKind::Mod { lhs, rhs } => {
        let l = match solve_expr(ctx, lhs) { Ok(a) => a, Err(e) => { return Err(e); } };
        let r = match solve_expr(ctx, rhs) { Ok(a) => a, Err(e) => { return Err(e); } };
        match modulo_terms(&l, &r) {
            Some(a) => Ok(a),
            None => Err(type_error("Modulo operation only supported for integer types")),
        }
        },
        ResolvedExprKind::Pow { lhs, rhs } => {
        let l = match solve_expr(ctx, lhs) { Ok(a) => a, Err(e) => { return Err(e); } };
        let r = match solve_expr(ctx, rhs) { Ok(a) => a, Err(e) => { return Err(e); } };
        match power_terms(&l, &r) {
            Some(a) => Ok(a),
            None => Err(type_error("Invalid types for power operation")),
        }
        },
        ResolvedExprKind::And { lhs, rhs } => {
        let l = match solve_expr(ctx, lhs) { Ok(a) => a, Err(e) => { return Err(e); } };
        let r = match solve_expr(ctx, rhs) { Ok(a) => a, Err(e) => { return Err(e); } };
        match logic_terms(false, &l, &r) {
            Some(a) => Ok(a),
            None => Err(type_error("Invalid types for logical AND")),
        }
        },
        ResolvedExprKind::Or { lhs, rhs } => {
        let l = match solve_expr(ctx, lhs) { Ok(a) => a, Err(e) => { return Err(e); } };
        let r = match solve_expr(ctx, rhs) { Ok(a) => a, Err(e) => { return Err(e); } };
        match logic_terms(true, &l, &r) {
            Some(a) => Ok(a),
            None => Err(type_error("Invalid types for logical OR")),
        }
        },
        _ => Err(type_error("")),
    }
}

/// The Z3 term of `e` over the constants of the context's variables (see
/// [`solve_spec`]); the context is only read.
pub fn solve_expr<'src>(ctx: &SolverContext<'src>, e: &'src ResolvedExpr) -> (r: Result<Z3Ast, SolverError>)
    requires
        solve_fits(solve_model(*ctx), *e),
    ensures
        solved(solve_spec(solve_model(*ctx), *e), r),
    decreases e, 1nat,
{
    match &e.kind {
        ResolvedExprKind::IntLit { value } => Ok(Z3Ast::Int(int_numeral(*value))),
        ResolvedExprKind::FloatLit { scaled } => {
            let num = int_to_real(&int_numeral(*scaled));
            let den = int_to_real(&int_numeral(1000000));
            Ok(Z3Ast::Real(real_div(&num, &den)))
        },
        ResolvedExprKind::BoolLit { value } => Ok(Z3Ast::Bool(bool_literal(*value))),
        ResolvedExprKind::Var { .. } | ResolvedExprKind::Index { .. } => solve_leaf(ctx, e),
        ResolvedExprKind::FieldAccess { receiver, field_name } => match &receiver.kind {
            ResolvedExprKind::StructLit { fields, .. } => {
                assert(decreases_to!(*e => fields@));
                solve_lit_field(ctx, fields, field_name)
            },
            _ => solve_leaf(ctx, e),
        },
        ResolvedExprKind::Add { .. } | ResolvedExprKind::Sub { .. } | ResolvedExprKind::Mul { .. }
        | ResolvedExprKind::Div { .. } => solve_arith(ctx, e),
        ResolvedExprKind::Lt { .. } | ResolvedExprKind::LtEq { .. } | ResolvedExprKind::Gt { .. }
        | ResolvedExprKind::GtEq { .. } => solve_compare(ctx, e),
        ResolvedExprKind::Eq { .. } | ResolvedExprKind::NotEq { .. } => solve_equality(ctx, e),
        ResolvedExprKind::Mod { .. } | ResolvedExprKind::Pow { .. } | ResolvedExprKind::And { .. }
        | ResolvedExprKind::Or { .. } => solve_other_binary(ctx, e),
        ResolvedExprKind::Neg { inner } => {
            let x = match solve_expr(ctx, inner) { Ok(a) => a, Err(e) => { return Err(e); } };
            match x {
                Z3Ast::Int(t) => Ok(Z3Ast::Int(int_neg(&t))),
                Z3Ast::Real(t) => Ok(Z3Ast::Real(real_neg(&t))),
                Z3Ast::Bool(_) => Err(type_error("Cannot negate boolean expression")),
            }
        },
        ResolvedExprKind::Ref { inner } => solve_expr(ctx, inner),
        ResolvedExprKind::Deref { inner } => solve_expr(ctx, inner),
        _ => Err(SolverError::UnsupportedExpression(String::from_str(kind_label(&e.kind)))),
    }
}

/// The term of an order comparison is the Z3 comparison of that same operator applied
/// to the operands' terms: `a < b` is `lt`, `a <= b` is `le`, `a > b` is `gt`,
/// `a >= b` is `ge`. Its sort is boolean, and it is solved exactly when both operands
/// are solved to numbers.
pub proof fn lemma_order_comparison_terms(m: SolveModel, e: ResolvedExpr)
    ensures
        e.kind matches ResolvedExprKind::Lt { lhs, rhs } ==> ordered_as(solve_spec(m, e), TermOp::Lt, solve_spec(m, *lhs), solve_spec(m, *rhs)),
        e.kind matches ResolvedExprKind::LtEq { lhs, rhs } ==> ordered_as(solve_spec(m, e), TermOp::Le, solve_spec(m, *lhs), solve_spec(m, *rhs)),
        e.kind matches ResolvedExprKind::Gt { lhs, rhs } ==> ordered_as(solve_spec(m, e), TermOp::Gt, solve_spec(m, *lhs), solve_spec(m, *rhs)),
        e.kind matches ResolvedExprKind::GtEq { lhs, rhs } ==> ordered_as(solve_spec(m, e), TermOp::Ge, solve_spec(m, *lhs), solve_spec(m, *rhs)),
{
}

/// `r` is the comparison `op` of the solved operands `l` and `r`: it is solved exactly
/// when both are solved to numbers, and then it is a boolean term comparing them by `op`.
pub open spec fn ordered_as(res: Solved, op: TermOp, l: Solved, r: Solved) -> bool {
    match (l, r) {
        (Ok((ls, lt)), Ok((rs, rt))) => if ls != SortModel::Bool && rs != SortModel::Bool {
            match res {
                Ok((s, t)) => s == SortModel::Bool && compares(t, op, lt, rt),
                Err(_) => false,
            }
        } else {
            res is Err
        },
        _ => res is Err,
    }
}

} // verus!
