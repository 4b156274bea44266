//! Translation of a constraint problem into Z3 assertions.
//!
//! Each variable becomes a Z3 constant of its sort (`i32` an integer; `f64`, `real`
//! and `algebraic` a real; `bool` a boolean) and a variable with an initializer is
//! asserted equal to it. Arithmetic and comparisons mixing integers and reals promote
//! the integer side to a real. A constraint is asserted as is; a conditional
//! constraint pairs its branches' constraints into if-then-else assertions, and the
//! unpaired rest of the longer branch becomes implications from the condition (then
//! branch) or from its negation (else branch).
//!
//! A floating-point literal, held as its value times one million, becomes that integer
//! divided by one million.
//!
//! Every term carries a model of how it was built (see `z3_api`), and the solver
//! carries the record of the terms asserted to it; the contracts below state which
//! term each expression translates to and which terms reach the solver.

use vstd::prelude::*;
use crate::hir::{ResolvedType, ResolvedExpr, ResolvedExprKind};
use crate::lexer::Span;
use crate::text::{append_str, append_u64, push_char, decimal};
use crate::solver::constraint_extractor::{Variable, VariableModel, Constraint, ConditionalConstraint,
    ConditionalModel, ConstraintProblem, ProblemModel, dotted, at_text};
use crate::solver::z3_api::{no_nul, int_const, real_const, bool_const, int_numeral,
    bool_literal, int_clone, real_clone, bool_clone, int_to_real, real_to_int, int_add, int_sub, int_mul,
    int_div, int_neg, int_eq, int_lt, int_gt, int_le, int_ge, real_add, real_sub, real_mul, real_div,
    real_neg, real_eq, real_lt, real_gt, real_le, real_ge, bool_eq, bool_not, bool_implies, ite_int,
    ite_real, ite_bool, new_solver, solver_assert, IntTerm, RealTerm, BoolTerm, TermModel, TermOp, TermSolver, bin};

verus! {

// ============================================================================
// Errors
// ============================================================================

/// Errors of the translation to Z3.
#[derive(Debug)]
pub enum Z3BridgeError {
    /// An expression kind that has no Z3 translation.
    UnsupportedExpression { expr_type: String, span: Span, message: String },
    /// A variable type that has no Z3 sort.
    UnsupportedType { type_label: String, span: Span, message: String },
    /// A name that denotes no translated variable.
    VariableNotFound { var_name: String, span: Span },
    /// Operands of sorts that the operation does not combine.
    TypeMismatch { expected: String, found: String, span: Span },
}

/// The content of a translation error.
pub enum BridgeErrorModel {
    UnsupportedExpression { expr_type: Seq<char>, span: Span, message: Seq<char> },
    UnsupportedType { type_label: Seq<char>, span: Span, message: Seq<char> },
    VariableNotFound { var_name: Seq<char>, span: Span },
    TypeMismatch { expected: Seq<char>, found: Seq<char>, span: Span },
}

impl View for Z3BridgeError {
    type V = BridgeErrorModel;

    open spec fn view(&self) -> BridgeErrorModel {
        match self {
            Z3BridgeError::UnsupportedExpression { expr_type, span, message } =>
                BridgeErrorModel::UnsupportedExpression { expr_type: expr_type@, span: *span, message: message@ },
            Z3BridgeError::UnsupportedType { type_label, span, message } =>
                BridgeErrorModel::UnsupportedType { type_label: type_label@, span: *span, message: message@ },
            Z3BridgeError::VariableNotFound { var_name, span } =>
                BridgeErrorModel::VariableNotFound { var_name: var_name@, span: *span },
            Z3BridgeError::TypeMismatch { expected, found, span } =>
                BridgeErrorModel::TypeMismatch { expected: expected@, found: found@, span: *span },
        }
    }
}

/// The message of a translation error.
pub open spec fn bridge_error_text(e: BridgeErrorModel) -> Seq<char> {
    match e {
        BridgeErrorModel::UnsupportedExpression { expr_type, span, message } =>
            "Unsupported expression '"@ + expr_type + "'"@ + at_text(span) + ": "@ + message,
        BridgeErrorModel::UnsupportedType { type_label, span, message } =>
            "Unsupported type '"@ + type_label + "'"@ + at_text(span) + ": "@ + message,
        BridgeErrorModel::VariableNotFound { var_name, span } =>
            "Variable '"@ + var_name + "' not found"@ + at_text(span),
        BridgeErrorModel::TypeMismatch { expected, found, span } =>
            "Type mismatch"@ + at_text(span) + ": expected "@ + expected + ", found "@ + found,
    }
}

fn append_position(out: &mut String, span: Span)
    ensures
        final(out)@ == old(out)@ + at_text(span),
{
    append_str(out, " at line ");
    append_u64(out, span.start.line as u64);
    append_str(out, ", column ");
    append_u64(out, span.start.column as u64);
}

impl Z3BridgeError {
    /// The message of the error.
    pub fn to_text(&self) -> (s: String)
        ensures
            s@ == bridge_error_text(self@),
    {
        match self {
            Z3BridgeError::UnsupportedExpression { expr_type, span, message } => {
                let mut s = String::from_str("Unsupported expression '");
                append_str(&mut s, expr_type.as_str());
                append_str(&mut s, "'");
                append_position(&mut s, *span);
                append_str(&mut s, ": ");
                append_str(&mut s, message.as_str());
                s
            },
            Z3BridgeError::UnsupportedType { type_label, span, message } => {
                let mut s = String::from_str("Unsupported type '");
                append_str(&mut s, type_label.as_str());
                append_str(&mut s, "'");
                append_position(&mut s, *span);
                append_str(&mut s, ": ");
                append_str(&mut s, message.as_str());
                s
            },
            Z3BridgeError::VariableNotFound { var_name, span } => {
                let mut s = String::from_str("Variable '");
                append_str(&mut s, var_name.as_str());
                append_str(&mut s, "' not found");
                append_position(&mut s, *span);
                s
            },
            Z3BridgeError::TypeMismatch { expected, found, span } => {
                let mut s = String::from_str("Type mismatch");
                append_position(&mut s, *span);
                append_str(&mut s, ": expected ");
                append_str(&mut s, expected.as_str());
                append_str(&mut s, ", found ");
                append_str(&mut s, found.as_str());
                s
            },
        }
    }
}

/// A type mismatch error.
pub open spec fn mismatch(expected: Seq<char>, found: Seq<char>, span: Span) -> BridgeErrorModel {
    BridgeErrorModel::TypeMismatch { expected, found, span }
}

fn mismatch_error(expected: &str, found: &str, span: Span) -> (e: Z3BridgeError)
    ensures
        e@ == mismatch(expected@, found@, span),
{
    Z3BridgeError::TypeMismatch { expected: String::from_str(expected), found: String::from_str(found), span }
}

// ============================================================================
// Z3 terms by sort
// ============================================================================

/// A Z3 term of one of the three sorts the solver uses.
pub enum Z3Ast {
    Int(IntTerm),
    Real(RealTerm),
    Bool(BoolTerm),
}

/// How a term was built.
pub open spec fn ast_model(a: Z3Ast) -> TermModel {
    match a {
        Z3Ast::Int(t) => t.model(),
        Z3Ast::Real(t) => t.model(),
        Z3Ast::Bool(t) => t.model(),
    }
}

/// The sorts of Z3 terms.
#[derive(Debug, Clone, Copy, PartialEq, Eq)]
pub enum SortModel {
    Int,
    Real,
    Bool,
}

/// The sort of a term.
pub open spec fn sort_of(a: Z3Ast) -> SortModel {
    match a {
        Z3Ast::Int(_) => SortModel::Int,
        Z3Ast::Real(_) => SortModel::Real,
        Z3Ast::Bool(_) => SortModel::Bool,
    }
}

/// The name of a sort in error messages.
pub open spec fn sort_name(s: SortModel) -> Seq<char> {
    match s {
        SortModel::Int => "Int"@,
        SortModel::Real => "Real"@,
        SortModel::Bool => "Bool"@,
    }
}

/// Viewing a term as a boolean: refused for the other sorts.
pub open spec fn bool_check(s: SortModel, span: Span) -> Option<BridgeErrorModel> {
    if s == SortModel::Bool { None } else { Some(mismatch("Bool"@, sort_name(s), span)) }
}

/// Viewing a term as an integer: refused for the other sorts.
pub open spec fn int_check(s: SortModel, span: Span) -> Option<BridgeErrorModel> {
    if s == SortModel::Int { None } else { Some(mismatch("Int"@, sort_name(s), span)) }
}

/// Viewing a term as a real: refused for the other sorts.
pub open spec fn real_check(s: SortModel, span: Span) -> Option<BridgeErrorModel> {
    if s == SortModel::Real { None } else { Some(mismatch("Real"@, sort_name(s), span)) }
}

/// Converting a term to a number of either sort: booleans are refused.
pub open spec fn numeric_check(s: SortModel, span: Span) -> Option<BridgeErrorModel> {
    if s == SortModel::Bool { Some(mismatch("Int or Real"@, "Bool"@, span)) } else { None }
}

impl Z3Ast {
    /// The integer term.
    pub fn as_int(&self, span: Span) -> (r: Result<&IntTerm, Z3BridgeError>)
        ensures
            r is Ok <==> int_check(sort_of(*self), span) is None,
            r matches Ok(t) ==> t.model() == ast_model(*self),
            r matches Err(e) ==> Some(e@) == int_check(sort_of(*self), span),
    {
        match self {
            Z3Ast::Int(i) => Ok(i),
            Z3Ast::Real(_) => Err(mismatch_error("Int", "Real", span)),
            Z3Ast::Bool(_) => Err(mismatch_error("Int", "Bool", span)),
        }
    }

    /// The real term.
    pub fn as_real(&self, span: Span) -> (r: Result<&RealTerm, Z3BridgeError>)
        ensures
            r is Ok <==> real_check(sort_of(*self), span) is None,
            r matches Ok(t) ==> t.model() == ast_model(*self),
            r matches Err(e) ==> Some(e@) == real_check(sort_of(*self), span),
    {
        match self {
            Z3Ast::Real(r) => Ok(r),
            Z3Ast::Int(_) => Err(mismatch_error("Real", "Int", span)),
            Z3Ast::Bool(_) => Err(mismatch_error("Real", "Bool", span)),
        }
    }

    /// The boolean term.
    pub fn as_bool(&self, span: Span) -> (r: Result<&BoolTerm, Z3BridgeError>)
        ensures
            r is Ok <==> bool_check(sort_of(*self), span) is None,
            r matches Ok(t) ==> t.model() == ast_model(*self),
            r matches Err(e) ==> Some(e@) == bool_check(sort_of(*self), span),
    {
        match self {
            Z3Ast::Bool(b) => Ok(b),
            Z3Ast::Int(_) => Err(mismatch_error("Bool", "Int", span)),
            Z3Ast::Real(_) => Err(mismatch_error("Bool", "Real", span)),
        }
    }

    /// The term as an integer; a real is truncated to its integer part.
    pub fn to_int(&self, span: Span) -> (r: Result<IntTerm, Z3BridgeError>)
        ensures
            r is Ok <==> numeric_check(sort_of(*self), span) is None,
            r matches Ok(t) ==> t.model() == (if sort_of(*self) == SortModel::Real {
                TermModel::ToInt(Box::new(ast_model(*self)))
            } else {
                ast_model(*self)
            }),
            r matches Err(e) ==> Some(e@) == numeric_check(sort_of(*self), span),
    {
        match self {
            Z3Ast::Int(i) => Ok(int_clone(i)),
            Z3Ast::Real(r) => Ok(real_to_int(r)),
            Z3Ast::Bool(_) => Err(mismatch_error("Int or Real", "Bool", span)),
        }
    }

    /// The term as a real; an integer is promoted.
    pub fn to_real(&self, span: Span) -> (r: Result<RealTerm, Z3BridgeError>)
        ensures
            r is Ok <==> numeric_check(sort_of(*self), span) is None,
            r matches Ok(t) ==> t.model() == promoted(sort_of(*self), ast_model(*self)),
            r matches Err(e) ==> Some(e@) == numeric_check(sort_of(*self), span),
    {
        match self {
            Z3Ast::Real(r) => Ok(real_clone(r)),
            Z3Ast::Int(i) => Ok(int_to_real(i)),
            Z3Ast::Bool(_) => Err(mismatch_error("Int or Real", "Bool", span)),
        }
    }

    /// Another handle to the same term.
    pub fn duplicate(&self) -> (r: Z3Ast)
        ensures
            sort_of(r) == sort_of(*self),
            ast_model(r) == ast_model(*self),
    {
        match self {
            Z3Ast::Int(i) => Z3Ast::Int(int_clone(i)),
            Z3Ast::Real(r) => Z3Ast::Real(real_clone(r)),
            Z3Ast::Bool(b) => Z3Ast::Bool(bool_clone(b)),
        }
    }
}

// ============================================================================
// What translation computes
// ============================================================================

/// The sort of `+ - * /` on operands of sorts `l` and `r`: integers stay integers,
/// a real operand makes the result real, booleans are refused.
pub open spec fn arith_sort(l: SortModel, r: SortModel, span: Span) -> Result<SortModel, BridgeErrorModel> {
    if l == SortModel::Bool || r == SortModel::Bool {
        Err(mismatch("Int or Real"@, "Bool"@, span))
    } else if l == SortModel::Int && r == SortModel::Int {
        Ok(SortModel::Int)
    } else {
        Ok(SortModel::Real)
    }
}

/// The sort of `==`: operands of one sort, or an integer and a real, give a boolean.
pub open spec fn eq_sort(l: SortModel, r: SortModel, span: Span) -> Result<SortModel, BridgeErrorModel> {
    if l == r || (l != SortModel::Bool && r != SortModel::Bool) {
        Ok(SortModel::Bool)
    } else {
        Err(mismatch("matching types"@, "mismatched types"@, span))
    }
}

/// The sort of `< > <= >=`: numeric operands give a boolean.
pub open spec fn cmp_sort(l: SortModel, r: SortModel, span: Span) -> Result<SortModel, BridgeErrorModel> {
    if l == SortModel::Bool || r == SortModel::Bool {
        Err(mismatch("Int or Real"@, "Bool"@, span))
    } else {
        Ok(SortModel::Bool)
    }
}

/// The sort of unary `-`.
pub open spec fn neg_sort(s: SortModel, span: Span) -> Result<SortModel, BridgeErrorModel> {
    if s == SortModel::Bool { Err(mismatch("Int or Real"@, "Bool"@, span)) } else { Ok(s) }
}

/// The sort of `if c then t else e`: the condition must be boolean, the branches of
/// one sort, or an integer and a real (giving a real).
pub open spec fn ite_sort(c: SortModel, t: SortModel, e: SortModel, span: Span) -> Result<SortModel, BridgeErrorModel> {
    match bool_check(c, span) {
        Some(err) => Err(err),
        None => if t == e {
            Ok(t)
        } else if t != SortModel::Bool && e != SortModel::Bool {
            Ok(SortModel::Real)
        } else {
            Err(mismatch("matching types in then/else branches"@, "mismatched types"@, span))
        },
    }
}

/// The term `t` of sort `s` seen as a real: an integer is promoted.
pub open spec fn promoted(s: SortModel, t: TermModel) -> TermModel {
    if s == SortModel::Int { TermModel::ToReal(Box::new(t)) } else { t }
}

/// The term `l op r` for operands of sorts `ls` and `rs`: when one is an integer and
/// the other a real, the integer is promoted.
pub open spec fn mixed(op: TermOp, ls: SortModel, l: TermModel, rs: SortModel, r: TermModel) -> TermModel {
    if ls == SortModel::Int && rs == SortModel::Real {
        bin(op, TermModel::ToReal(Box::new(l)), r)
    } else if ls == SortModel::Real && rs == SortModel::Int {
        bin(op, l, TermModel::ToReal(Box::new(r)))
    } else {
        bin(op, l, r)
    }
}

/// `t` is the comparison `op` of `l` and `r`: a binary term of the operation `op`
/// whose operands are `l` and `r`, each possibly seen as a real.
pub open spec fn compares(t: TermModel, op: TermOp, l: TermModel, r: TermModel) -> bool {
    match t {
        TermModel::Bin(o, a, b) => o == op
            && (*a == l || *a == TermModel::ToReal(Box::new(l)))
            && (*b == r || *b == TermModel::ToReal(Box::new(r))),
        _ => false,
    }
}

/// The term `if c then t else e` for branches of sorts `ts` and `es`: an integer
/// branch beside a real one is promoted.
pub open spec fn ite_term(c: TermModel, ts: SortModel, t: TermModel, es: SortModel, e: TermModel) -> TermModel {
    if ts == SortModel::Int && es == SortModel::Real {
        TermModel::Ite(Box::new(c), Box::new(TermModel::ToReal(Box::new(t))), Box::new(e))
    } else if ts == SortModel::Real && es == SortModel::Int {
        TermModel::Ite(Box::new(c), Box::new(t), Box::new(TermModel::ToReal(Box::new(e))))
    } else {
        TermModel::Ite(Box::new(c), Box::new(t), Box::new(e))
    }
}

/// The constant named `name` of sort `s`.
pub open spec fn var_term(s: SortModel, name: Seq<char>) -> TermModel {
    match s {
        SortModel::Int => TermModel::IntConst(name),
        SortModel::Real => TermModel::RealConst(name),
        SortModel::Bool => TermModel::BoolConst(name),
    }
}

/// Kinds of binary operations, by how they combine sorts.
pub enum BinaryKind {
    Arith,
    Equality,
    Compare,
}

/// A binary operation on the translations `l` and `r`: the first failure, else the
/// sort the operation gives.
pub open spec fn binary_sort(k: BinaryKind, l: Result<SortModel, BridgeErrorModel>, r: Result<SortModel, BridgeErrorModel>, span: Span) -> Result<SortModel, BridgeErrorModel> {
    match l {
        Err(x) => Err(x),
        Ok(ls) => match r {
            Err(x) => Err(x),
            Ok(rs) => match k {
                BinaryKind::Arith => arith_sort(ls, rs, span),
                BinaryKind::Equality => eq_sort(ls, rs, span),
                BinaryKind::Compare => cmp_sort(ls, rs, span),
            },
        },
    }
}

/// The name of an expression kind, as error messages give it.
pub open spec fn kind_name(k: ResolvedExprKind) -> Seq<char> {
    match k {
        ResolvedExprKind::IntLit { .. } => "IntLit"@,
        ResolvedExprKind::FloatLit { .. } => "FloatLit"@,
        ResolvedExprKind::BoolLit { .. } => "BoolLit"@,
        ResolvedExprKind::Var { .. } => "Var"@,
        ResolvedExprKind::FieldAccess { .. } => "FieldAccess"@,
        ResolvedExprKind::Index { .. } => "Index"@,
        ResolvedExprKind::Add { .. } => "Add"@,
        ResolvedExprKind::Sub { .. } => "Sub"@,
        ResolvedExprKind::Mul { .. } => "Mul"@,
        ResolvedExprKind::Div { .. } => "Div"@,
        ResolvedExprKind::Mod { .. } => "Mod"@,
        ResolvedExprKind::Pow { .. } => "Pow"@,
        ResolvedExprKind::Eq { .. } => "Eq"@,
        ResolvedExprKind::NotEq { .. } => "NotEq"@,
        ResolvedExprKind::Lt { .. } => "Lt"@,
        ResolvedExprKind::Gt { .. } => "Gt"@,
        ResolvedExprKind::LtEq { .. } => "LtEq"@,
        ResolvedExprKind::GtEq { .. } => "GtEq"@,
        ResolvedExprKind::And { .. } => "And"@,
        ResolvedExprKind::Or { .. } => "Or"@,
        ResolvedExprKind::Neg { .. } => "Neg"@,
        ResolvedExprKind::Ref { .. } => "Ref"@,
        ResolvedExprKind::Deref { .. } => "Deref"@,
        ResolvedExprKind::Paren { .. } => "Paren"@,
        ResolvedExprKind::ArrayLit { .. } => "ArrayLit"@,
        ResolvedExprKind::StructLit { .. } => "StructLit"@,
        ResolvedExprKind::FunctionCall { .. } => "FunctionCall"@,
        ResolvedExprKind::MethodCall { .. } => "MethodCall"@,
    }
}

/// The position of the first entry named `name` at or after `i`.
pub open spec fn name_index(vars: Seq<(Seq<char>, SortModel)>, name: Seq<char>, i: int) -> Option<int>
    decreases vars.len() - i,
{
    if i < 0 || i >= vars.len() {
        None
    } else if vars[i].0 == name {
        Some(i)
    } else {
        name_index(vars, name, i + 1)
    }
}

/// The position found holds the name and no earlier position from `i` does.
pub proof fn lemma_name_index(vars: Seq<(Seq<char>, SortModel)>, name: Seq<char>, i: int)
    requires
        0 <= i,
    ensures
        match name_index(vars, name, i) {
            Some(j) => i <= j < vars.len() && vars[j].0 == name
                && forall|k: int| i <= k < j ==> vars[k].0 != name,
            None => forall|k: int| i <= k < vars.len() ==> vars[k].0 != name,
        },
    decreases vars.len() - i,
{
    if i < vars.len() && vars[i].0 != name {
        lemma_name_index(vars, name, i + 1);
    }
}

/// The sort of the variable named `name`: that of the first entry with that name.
pub open spec fn lookup_sort(vars: Seq<(Seq<char>, SortModel)>, name: Seq<char>) -> Option<SortModel> {
    match name_index(vars, name, 0) {
        Some(j) => Some(vars[j].1),
        None => None,
    }
}

/// A name's lookup: its sort, or the error naming it.
pub open spec fn lookup_or_missing(vars: Seq<(Seq<char>, SortModel)>, name: Seq<char>, span: Span) -> Result<SortModel, BridgeErrorModel> {
    match lookup_sort(vars, name) {
        Some(s) => Ok(s),
        None => Err(BridgeErrorModel::VariableNotFound { var_name: name, span }),
    }
}

/// The flattened name of the field `field` of `receiver` (`p.x`, `line.start.x`).
pub open spec fn field_name_spec(receiver: ResolvedExpr, field: Seq<char>) -> Result<Seq<char>, BridgeErrorModel>
    decreases receiver,
{
    match receiver.kind {
        ResolvedExprKind::Var { name } => Ok(dotted(name@, field)),
        ResolvedExprKind::FieldAccess { receiver: nested, field_name } => match field_name_spec(*nested, field_name@) {
            Ok(prefix) => Ok(dotted(prefix, field)),
            Err(x) => Err(x),
        },
        _ => Err(BridgeErrorModel::UnsupportedExpression {
            expr_type: kind_name(receiver.kind),
            span: receiver.span,
            message: "Field access receiver must be a variable or nested field access"@,
        }),
    }
}

/// The sort of the Z3 term that `e` translates to, given the sorts of the variables,
/// or the error that stops its translation.
pub open spec fn translate_spec(vars: Seq<(Seq<char>, SortModel)>, e: ResolvedExpr) -> Result<SortModel, BridgeErrorModel>
    decreases e,
{
    match e.kind {
        ResolvedExprKind::IntLit { .. } => Ok(SortModel::Int),
        ResolvedExprKind::FloatLit { .. } => Ok(SortModel::Real),
        ResolvedExprKind::BoolLit { .. } => Ok(SortModel::Bool),
        ResolvedExprKind::Var { name } => lookup_or_missing(vars, name@, e.span),
        ResolvedExprKind::Add { lhs, rhs } | ResolvedExprKind::Sub { lhs, rhs }
        | ResolvedExprKind::Mul { lhs, rhs } | ResolvedExprKind::Div { lhs, rhs } =>
            binary_sort(BinaryKind::Arith, translate_spec(vars, *lhs), translate_spec(vars, *rhs), e.span),
        ResolvedExprKind::Eq { lhs, rhs } | ResolvedExprKind::NotEq { lhs, rhs } =>
            binary_sort(BinaryKind::Equality, translate_spec(vars, *lhs), translate_spec(vars, *rhs), e.span),
        ResolvedExprKind::Lt { lhs, rhs } | ResolvedExprKind::Gt { lhs, rhs }
        | ResolvedExprKind::LtEq { lhs, rhs } | ResolvedExprKind::GtEq { lhs, rhs } =>
            binary_sort(BinaryKind::Compare, translate_spec(vars, *lhs), translate_spec(vars, *rhs), e.span),
        ResolvedExprKind::Neg { inner } => match translate_spec(vars, *inner) {
            Err(x) => Err(x),
            Ok(s) => neg_sort(s, e.span),
        },
        ResolvedExprKind::FieldAccess { receiver, field_name } => match field_name_spec(*receiver, field_name@) {
            Err(x) => Err(x),
            Ok(q) => lookup_or_missing(vars, q, e.span),
        },
        _ => Err(BridgeErrorModel::UnsupportedExpression {
            expr_type: kind_name(e.kind),
            span: e.span,
            message: "This expression type is not supported in constraint solving"@,
        }),
    }
}

/// The sort of a translation that succeeds (an integer otherwise).
pub open spec fn sort_or_int(r: Result<SortModel, BridgeErrorModel>) -> SortModel {
    match r {
        Ok(s) => s,
        Err(_) => SortModel::Int,
    }
}

/// The term of the variable named `name`: that of the first entry with that name.
pub open spec fn lookup_term(vars: Seq<(Seq<char>, SortModel)>, terms: Seq<TermModel>, name: Seq<char>) -> TermModel {
    match name_index(vars, name, 0) {
        Some(j) => terms[j],
        None => TermModel::IntNum(0),
    }
}

/// The term that `e` translates to, where its translation succeeds, given the
/// variables' sorts `vars` and terms `terms` (position by position).
pub open spec fn term_spec(vars: Seq<(Seq<char>, SortModel)>, terms: Seq<TermModel>, e: ResolvedExpr) -> TermModel
    decreases e,
{
    match e.kind {
        ResolvedExprKind::IntLit { value } => TermModel::IntNum(value),
        ResolvedExprKind::FloatLit { scaled } => bin(
            TermOp::Div,
            TermModel::ToReal(Box::new(TermModel::IntNum(scaled))),
            TermModel::ToReal(Box::new(TermModel::IntNum(1000000))),
        ),
        ResolvedExprKind::BoolLit { value } => TermModel::BoolLit(value),
        ResolvedExprKind::Var { name } => lookup_term(vars, terms, name@),
        ResolvedExprKind::Add { lhs, rhs } => mixed(TermOp::Add, sort_or_int(translate_spec(vars, *lhs)), term_spec(vars, terms, *lhs),
            sort_or_int(translate_spec(vars, *rhs)), term_spec(vars, terms, *rhs)),
        ResolvedExprKind::Sub { lhs, rhs } => mixed(TermOp::Sub, sort_or_int(translate_spec(vars, *lhs)), term_spec(vars, terms, *lhs),
            sort_or_int(translate_spec(vars, *rhs)), term_spec(vars, terms, *rhs)),
        ResolvedExprKind::Mul { lhs, rhs } => mixed(TermOp::Mul, sort_or_int(translate_spec(vars, *lhs)), term_spec(vars, terms, *lhs),
            sort_or_int(translate_spec(vars, *rhs)), term_spec(vars, terms, *rhs)),
        ResolvedExprKind::Div { lhs, rhs } => mixed(TermOp::Div, sort_or_int(translate_spec(vars, *lhs)), term_spec(vars, terms, *lhs),
            sort_or_int(translate_spec(vars, *rhs)), term_spec(vars, terms, *rhs)),
        ResolvedExprKind::Eq { lhs, rhs } => mixed(TermOp::Eq, sort_or_int(translate_spec(vars, *lhs)), term_spec(vars, terms, *lhs),
            sort_or_int(translate_spec(vars, *rhs)), term_spec(vars, terms, *rhs)),
        ResolvedExprKind::NotEq { lhs, rhs } => TermModel::Not(Box::new(mixed(TermOp::Eq, sort_or_int(translate_spec(vars, *lhs)), term_spec(vars, terms, *lhs),
            sort_or_int(translate_spec(vars, *rhs)), term_spec(vars, terms, *rhs)))),
        ResolvedExprKind::Lt { lhs, rhs } => mixed(TermOp::Lt, sort_or_int(translate_spec(vars, *lhs)), term_spec(vars, terms, *lhs),
            sort_or_int(translate_spec(vars, *rhs)), term_spec(vars, terms, *rhs)),
        ResolvedExprKind::Gt { lhs, rhs } => mixed(TermOp::Gt, sort_or_int(translate_spec(vars, *lhs)), term_spec(vars, terms, *lhs),
            sort_or_int(translate_spec(vars, *rhs)), term_spec(vars, terms, *rhs)),
        ResolvedExprKind::LtEq { lhs, rhs } => mixed(TermOp::Le, sort_or_int(translate_spec(vars, *lhs)), term_spec(vars, terms, *lhs),
            sort_or_int(translate_spec(vars, *rhs)), term_spec(vars, terms, *rhs)),
        ResolvedExprKind::GtEq { lhs, rhs } => mixed(TermOp::Ge, sort_or_int(translate_spec(vars, *lhs)), term_spec(vars, terms, *lhs),
            sort_or_int(translate_spec(vars, *rhs)), term_spec(vars, terms, *rhs)),
        ResolvedExprKind::Neg { inner } => TermModel::Neg(Box::new(term_spec(vars, terms, *inner))),
        ResolvedExprKind::FieldAccess { receiver, field_name } => match field_name_spec(*receiver, field_name@) {
            Ok(q) => lookup_term(vars, terms, q),
            Err(_) => TermModel::IntNum(0),
        },
        _ => TermModel::IntNum(0),
    }
}

/// `r` is what translation owes for the specified outcome `spec`: a term of the
/// specified sort built as `term`, or the specified error.
pub open spec fn translated(spec: Result<SortModel, BridgeErrorModel>, term: TermModel, r: Result<Z3Ast, Z3BridgeError>) -> bool {
    match spec {
        Ok(s) => r matches Ok(a) && sort_of(a) == s && ast_model(a) == term,
        Err(e) => r matches Err(x) && x@ == e,
    }
}

/// The sort of the constant for a variable of type `ty`.
pub open spec fn constant_sort(ty: ResolvedType) -> Result<SortModel, BridgeErrorModel> {
    match ty {
        ResolvedType::I32 { .. } => Ok(SortModel::Int),
        ResolvedType::F64 { .. } | ResolvedType::Real { .. } | ResolvedType::Algebraic { .. } => Ok(SortModel::Real),
        ResolvedType::Bool { .. } => Ok(SortModel::Bool),
        ResolvedType::Reference { span, .. } => Err(BridgeErrorModel::UnsupportedType {
            type_label: "Reference"@,
            span,
            message: "Reference types are not supported in constraint solving"@,
        }),
        ResolvedType::Array { span, .. } => Err(BridgeErrorModel::UnsupportedType {
            type_label: "Array"@,
            span,
            message: "Array types are not supported in constraint solving"@,
        }),
        ResolvedType::UserDefined { name, span, .. } => Err(BridgeErrorModel::UnsupportedType {
            type_label: name@,
            span,
            message: "User-defined types are not supported in constraint solving"@,
        }),
    }
}

// ============================================================================
// The bridge
// ============================================================================

/// The translated variables with their sorts and the terms of their constants
/// (position by position), and the terms asserted to the solver so far.
#[verifier::ext_equal]
pub struct BridgeModel {
    pub vars: Seq<(Seq<char>, SortModel)>,
    pub terms: Seq<TermModel>,
    pub asserted: Seq<TermModel>,
}

/// Holds the Z3 constant of each translated variable and the solver that receives
/// the assertions.
pub struct Z3Bridge {
    /// The variables translated so far with their constants, in order of translation.
    pub variables: Vec<(String, Z3Ast)>,
    /// The solver, with the record of what was asserted to it.
    pub solver: TermSolver,
}

/// The names and sorts of translated variables.
pub open spec fn entries_view(v: Seq<(String, Z3Ast)>) -> Seq<(Seq<char>, SortModel)> {
    v.map_values(|p: (String, Z3Ast)| (p.0@, sort_of(p.1)))
}

/// The terms of translated variables.
pub open spec fn terms_view(v: Seq<(String, Z3Ast)>) -> Seq<TermModel> {
    v.map_values(|p: (String, Z3Ast)| ast_model(p.1))
}

impl View for Z3Bridge {
    type V = BridgeModel;

    open spec fn view(&self) -> BridgeModel {
        BridgeModel { vars: entries_view(self.variables@), terms: terms_view(self.variables@), asserted: self.solver.asserted() }
    }
}

/// The terms after recording `t` for the variable `name`, beside [`insert_var`].
pub open spec fn insert_term(vars: Seq<(Seq<char>, SortModel)>, terms: Seq<TermModel>, name: Seq<char>, t: TermModel) -> Seq<TermModel> {
    match name_index(vars, name, 0) {
        Some(j) => terms.update(j, t),
        None => terms.push(t),
    }
}

/// The variables after translating `name` to a constant of sort `s`: an entry of that
/// name is replaced, else one is added at the end.
pub open spec fn insert_var(vars: Seq<(Seq<char>, SortModel)>, name: Seq<char>, s: SortModel) -> Seq<(Seq<char>, SortModel)> {
    match name_index(vars, name, 0) {
        Some(j) => vars.update(j, (name, s)),
        None => vars.push((name, s)),
    }
}

/// Recording a variable makes its name look up to the new sort and leaves the
/// lookup of every other name as it was.
pub proof fn lemma_insert_var_lookup(vars: Seq<(Seq<char>, SortModel)>, name: Seq<char>, s: SortModel, other: Seq<char>)
    ensures
        lookup_sort(insert_var(vars, name, s), name) == Some(s),
        other != name ==> lookup_sort(insert_var(vars, name, s), other) == lookup_sort(vars, other),
{
    let w = insert_var(vars, name, s);
    lemma_name_index(vars, name, 0);
    lemma_name_index(w, name, 0);
    lemma_name_index(vars, other, 0);
    lemma_name_index(w, other, 0);
    assert(w.len() >= vars.len());
    assert(forall|k: int| 0 <= k < vars.len() && vars[k].0 != name ==> w[k] == vars[k]);
    match name_index(vars, name, 0) {
        Some(j) => {
            assert(w[j].0 == name);
        },
        None => {
            assert(w[vars.len() as int].0 == name);
        },
    }
    if other != name {
        match name_index(vars, other, 0) {
            Some(j) => {
                assert(w[j] == vars[j]);
            },
            None => {
                assert forall|k: int| 0 <= k < w.len() implies w[k].0 != other by {
                    if k < vars.len() && vars[k].0 != name {
                        assert(w[k] == vars[k]);
                    }
                }
            },
        }
    }
}

/// The effect of translating the variable `v`, and the error that stopped it, if any.
/// The variable's constant, the constant named after it, is recorded before its
/// initializer is translated; with an initializer, the equality of the constant and
/// the initializer's term is asserted.
pub open spec fn add_variable_spec(m: BridgeModel, v: VariableModel) -> (BridgeModel, Option<BridgeErrorModel>) {
    match constant_sort(v.var_type) {
        Err(e) => (m, Some(e)),
        Ok(s) => {
            let m1 = BridgeModel {
                vars: insert_var(m.vars, v.name, s),
                terms: insert_term(m.vars, m.terms, v.name, var_term(s, v.name)),
                asserted: m.asserted,
            };
            match v.init {
                None => (m1, None),
                Some(ie) => match translate_spec(m1.vars, ie) {
                    Err(e) => (m1, Some(e)),
                    Ok(t) => match eq_sort(s, t, v.span) {
                        Err(e) => (m1, Some(e)),
                        Ok(_) => (
                            BridgeModel {
                                asserted: m1.asserted.push(mixed(TermOp::Eq, s, var_term(s, v.name), t, term_spec(m1.vars, m1.terms, ie))),
                                ..m1
                            },
                            None,
                        ),
                    },
                },
            }
        },
    }
}

/// The effect of asserting the constraint `e`: its term is asserted.
pub open spec fn add_constraint_spec(m: BridgeModel, e: ResolvedExpr) -> (BridgeModel, Option<BridgeErrorModel>) {
    match translate_spec(m.vars, e) {
        Err(x) => (m, Some(x)),
        Ok(s) => match bool_check(s, e.span) {
            Some(x) => (m, Some(x)),
            None => (BridgeModel { asserted: m.asserted.push(term_spec(m.vars, m.terms, e)), ..m }, None),
        },
    }
}

/// The term that step `k` of a conditional constraint asserts: `ite` of the condition
/// for a pair of constraints, an implication from the condition for a constraint of
/// the then branch alone, and one from its negation for a constraint of the else
/// branch alone.
pub open spec fn paired_term(vars: Seq<(Seq<char>, SortModel)>, terms: Seq<TermModel>, c: ConditionalModel, k: int) -> TermModel {
    let ct = term_spec(vars, terms, c.condition);
    if k < c.then_constraints.len() && k < c.else_constraints.len() {
        TermModel::Ite(
            Box::new(ct),
            Box::new(term_spec(vars, terms, c.then_constraints[k].expr)),
            Box::new(term_spec(vars, terms, c.else_constraints[k].expr)),
        )
    } else if k < c.then_constraints.len() {
        bin(TermOp::Implies, ct, term_spec(vars, terms, c.then_constraints[k].expr))
    } else {
        bin(TermOp::Implies, TermModel::Not(Box::new(ct)), term_spec(vars, terms, c.else_constraints[k].expr))
    }
}

/// Step `k` of a conditional constraint with `tn` then- and `en` else-constraints:
/// the `k`-th pair while both branches have one, then the rest of the longer branch.
pub open spec fn cond_step(vars: Seq<(Seq<char>, SortModel)>, terms: Seq<TermModel>, c: ConditionalModel, k: int) -> Result<TermModel, BridgeErrorModel> {
    let tn = c.then_constraints.len();
    let en = c.else_constraints.len();
    if k < tn && k < en {
        let t = c.then_constraints[k];
        let e = c.else_constraints[k];
        match translate_spec(vars, t.expr) {
            Err(x) => Err(x),
            Ok(ts) => match translate_spec(vars, e.expr) {
                Err(x) => Err(x),
                Ok(es) => match bool_check(ts, t.span) {
                    Some(x) => Err(x),
                    None => match bool_check(es, e.span) {
                        Some(x) => Err(x),
                        None => Ok(paired_term(vars, terms, c, k)),
                    },
                },
            },
        }
    } else if k < tn {
        let t = c.then_constraints[k];
        match translate_spec(vars, t.expr) {
            Err(x) => Err(x),
            Ok(ts) => match bool_check(ts, t.span) {
                Some(x) => Err(x),
                None => Ok(paired_term(vars, terms, c, k)),
            },
        }
    } else {
        let e = c.else_constraints[k];
        match translate_spec(vars, e.expr) {
            Err(x) => Err(x),
            Ok(es) => match bool_check(es, e.span) {
                Some(x) => Err(x),
                None => Ok(paired_term(vars, terms, c, k)),
            },
        }
    }
}

/// The number of assertions a conditional constraint makes: one per constraint of
/// its longer branch.
pub open spec fn step_count(c: ConditionalModel) -> int {
    if c.then_constraints.len() >= c.else_constraints.len() {
        c.then_constraints.len() as int
    } else {
        c.else_constraints.len() as int
    }
}

/// The formulas of the first `k` steps, stopping at the first failing step.
pub open spec fn cond_steps(vars: Seq<(Seq<char>, SortModel)>, terms: Seq<TermModel>, c: ConditionalModel, k: int) -> (Seq<TermModel>, Option<BridgeErrorModel>)
    decreases k,
{
    if k <= 0 {
        (Seq::empty(), None)
    } else {
        let (fs, e) = cond_steps(vars, terms, c, k - 1);
        if e is Some {
            (fs, e)
        } else {
            match cond_step(vars, terms, c, k - 1) {
                Ok(f) => (fs.push(f), None),
                Err(x) => (fs, Some(x)),
            }
        }
    }
}

/// The effect of asserting a conditional constraint: its condition must be boolean.
pub open spec fn add_conditional_spec(m: BridgeModel, c: ConditionalModel) -> (BridgeModel, Option<BridgeErrorModel>) {
    match translate_spec(m.vars, c.condition) {
        Err(x) => (m, Some(x)),
        Ok(s) => match bool_check(s, c.condition.span) {
            Some(x) => (m, Some(x)),
            None => {
                let (fs, e) = cond_steps(m.vars, m.terms, c, step_count(c));
                (BridgeModel { asserted: m.asserted + fs, ..m }, e)
            },
        },
    }
}

// ============================================================================
// Translation
// ============================================================================

/// The name of an expression kind.
pub(crate) fn kind_label(kind: &ResolvedExprKind) -> (s: &'static str)
    ensures
        s@ == kind_name(*kind),
{
    match kind {
        ResolvedExprKind::IntLit { .. } => "IntLit",
        ResolvedExprKind::FloatLit { .. } => "FloatLit",
        ResolvedExprKind::BoolLit { .. } => "BoolLit",
        ResolvedExprKind::Var { .. } => "Var",
        ResolvedExprKind::FieldAccess { .. } => "FieldAccess",
        ResolvedExprKind::Index { .. } => "Index",
        ResolvedExprKind::Add { .. } => "Add",
        ResolvedExprKind::Sub { .. } => "Sub",
        ResolvedExprKind::Mul { .. } => "Mul",
        ResolvedExprKind::Div { .. } => "Div",
        ResolvedExprKind::Mod { .. } => "Mod",
        ResolvedExprKind::Pow { .. } => "Pow",
        ResolvedExprKind::Eq { .. } => "Eq",
        ResolvedExprKind::NotEq { .. } => "NotEq",
        ResolvedExprKind::Lt { .. } => "Lt",
        ResolvedExprKind::Gt { .. } => "Gt",
        ResolvedExprKind::LtEq { .. } => "LtEq",
        ResolvedExprKind::GtEq { .. } => "GtEq",
        ResolvedExprKind::And { .. } => "And",
        ResolvedExprKind::Or { .. } => "Or",
        ResolvedExprKind::Neg { .. } => "Neg",
        ResolvedExprKind::Ref { .. } => "Ref",
        ResolvedExprKind::Deref { .. } => "Deref",
        ResolvedExprKind::Paren { .. } => "Paren",
        ResolvedExprKind::ArrayLit { .. } => "ArrayLit",
        ResolvedExprKind::StructLit { .. } => "StructLit",
        ResolvedExprKind::FunctionCall { .. } => "FunctionCall",
        ResolvedExprKind::MethodCall { .. } => "MethodCall",
    }
}

impl Default for Z3Bridge {
    /// A bridge with no variable and no assertion.
    fn default() -> (b: Z3Bridge)
        ensures
            b@.vars == Seq::<(Seq<char>, SortModel)>::empty(),
            b@.terms == Seq::<TermModel>::empty(),
            b@.asserted == Seq::<TermModel>::empty(),
    {
        Z3Bridge::new()
    }
}

impl Z3Bridge {
    /// A bridge with no variable and a solver with no assertion.
    pub fn new() -> (b: Z3Bridge)
        ensures
            b@.vars == Seq::<(Seq<char>, SortModel)>::empty(),
            b@.terms == Seq::<TermModel>::empty(),
            b@.asserted == Seq::<TermModel>::empty(),
    {
        let b = Z3Bridge { variables: Vec::new(), solver: new_solver() };
        assert(b@.vars =~= Seq::<(Seq<char>, SortModel)>::empty());
        assert(b@.terms =~= Seq::<TermModel>::empty());
        b
    }

    /// The solver holding the assertions.
    pub fn solver(&self) -> &z3::Solver {
        self.solver.raw()
    }

    /// The translated variables and their constants.
    pub fn variables(&self) -> (v: &Vec<(String, Z3Ast)>)
        ensures
            v == &self.variables,
    {
        &self.variables
    }

    /// The position of the variable named `name`.
    fn find_index(&self, name: &String) -> (r: Option<usize>)
        ensures
            r matches Some(i) ==> name_index(self@.vars, name@, 0) == Some(i as int),
            r is None ==> name_index(self@.vars, name@, 0) is None,
    {
        let ghost vars = self@.vars;
        let mut i: usize = 0;
        while i < self.variables.len()
            invariant
                i <= self.variables@.len(),
                vars == entries_view(self.variables@),
                name_index(vars, name@, 0) == name_index(vars, name@, i as int),
            decreases self.variables.len() - i,
        {
            assert(vars[i as int].0 == self.variables@[i as int].0@);
            if self.variables[i].0 == *name {
                return Some(i);
            }
            i = i + 1;
        }
        None
    }

    /// The constant of the variable named `name`, if it was translated.
    pub fn variable(&self, name: &String) -> (r: Option<&Z3Ast>)
        ensures
            match lookup_sort(self@.vars, name@) {
                Some(s) => r matches Some(a) && sort_of(*a) == s && ast_model(*a) == lookup_term(self@.vars, self@.terms, name@),
                None => r is None,
            },
    {
        proof {
            lemma_name_index(self@.vars, name@, 0);
        }
        match self.find_index(name) {
            Some(i) => {
                assert(self@.vars[i as int].1 == sort_of(self.variables@[i as int].1));
                assert(self@.terms[i as int] == ast_model(self.variables@[i as int].1));
                Some(&self.variables[i].1)
            },
            None => None,
        }
    }

    fn lookup_or_missing(&self, name: &String, span: Span) -> (r: Result<Z3Ast, Z3BridgeError>)
        ensures
            translated(lookup_or_missing(self@.vars, name@, span), lookup_term(self@.vars, self@.terms, name@), r),
    {
        match self.variable(name) {
            Some(a) => Ok(a.duplicate()),
            None => Err(Z3BridgeError::VariableNotFound { var_name: name.clone(), span }),
        }
    }

    /// Records the constant of the variable `name`, replacing an earlier one of that name.
    fn insert_variable(&mut self, name: String, ast: Z3Ast)
        ensures
            final(self)@.vars == insert_var(old(self)@.vars, name@, sort_of(ast)),
            final(self)@.terms == insert_term(old(self)@.vars, old(self)@.terms, name@, ast_model(ast)),
            final(self)@.asserted == old(self)@.asserted,
    {
        let ghost s = sort_of(ast);
        let ghost t = ast_model(ast);
        let ghost n = name@;
        proof {
            lemma_name_index(self@.vars, n, 0);
        }
        match self.find_index(&name) {
            Some(j) => {
                let _ = self.variables.remove(j);
                self.variables.insert(j, (name, ast));
                assert(self@.vars =~= old(self)@.vars.update(j as int, (n, s)));
                assert(self@.terms =~= old(self)@.terms.update(j as int, t));
                assert(insert_var(old(self)@.vars, n, s) == old(self)@.vars.update(j as int, (n, s)));
            },
            None => {
                self.variables.push((name, ast));
                assert(self@.vars =~= old(self)@.vars.push((n, s)));
                assert(self@.terms =~= old(self)@.terms.push(t));
            },
        }
    }

    /// The Z3 constant named `name` for a variable of type `ty`.
    pub fn create_z3_constant(&self, name: &str, ty: &ResolvedType) -> (r: Result<Z3Ast, Z3BridgeError>)
        requires
            no_nul(name@),
        ensures
            translated(constant_sort(*ty), var_term(sort_or_int(constant_sort(*ty)), name@), r),
    {
        match ty {
            ResolvedType::I32 { .. } => Ok(Z3Ast::Int(int_const(name))),
            ResolvedType::F64 { .. } => Ok(Z3Ast::Real(real_const(name))),
            ResolvedType::Bool { .. } => Ok(Z3Ast::Bool(bool_const(name))),
            ResolvedType::Real { .. } => Ok(Z3Ast::Real(real_const(name))),
            ResolvedType::Algebraic { .. } => Ok(Z3Ast::Real(real_const(name))),
            ResolvedType::Reference { span, .. } => Err(Z3BridgeError::UnsupportedType {
                type_label: String::from_str("Reference"),
                span: *span,
                message: String::from_str("Reference types are not supported in constraint solving"),
            }),
            ResolvedType::Array { span, .. } => Err(Z3BridgeError::UnsupportedType {
                type_label: String::from_str("Array"),
                span: *span,
                message: String::from_str("Array types are not supported in constraint solving"),
            }),
            ResolvedType::UserDefined { name: type_label, span, .. } => Err(Z3BridgeError::UnsupportedType {
                type_label: type_label.clone(),
                span: *span,
                message: String::from_str("User-defined types are not supported in constraint solving"),
            }),
        }
    }

    /// The flattened variable name that the field access `receiver.field_name` denotes.
    pub fn build_field_access_name(receiver: &ResolvedExpr, field_name: &str) -> (r: Result<String, Z3BridgeError>)
        ensures
            match field_name_spec(*receiver, field_name@) {
                Ok(q) => r matches Ok(s) && s@ == q,
                Err(e) => r matches Err(x) && x@ == e,
            },
        decreases receiver,
    {
        match &receiver.kind {
            ResolvedExprKind::Var { name } => {
                let mut q = name.clone();
                push_char(&mut q, '.');
                append_str(&mut q, field_name);
                assert(q@ =~= dotted(name@, field_name@));
                Ok(q)
            },
            ResolvedExprKind::FieldAccess { receiver: nested, field_name: nested_field } => {
                let mut q = match Self::build_field_access_name(nested, nested_field.as_str()) {
                    Ok(p) => p,
                    Err(e) => { return Err(e); },
                };
                let ghost prefix = q@;
                push_char(&mut q, '.');
                append_str(&mut q, field_name);
                assert(q@ =~= dotted(prefix, field_name@));
                Ok(q)
            },
            _ => Err(Z3BridgeError::UnsupportedExpression {
                expr_type: String::from_str(kind_label(&receiver.kind)),
                span: receiver.span,
                message: String::from_str("Field access receiver must be a variable or nested field access"),
            }),
        }
    }

    /// `lhs + rhs`; a real operand promotes the other.
    pub fn add_operation(&self, lhs: &Z3Ast, rhs: &Z3Ast, span: Span) -> (r: Result<Z3Ast, Z3BridgeError>)
        ensures
            translated(arith_sort(sort_of(*lhs), sort_of(*rhs), span),
                mixed(TermOp::Add, sort_of(*lhs), ast_model(*lhs), sort_of(*rhs), ast_model(*rhs)), r),
    {
        match (lhs, rhs) {
            (Z3Ast::Int(l), Z3Ast::Int(r)) => Ok(Z3Ast::Int(int_add(l, r))),
            (Z3Ast::Real(l), Z3Ast::Real(r)) => Ok(Z3Ast::Real(real_add(l, r))),
            (Z3Ast::Int(l), Z3Ast::Real(r)) => Ok(Z3Ast::Real(real_add(&int_to_real(l), r))),
            (Z3Ast::Real(l), Z3Ast::Int(r)) => Ok(Z3Ast::Real(real_add(l, &int_to_real(r)))),
            _ => Err(mismatch_error("Int or Real", "Bool", span)),
        }
    }

    /// `lhs - rhs`; a real operand promotes the other.
    pub fn sub_operation(&self, lhs: &Z3Ast, rhs: &Z3Ast, span: Span) -> (r: Result<Z3Ast, Z3BridgeError>)
        ensures
            translated(arith_sort(sort_of(*lhs), sort_of(*rhs), span),
                mixed(TermOp::Sub, sort_of(*lhs), ast_model(*lhs), sort_of(*rhs), ast_model(*rhs)), r),
    {
        match (lhs, rhs) {
            (Z3Ast::Int(l), Z3Ast::Int(r)) => Ok(Z3Ast::Int(int_sub(l, r))),
            (Z3Ast::Real(l), Z3Ast::Real(r)) => Ok(Z3Ast::Real(real_sub(l, r))),
            (Z3Ast::Int(l), Z3Ast::Real(r)) => Ok(Z3Ast::Real(real_sub(&int_to_real(l), r))),
            (Z3Ast::Real(l), Z3Ast::Int(r)) => Ok(Z3Ast::Real(real_sub(l, &int_to_real(r)))),
            _ => Err(mismatch_error("Int or Real", "Bool", span)),
        }
    }

    /// `lhs * rhs`; a real operand promotes the other.
    pub fn mul_operation(&self, lhs: &Z3Ast, rhs: &Z3Ast, span: Span) -> (r: Result<Z3Ast, Z3BridgeError>)
        ensures
            translated(arith_sort(sort_of(*lhs), sort_of(*rhs), span),
                mixed(TermOp::Mul, sort_of(*lhs), ast_model(*lhs), sort_of(*rhs), ast_model(*rhs)), r),
    {
        match (lhs, rhs) {
            (Z3Ast::Int(l), Z3Ast::Int(r)) => Ok(Z3Ast::Int(int_mul(l, r))),
            (Z3Ast::Real(l), Z3Ast::Real(r)) => Ok(Z3Ast::Real(real_mul(l, r))),
            (Z3Ast::Int(l), Z3Ast::Real(r)) => Ok(Z3Ast::Real(real_mul(&int_to_real(l), r))),
            (Z3Ast::Real(l), Z3Ast::Int(r)) => Ok(Z3Ast::Real(real_mul(l, &int_to_real(r)))),
            _ => Err(mismatch_error("Int or Real", "Bool", span)),
        }
    }

    /// `lhs / rhs` (integer division on integers); a real operand promotes the other.
    pub fn div_operation(&self, lhs: &Z3Ast, rhs: &Z3Ast, span: Span) -> (r: Result<Z3Ast, Z3BridgeError>)
        ensures
            translated(arith_sort(sort_of(*lhs), sort_of(*rhs), span),
                mixed(TermOp::Div, sort_of(*lhs), ast_model(*lhs), sort_of(*rhs), ast_model(*rhs)), r),
    {
        match (lhs, rhs) {
            (Z3Ast::Int(l), Z3Ast::Int(r)) => Ok(Z3Ast::Int(int_div(l, r))),
            (Z3Ast::Real(l), Z3Ast::Real(r)) => Ok(Z3Ast::Real(real_div(l, r))),
            (Z3Ast::Int(l), Z3Ast::Real(r)) => Ok(Z3Ast::Real(real_div(&int_to_real(l), r))),
            (Z3Ast::Real(l), Z3Ast::Int(r)) => Ok(Z3Ast::Real(real_div(l, &int_to_real(r)))),
            _ => Err(mismatch_error("Int or Real", "Bool", span)),
        }
    }

    /// `lhs < rhs`; a real operand promotes the other.
    pub fn lt_operation(&self, lhs: &Z3Ast, rhs: &Z3Ast, span: Span) -> (r: Result<Z3Ast, Z3BridgeError>)
        ensures
            translated(cmp_sort(sort_of(*lhs), sort_of(*rhs), span),
                mixed(TermOp::Lt, sort_of(*lhs), ast_model(*lhs), sort_of(*rhs), ast_model(*rhs)), r),
    {
        match (lhs, rhs) {
            (Z3Ast::Int(l), Z3Ast::Int(r)) => Ok(Z3Ast::Bool(int_lt(l, r))),
            (Z3Ast::Real(l), Z3Ast::Real(r)) => Ok(Z3Ast::Bool(real_lt(l, r))),
            (Z3Ast::Int(l), Z3Ast::Real(r)) => Ok(Z3Ast::Bool(real_lt(&int_to_real(l), r))),
            (Z3Ast::Real(l), Z3Ast::Int(r)) => Ok(Z3Ast::Bool(real_lt(l, &int_to_real(r)))),
            _ => Err(mismatch_error("Int or Real", "Bool", span)),
        }
    }

    /// `lhs > rhs`; a real operand promotes the other.
    pub fn gt_operation(&self, lhs: &Z3Ast, rhs: &Z3Ast, span: Span) -> (r: Result<Z3Ast, Z3BridgeError>)
        ensures
            translated(cmp_sort(sort_of(*lhs), sort_of(*rhs), span),
                mixed(TermOp::Gt, sort_of(*lhs), ast_model(*lhs), sort_of(*rhs), ast_model(*rhs)), r),
    {
        match (lhs, rhs) {
            (Z3Ast::Int(l), Z3Ast::Int(r)) => Ok(Z3Ast::Bool(int_gt(l, r))),
            (Z3Ast::Real(l), Z3Ast::Real(r)) => Ok(Z3Ast::Bool(real_gt(l, r))),
            (Z3Ast::Int(l), Z3Ast::Real(r)) => Ok(Z3Ast::Bool(real_gt(&int_to_real(l), r))),
            (Z3Ast::Real(l), Z3Ast::Int(r)) => Ok(Z3Ast::Bool(real_gt(l, &int_to_real(r)))),
            _ => Err(mismatch_error("Int or Real", "Bool", span)),
        }
    }

    /// `lhs <= rhs`; a real operand promotes the other.
    pub fn le_operation(&self, lhs: &Z3Ast, rhs: &Z3Ast, span: Span) -> (r: Result<Z3Ast, Z3BridgeError>)
        ensures
            translated(cmp_sort(sort_of(*lhs), sort_of(*rhs), span),
                mixed(TermOp::Le, sort_of(*lhs), ast_model(*lhs), sort_of(*rhs), ast_model(*rhs)), r),
    {
        match (lhs, rhs) {
            (Z3Ast::Int(l), Z3Ast::Int(r)) => Ok(Z3Ast::Bool(int_le(l, r))),
            (Z3Ast::Real(l), Z3Ast::Real(r)) => Ok(Z3Ast::Bool(real_le(l, r))),
            (Z3Ast::Int(l), Z3Ast::Real(r)) => Ok(Z3Ast::Bool(real_le(&int_to_real(l), r))),
            (Z3Ast::Real(l), Z3Ast::Int(r)) => Ok(Z3Ast::Bool(real_le(l, &int_to_real(r)))),
            _ => Err(mismatch_error("Int or Real", "Bool", span)),
        }
    }

    /// `lhs >= rhs`; a real operand promotes the other.
    pub fn ge_operation(&self, lhs: &Z3Ast, rhs: &Z3Ast, span: Span) -> (r: Result<Z3Ast, Z3BridgeError>)
        ensures
            translated(cmp_sort(sort_of(*lhs), sort_of(*rhs), span),
                mixed(TermOp::Ge, sort_of(*lhs), ast_model(*lhs), sort_of(*rhs), ast_model(*rhs)), r),
    {
        match (lhs, rhs) {
            (Z3Ast::Int(l), Z3Ast::Int(r)) => Ok(Z3Ast::Bool(int_ge(l, r))),
            (Z3Ast::Real(l), Z3Ast::Real(r)) => Ok(Z3Ast::Bool(real_ge(l, r))),
            (Z3Ast::Int(l), Z3Ast::Real(r)) => Ok(Z3Ast::Bool(real_ge(&int_to_real(l), r))),
            (Z3Ast::Real(l), Z3Ast::Int(r)) => Ok(Z3Ast::Bool(real_ge(l, &int_to_real(r)))),
            _ => Err(mismatch_error("Int or Real", "Bool", span)),
        }
    }

    /// `-inner`.
    pub fn neg_operation(&self, inner: &Z3Ast, span: Span) -> (r: Result<Z3Ast, Z3BridgeError>)
        ensures
            translated(neg_sort(sort_of(*inner), span), TermModel::Neg(Box::new(ast_model(*inner))), r),
    {
        match inner {
            Z3Ast::Int(i) => Ok(Z3Ast::Int(int_neg(i))),
            Z3Ast::Real(x) => Ok(Z3Ast::Real(real_neg(x))),
            Z3Ast::Bool(_) => Err(mismatch_error("Int or Real", "Bool", span)),
        }
    }

    /// `lhs == rhs`; a real operand promotes the other.
    pub fn eq_operation(&self, lhs: &Z3Ast, rhs: &Z3Ast, span: Span) -> (r: Result<Z3Ast, Z3BridgeError>)
        ensures
            translated(eq_sort(sort_of(*lhs), sort_of(*rhs), span),
                mixed(TermOp::Eq, sort_of(*lhs), ast_model(*lhs), sort_of(*rhs), ast_model(*rhs)), r),
    {
        match (lhs, rhs) {
            (Z3Ast::Int(l), Z3Ast::Int(r)) => Ok(Z3Ast::Bool(int_eq(l, r))),
            (Z3Ast::Real(l), Z3Ast::Real(r)) => Ok(Z3Ast::Bool(real_eq(l, r))),
            (Z3Ast::Bool(l), Z3Ast::Bool(r)) => Ok(Z3Ast::Bool(bool_eq(l, r))),
            (Z3Ast::Int(l), Z3Ast::Real(r)) => Ok(Z3Ast::Bool(real_eq(&int_to_real(l), r))),
            (Z3Ast::Real(l), Z3Ast::Int(r)) => Ok(Z3Ast::Bool(real_eq(l, &int_to_real(r)))),
            _ => Err(mismatch_error("matching types", "mismatched types", span)),
        }
    }

    /// The boolean `lhs == rhs`.
    pub fn create_equality(&self, lhs: &Z3Ast, rhs: &Z3Ast, span: Span) -> (r: Result<BoolTerm, Z3BridgeError>)
        ensures
            r is Ok <==> eq_sort(sort_of(*lhs), sort_of(*rhs), span) is Ok,
            r matches Ok(b) ==> b.model() == mixed(TermOp::Eq, sort_of(*lhs), ast_model(*lhs), sort_of(*rhs), ast_model(*rhs)),
            r matches Err(x) ==> eq_sort(sort_of(*lhs), sort_of(*rhs), span) == Err::<SortModel, BridgeErrorModel>(x@),
    {
        match self.eq_operation(lhs, rhs, span) {
            Err(e) => Err(e),
            Ok(a) => match a.as_bool(span) {
                Ok(b) => Ok(bool_clone(b)),
                Err(e) => Err(e),
            },
        }
    }

    /// `if condition then then_expr else else_expr`; mixed integer and real branches
    /// become real.
    pub fn create_ite(&self, condition: &Z3Ast, then_expr: &Z3Ast, else_expr: &Z3Ast, span: Span) -> (r: Result<Z3Ast, Z3BridgeError>)
        ensures
            translated(ite_sort(sort_of(*condition), sort_of(*then_expr), sort_of(*else_expr), span),
                ite_term(ast_model(*condition), sort_of(*then_expr), ast_model(*then_expr), sort_of(*else_expr), ast_model(*else_expr)), r),
    {
        let c = match condition.as_bool(span) {
            Ok(b) => b,
            Err(e) => { return Err(e); },
        };
        match (then_expr, else_expr) {
            (Z3Ast::Int(t), Z3Ast::Int(e)) => Ok(Z3Ast::Int(ite_int(c, t, e))),
            (Z3Ast::Real(t), Z3Ast::Real(e)) => Ok(Z3Ast::Real(ite_real(c, t, e))),
            (Z3Ast::Bool(t), Z3Ast::Bool(e)) => Ok(Z3Ast::Bool(ite_bool(c, t, e))),
            (Z3Ast::Int(t), Z3Ast::Real(e)) => Ok(Z3Ast::Real(ite_real(c, &int_to_real(t), e))),
            (Z3Ast::Real(t), Z3Ast::Int(e)) => Ok(Z3Ast::Real(ite_real(c, t, &int_to_real(e)))),
            _ => Err(mismatch_error("matching types in then/else branches", "mismatched types", span)),
        }
    }

    /// The translation of `+ - * /`.
    fn translate_arith(&self, expr: &ResolvedExpr) -> (r: Result<Z3Ast, Z3BridgeError>)
        requires
            expr.kind is Add || expr.kind is Sub || expr.kind is Mul || expr.kind is Div,
        ensures
            translated(translate_spec(self@.vars, *expr), term_spec(self@.vars, self@.terms, *expr), r),
        decreases expr, 0nat,
    {
        match &expr.kind {
            ResolvedExprKind::Add { lhs, rhs } => {
                let l = match self.translate_expr(lhs) { Ok(a) => a, Err(e) => { return Err(e); } };
                let r = match self.translate_expr(rhs) { Ok(a) => a, Err(e) => { return Err(e); } };
                self.add_operation(&l, &r, expr.span)
            },
            ResolvedExprKind::Sub { lhs, rhs } => {
                let l = match self.translate_expr(lhs) { Ok(a) => a, Err(e) => { return Err(e); } };
                let r = match self.translate_expr(rhs) { Ok(a) => a, Err(e) => { return Err(e); } };
                self.sub_operation(&l, &r, expr.span)
            },
            ResolvedExprKind::Mul { lhs, rhs } => {
                let l = match self.translate_expr(lhs) { Ok(a) => a, Err(e) => { return Err(e); } };
                let r = match self.translate_expr(rhs) { Ok(a) => a, Err(e) => { return Err(e); } };
                self.mul_operation(&l, &r, expr.span)
            },
            ResolvedExprKind::Div { lhs, rhs } => {
                let l = match self.translate_expr(lhs) { Ok(a) => a, Err(e) => { return Err(e); } };
                let r = match self.translate_expr(rhs) { Ok(a) => a, Err(e) => { return Err(e); } };
                self.div_operation(&l, &r, expr.span)
            },
            _ => {
                Err(Z3BridgeError::UnsupportedExpression {
                    expr_type: String::from_str(kind_label(&expr.kind)),
                    span: expr.span,
                    message: String::from_str("This expression type is not supported in constraint solving"),
                })
            },
        }
    }

    /// The translation of `< > <= >=`.
    fn translate_compare(&self, expr: &ResolvedExpr) -> (r: Result<Z3Ast, Z3BridgeError>)
        requires
            expr.kind is Lt || expr.kind is Gt || expr.kind is LtEq || expr.kind is GtEq,
        ensures
            translated(translate_spec(self@.vars, *expr), term_spec(self@.vars, self@.terms, *expr), r),
        decreases expr, 0nat,
    {
        match &expr.kind {
            ResolvedExprKind::Lt { lhs, rhs } => {
                let l = match self.translate_expr(lhs) { Ok(a) => a, Err(e) => { return Err(e); } };
                let r = match self.translate_expr(rhs) { Ok(a) => a, Err(e) => { return Err(e); } };
                self.lt_operation(&l, &r, expr.span)
            },
            ResolvedExprKind::Gt { lhs, rhs } => {
                let l = match self.translate_expr(lhs) { Ok(a) => a, Err(e) => { return Err(e); } };
                let r = match self.translate_expr(rhs) { Ok(a) => a, Err(e) => { return Err(e); } };
                self.gt_operation(&l, &r, expr.span)
            },
            ResolvedExprKind::LtEq { lhs, rhs } => {
                let l = match self.translate_expr(lhs) { Ok(a) => a, Err(e) => { return Err(e); } };
                let r = match self.translate_expr(rhs) { Ok(a) => a, Err(e) => { return Err(e); } };
                self.le_operation(&l, &r, expr.span)
            },
            ResolvedExprKind::GtEq { lhs, rhs } => {
                let l = match self.translate_expr(lhs) { Ok(a) => a, Err(e) => { return Err(e); } };
                let r = match self.translate_expr(rhs) { Ok(a) => a, Err(e) => { return Err(e); } };
                self.ge_operation(&l, &r, expr.span)
            },
            _ => {
                Err(Z3BridgeError::UnsupportedExpression {
                    expr_type: String::from_str(kind_label(&expr.kind)),
                    span: expr.span,
                    message: String::from_str("This expression type is not supported in constraint solving"),
                })
            },
        }
    }

    /// The translation of `==` and `!=`.
    fn translate_equality(&self, expr: &ResolvedExpr) -> (r: Result<Z3Ast, Z3BridgeError>)
        requires
            expr.kind is Eq || expr.kind is NotEq,
        ensures
            translated(translate_spec(self@.vars, *expr), term_spec(self@.vars, self@.terms, *expr), r),
        decreases expr, 0nat,
    {
        match &expr.kind {
            ResolvedExprKind::Eq { lhs, rhs } => {
                let l = match self.translate_expr(lhs) { Ok(a) => a, Err(e) => { return Err(e); } };
                let r = match self.translate_expr(rhs) { Ok(a) => a, Err(e) => { return Err(e); } };
                self.eq_operation(&l, &r, expr.span)
            },
            ResolvedExprKind::NotEq { lhs, rhs } => {
                let l = match self.translate_expr(lhs) { Ok(a) => a, Err(e) => { return Err(e); } };
                let r = match self.translate_expr(rhs) { Ok(a) => a, Err(e) => { return Err(e); } };
                let eq = match self.eq_operation(&l, &r, expr.span) { Ok(a) => a, Err(e) => { return Err(e); } };
                match eq.as_bool(expr.span) {
                    Ok(b) => Ok(Z3Ast::Bool(bool_not(b))),
                    Err(e) => Err(e),
                }
            },
            _ => {
                Err(Z3BridgeError::UnsupportedExpression {
                    expr_type: String::from_str(kind_label(&expr.kind)),
                    span: expr.span,
                    message: String::from_str("This expression type is not supported in constraint solving"),
                })
            },
        }
    }

    /// The Z3 term of `expr`, over the constants of the translated variables.
    pub fn translate_expr(&self, expr: &ResolvedExpr) -> (r: Result<Z3Ast, Z3BridgeError>)
        ensures
            translated(translate_spec(self@.vars, *expr), term_spec(self@.vars, self@.terms, *expr), r),
        decreases expr, 1nat,
    {
        match &expr.kind {
            ResolvedExprKind::IntLit { value } => Ok(Z3Ast::Int(int_numeral(*value))),
            ResolvedExprKind::FloatLit { scaled } => {
                let num = int_to_real(&int_numeral(*scaled));
                let den = int_to_real(&int_numeral(1000000));
                Ok(Z3Ast::Real(real_div(&num, &den)))
            },
            ResolvedExprKind::BoolLit { value } => Ok(Z3Ast::Bool(bool_literal(*value))),
            ResolvedExprKind::Var { name } => self.lookup_or_missing(name, expr.span),
            ResolvedExprKind::Add { .. } | ResolvedExprKind::Sub { .. } | ResolvedExprKind::Mul { .. }
            | ResolvedExprKind::Div { .. } => self.translate_arith(expr),
            ResolvedExprKind::Lt { .. } | ResolvedExprKind::Gt { .. } | ResolvedExprKind::LtEq { .. }
            | ResolvedExprKind::GtEq { .. } => self.translate_compare(expr),
            ResolvedExprKind::Eq { .. } | ResolvedExprKind::NotEq { .. } => self.translate_equality(expr),
            ResolvedExprKind::Neg { inner } => {
                let a = match self.translate_expr(inner) { Ok(a) => a, Err(e) => { return Err(e); } };
                self.neg_operation(&a, expr.span)
            },
            ResolvedExprKind::FieldAccess { receiver, field_name } => {
                let q = match Self::build_field_access_name(receiver, field_name.as_str()) {
                    Ok(q) => q,
                    Err(e) => { return Err(e); },
                };
                self.lookup_or_missing(&q, expr.span)
            },
            _ => Err(Z3BridgeError::UnsupportedExpression {
                expr_type: String::from_str(kind_label(&expr.kind)),
                span: expr.span,
                message: String::from_str("This expression type is not supported in constraint solving"),
            }),
        }
    }

    /// The term `if condition then then_expr else else_expr`.
    pub fn translate_if_expr(&self, condition: &ResolvedExpr, then_expr: &ResolvedExpr, else_expr: &ResolvedExpr) -> (r: Result<Z3Ast, Z3BridgeError>)
        ensures
            match translate_spec(self@.vars, *condition) {
                Err(x) => r matches Err(e) && e@ == x,
                Ok(c) => match translate_spec(self@.vars, *then_expr) {
                    Err(x) => r matches Err(e) && e@ == x,
                    Ok(t) => match translate_spec(self@.vars, *else_expr) {
                        Err(x) => r matches Err(e) && e@ == x,
                        Ok(e) => translated(ite_sort(c, t, e, condition.span), ite_term(
                            term_spec(self@.vars, self@.terms, *condition),
                            t,
                            term_spec(self@.vars, self@.terms, *then_expr),
                            e,
                            term_spec(self@.vars, self@.terms, *else_expr),
                        ), r),
                    },
                },
            },
    {
        let c = match self.translate_expr(condition) { Ok(a) => a, Err(e) => { return Err(e); } };
        let t = match self.translate_expr(then_expr) { Ok(a) => a, Err(e) => { return Err(e); } };
        let e = match self.translate_expr(else_expr) { Ok(a) => a, Err(e) => { return Err(e); } };
        self.create_ite(&c, &t, &e, condition.span)
    }

    /// Translates `variable` to a constant of its sort and, when it has an
    /// initializer, asserts that the constant equals it.
    pub fn add_variable(&mut self, variable: &Variable) -> (r: Result<(), Z3BridgeError>)
        requires
            no_nul(variable.name@),
        ensures
            (final(self)@, bridge_outcome(r)) == add_variable_spec(old(self)@, variable@),
    {
        let z3_var = match self.create_z3_constant(variable.name.as_str(), &variable.var_type) {
            Ok(a) => a,
            Err(e) => { return Err(e); },
        };
        self.insert_variable(variable.name.clone(), z3_var.duplicate());
        match &variable.init {
            None => Ok(()),
            Some(init_expr) => {
                let init_z3 = match self.translate_expr(init_expr) {
                    Ok(a) => a,
                    Err(e) => { return Err(e); },
                };
                let assertion = match self.create_equality(&z3_var, &init_z3, variable.span) {
                    Ok(b) => b,
                    Err(e) => { return Err(e); },
                };
                solver_assert(&mut self.solver, &assertion);
                Ok(())
            },
        }
    }

    /// Asserts the constraint `expr`, which must be boolean.
    pub fn add_constraint(&mut self, expr: &ResolvedExpr) -> (r: Result<(), Z3BridgeError>)
        ensures
            (final(self)@, bridge_outcome(r)) == add_constraint_spec(old(self)@, *expr),
    {
        let z3_expr = match self.translate_expr(expr) {
            Ok(a) => a,
            Err(e) => { return Err(e); },
        };
        let b = match z3_expr.as_bool(expr.span) {
            Ok(b) => b,
            Err(e) => { return Err(e); },
        };
        solver_assert(&mut self.solver, b);
        Ok(())
    }
}

/// Once a step has failed, later steps add nothing.
pub proof fn lemma_cond_steps_stop(vars: Seq<(Seq<char>, SortModel)>, terms: Seq<TermModel>, c: ConditionalModel, k: int, m: int)
    requires
        0 <= k <= m,
        cond_steps(vars, terms, c, k).1 is Some,
    ensures
        cond_steps(vars, terms, c, m) == cond_steps(vars, terms, c, k),
    decreases m - k,
{
    if k < m {
        lemma_cond_steps_stop(vars, terms, c, k, m - 1);
    }
}

proof fn lemma_cond_steps_shape(vars: Seq<(Seq<char>, SortModel)>, terms: Seq<TermModel>, c: ConditionalModel, k: int)
    requires
        0 <= k,
        cond_steps(vars, terms, c, k).1 is None,
    ensures
        cond_steps(vars, terms, c, k).0 =~= Seq::new(k as nat, |j: int| paired_term(vars, terms, c, j)),
    decreases k,
{
    if k > 0 {
        if cond_steps(vars, terms, c, k - 1).1 is Some {
            lemma_cond_steps_stop(vars, terms, c, k - 1, k);
        }
        lemma_cond_steps_shape(vars, terms, c, k - 1);
    }
}

/// A conditional constraint that is accepted adds one assertion per constraint of
/// its longer branch, in order: the pairs as `ite`, the rest of the then branch as
/// implications from the condition, the rest of the else branch as implications from
/// its negation. The variables are left as they were.
pub proof fn lemma_conditional_assertions(m: BridgeModel, c: ConditionalModel)
    requires
        add_conditional_spec(m, c).1 is None,
    ensures
        add_conditional_spec(m, c).0.vars == m.vars,
        add_conditional_spec(m, c).0.terms == m.terms,
        add_conditional_spec(m, c).0.asserted
            == m.asserted + Seq::new(step_count(c) as nat, |j: int| paired_term(m.vars, m.terms, c, j)),
{
    lemma_cond_steps_shape(m.vars, m.terms, c, step_count(c));
}

impl Z3Bridge {
    /// The boolean term of a constraint of a branch, or the error translating it.
    fn branch_bool(&self, c: &Constraint) -> (r: Result<BoolTerm, Z3BridgeError>)
        ensures
            match translate_spec(self@.vars, c.expr) {
                Err(x) => r matches Err(e) && e@ == x,
                Ok(s) => match bool_check(s, c.span) {
                    Some(x) => r matches Err(e) && e@ == x,
                    None => r matches Ok(b) && b.model() == term_spec(self@.vars, self@.terms, c.expr),
                },
            },
    {
        let a = match self.translate_expr(&c.expr) {
            Ok(a) => a,
            Err(e) => { return Err(e); },
        };
        match a.as_bool(c.span) {
            Ok(b) => Ok(bool_clone(b)),
            Err(e) => Err(e),
        }
    }

    /// Asserts a conditional constraint: the `k`-th constraints of the two branches
    /// as `if condition then t_k else e_k`, the unpaired rest of the then branch as
    /// `condition => t_k`, and of the else branch as `!condition => e_k`.
    pub fn add_conditional_constraints(&mut self, cond_constraint: &ConditionalConstraint) -> (r: Result<(), Z3BridgeError>)
        ensures
            (final(self)@, bridge_outcome(r)) == add_conditional_spec(old(self)@, cond_constraint@),
    {
        let ghost c = cond_constraint@;
        let condition_z3 = match self.translate_expr(&cond_constraint.condition) {
            Ok(a) => a,
            Err(e) => { return Err(e); },
        };
        let condition_bool = match condition_z3.as_bool(cond_constraint.condition.span) {
            Ok(b) => b,
            Err(e) => { return Err(e); },
        };
        let then_count = cond_constraint.then_constraints.len();
        let else_count = cond_constraint.else_constraints.len();
        let total = if then_count >= else_count { then_count } else { else_count };
        let ghost vars = self@.vars;
        let ghost terms = self@.terms;
        let ghost start = self@.asserted;
        let mut k: usize = 0;
        while k < total
            invariant
                k <= total,
                total == step_count(c),
                then_count == c.then_constraints.len(),
                else_count == c.else_constraints.len(),
                c == cond_constraint@,
                vars == old(self)@.vars,
                terms == old(self)@.terms,
                start == old(self)@.asserted,
                self@.vars == vars,
                self@.terms == terms,
                condition_bool.model() == term_spec(vars, terms, c.condition),
                translate_spec(vars, c.condition) == Ok::<SortModel, BridgeErrorModel>(SortModel::Bool),
                cond_steps(vars, terms, c, k as int).1 is None,
                self@.asserted == start + cond_steps(vars, terms, c, k as int).0,
            decreases total - k,
        {
            let ghost before = self@.asserted;
            let ghost fs = cond_steps(vars, terms, c, k as int).0;
            if k < then_count && k < else_count {
                let then_constraint = &cond_constraint.then_constraints[k];
                let else_constraint = &cond_constraint.else_constraints[k];
                let then_z3 = match self.translate_expr(&then_constraint.expr) {
                    Ok(a) => a,
                    Err(e) => {
                        assert(cond_step(vars, terms, c, k as int) == Err::<TermModel, BridgeErrorModel>(e@));
                        proof { lemma_cond_steps_stop(vars, terms, c, k + 1, step_count(c)); }
                        return Err(e);
                    },
                };
                let else_z3 = match self.translate_expr(&else_constraint.expr) {
                    Ok(a) => a,
                    Err(e) => {
                        assert(cond_step(vars, terms, c, k as int) == Err::<TermModel, BridgeErrorModel>(e@));
                        proof { lemma_cond_steps_stop(vars, terms, c, k + 1, step_count(c)); }
                        return Err(e);
                    },
                };
                let t = match then_z3.as_bool(then_constraint.span) {
                    Ok(b) => b,
                    Err(e) => {
                        proof { lemma_cond_steps_stop(vars, terms, c, k + 1, step_count(c)); }
                        return Err(e);
                    },
                };
                let e = match else_z3.as_bool(else_constraint.span) {
                    Ok(b) => b,
                    Err(e) => {
                        proof { lemma_cond_steps_stop(vars, terms, c, k + 1, step_count(c)); }
                        return Err(e);
                    },
                };
                let choice = ite_bool(condition_bool, t, e);
                solver_assert(&mut self.solver, &choice);
            } else if k < then_count {
                let t = match self.branch_bool(&cond_constraint.then_constraints[k]) {
                    Ok(b) => b,
                    Err(e) => {
                        proof { lemma_cond_steps_stop(vars, terms, c, k + 1, step_count(c)); }
                        return Err(e);
                    },
                };
                let implication = bool_implies(condition_bool, &t);
                solver_assert(&mut self.solver, &implication);
            } else {
                let e = match self.branch_bool(&cond_constraint.else_constraints[k]) {
                    Ok(b) => b,
                    Err(e) => {
                        proof { lemma_cond_steps_stop(vars, terms, c, k + 1, step_count(c)); }
                        return Err(e);
                    },
                };
                let negated = bool_not(condition_bool);
                let implication = bool_implies(&negated, &e);
                solver_assert(&mut self.solver, &implication);
            }
            assert(self@.asserted =~= start + cond_steps(vars, terms, c, k + 1).0);
            k = k + 1;
        }
        Ok(())
    }
}

/// The model of the outcome of a translation step.
pub open spec fn bridge_outcome(r: Result<(), Z3BridgeError>) -> Option<BridgeErrorModel> {
    match r {
        Ok(()) => None,
        Err(e) => Some(e@),
    }
}

/// The effect of translating the variables `vs[..k]` in order, stopping at the first error.
pub open spec fn add_variables_spec(m: BridgeModel, vs: Seq<VariableModel>, k: int) -> (BridgeModel, Option<BridgeErrorModel>)
    decreases k,
{
    if k <= 0 {
        (m, None)
    } else {
        let (m1, e) = add_variables_spec(m, vs, k - 1);
        if e is Some { (m1, e) } else { add_variable_spec(m1, vs[k - 1]) }
    }
}

/// The effect of asserting the constraints `cs[..k]` in order, stopping at the first error.
pub open spec fn add_constraints_spec(m: BridgeModel, cs: Seq<Constraint>, k: int) -> (BridgeModel, Option<BridgeErrorModel>)
    decreases k,
{
    if k <= 0 {
        (m, None)
    } else {
        let (m1, e) = add_constraints_spec(m, cs, k - 1);
        if e is Some { (m1, e) } else { add_constraint_spec(m1, cs[k - 1].expr) }
    }
}

/// The effect of asserting the conditional constraints `cs[..k]` in order, stopping at
/// the first error.
pub open spec fn add_conditionals_spec(m: BridgeModel, cs: Seq<ConditionalModel>, k: int) -> (BridgeModel, Option<BridgeErrorModel>)
    decreases k,
{
    if k <= 0 {
        (m, None)
    } else {
        let (m1, e) = add_conditionals_spec(m, cs, k - 1);
        if e is Some { (m1, e) } else { add_conditional_spec(m1, cs[k - 1]) }
    }
}

/// The effect of translating a whole problem: its variables, then its constraints,
/// then its conditional constraints, stopping at the first error.
pub open spec fn add_problem_spec(m: BridgeModel, p: ProblemModel) -> (BridgeModel, Option<BridgeErrorModel>) {
    let (m1, e1) = add_variables_spec(m, p.variables, p.variables.len() as int);
    if e1 is Some {
        (m1, e1)
    } else {
        let (m2, e2) = add_constraints_spec(m1, p.constraints, p.constraints.len() as int);
        if e2 is Some {
            (m2, e2)
        } else {
            add_conditionals_spec(m2, p.conditional_constraints, p.conditional_constraints.len() as int)
        }
    }
}

/// Every variable name of the problem can name a Z3 constant.
pub open spec fn problem_names_ok(p: ProblemModel) -> bool {
    forall|i: int| 0 <= i < p.variables.len() ==> #[trigger] no_nul(p.variables[i].name)
}

impl Z3Bridge {
    /// Translates all variables and asserts all constraints of `problem`.
    pub fn add_problem(&mut self, problem: &ConstraintProblem) -> (r: Result<(), Z3BridgeError>)
        requires
            problem_names_ok(problem@),
        ensures
            (final(self)@, bridge_outcome(r)) == add_problem_spec(old(self)@, problem@),
    {
        let ghost p = problem@;
        let ghost m0 = self@;
        let mut i: usize = 0;
        while i < problem.variables.len()
            invariant
                i <= problem.variables@.len(),
                p == problem@,
                m0 == old(self)@,
                problem_names_ok(p),
                add_variables_spec(m0, p.variables, i as int) == (self@, None::<BridgeErrorModel>),
            decreases problem.variables.len() - i,
        {
            assert(p.variables[i as int] == problem.variables@[i as int]@);
            assert(no_nul(p.variables[i as int].name));
            match self.add_variable(&problem.variables[i]) {
                Ok(()) => {},
                Err(e) => {
                    proof { lemma_variables_stop(m0, p.variables, i + 1, p.variables.len() as int); }
                    return Err(e);
                },
            }
            i = i + 1;
        }
        let ghost m1 = self@;
        let mut j: usize = 0;
        while j < problem.constraints.len()
            invariant
                j <= problem.constraints@.len(),
                p == problem@,
                m0 == old(self)@,
                add_variables_spec(m0, p.variables, p.variables.len() as int) == (m1, None::<BridgeErrorModel>),
                add_constraints_spec(m1, p.constraints, j as int) == (self@, None::<BridgeErrorModel>),
            decreases problem.constraints.len() - j,
        {
            match self.add_constraint(&problem.constraints[j].expr) {
                Ok(()) => {},
                Err(e) => {
                    proof { lemma_constraints_stop(m1, p.constraints, j + 1, p.constraints.len() as int); }
                    return Err(e);
                },
            }
            j = j + 1;
        }
        let ghost m2 = self@;
        let mut k: usize = 0;
        while k < problem.conditional_constraints.len()
            invariant
                k <= problem.conditional_constraints@.len(),
                p == problem@,
                m0 == old(self)@,
                add_variables_spec(m0, p.variables, p.variables.len() as int) == (m1, None::<BridgeErrorModel>),
                add_constraints_spec(m1, p.constraints, p.constraints.len() as int) == (m2, None::<BridgeErrorModel>),
                add_conditionals_spec(m2, p.conditional_constraints, k as int) == (self@, None::<BridgeErrorModel>),
            decreases problem.conditional_constraints.len() - k,
        {
            assert(p.conditional_constraints[k as int] == problem.conditional_constraints@[k as int]@);
            match self.add_conditional_constraints(&problem.conditional_constraints[k]) {
                Ok(()) => {},
                Err(e) => {
                    proof { lemma_conditionals_stop(m2, p.conditional_constraints, k + 1, p.conditional_constraints.len() as int); }
                    return Err(e);
                },
            }
            k = k + 1;
        }
        Ok(())
    }
}

proof fn lemma_variables_stop(m: BridgeModel, vs: Seq<VariableModel>, k: int, n: int)
    requires
        0 <= k <= n,
        add_variables_spec(m, vs, k).1 is Some,
    ensures
        add_variables_spec(m, vs, n) == add_variables_spec(m, vs, k),
    decreases n - k,
{
    if k < n {
        lemma_variables_stop(m, vs, k, n - 1);
    }
}

proof fn lemma_constraints_stop(m: BridgeModel, cs: Seq<Constraint>, k: int, n: int)
    requires
        0 <= k <= n,
        add_constraints_spec(m, cs, k).1 is Some,
    ensures
        add_constraints_spec(m, cs, n) == add_constraints_spec(m, cs, k),
    decreases n - k,
{
    if k < n {
        lemma_constraints_stop(m, cs, k, n - 1);
    }
}

proof fn lemma_conditionals_stop(m: BridgeModel, cs: Seq<ConditionalModel>, k: int, n: int)
    requires
        0 <= k <= n,
        add_conditionals_spec(m, cs, k).1 is Some,
    ensures
        add_conditionals_spec(m, cs, n) == add_conditionals_spec(m, cs, k),
    decreases n - k,
{
    if k < n {
        lemma_conditionals_stop(m, cs, k, n - 1);
    }
}

/// Each comparison translates to the Z3 operation of that same comparison, applied to
/// the terms of its operands: `a < b` to `lt`, `a > b` to `gt`, `a <= b` to `le`,
/// `a >= b` to `ge`, `a == b` to `eq` and `a != b` to the negation of `eq`; a
/// comparison that translates is boolean.
pub proof fn lemma_comparison_terms(vars: Seq<(Seq<char>, SortModel)>, terms: Seq<TermModel>, e: ResolvedExpr)
    ensures
        e.kind matches ResolvedExprKind::Lt { lhs, rhs } ==>
            compares(term_spec(vars, terms, e), TermOp::Lt, term_spec(vars, terms, *lhs), term_spec(vars, terms, *rhs)),
        e.kind matches ResolvedExprKind::Gt { lhs, rhs } ==>
            compares(term_spec(vars, terms, e), TermOp::Gt, term_spec(vars, terms, *lhs), term_spec(vars, terms, *rhs)),
        e.kind matches ResolvedExprKind::LtEq { lhs, rhs } ==>
            compares(term_spec(vars, terms, e), TermOp::Le, term_spec(vars, terms, *lhs), term_spec(vars, terms, *rhs)),
        e.kind matches ResolvedExprKind::GtEq { lhs, rhs } ==>
            compares(term_spec(vars, terms, e), TermOp::Ge, term_spec(vars, terms, *lhs), term_spec(vars, terms, *rhs)),
        e.kind matches ResolvedExprKind::Eq { lhs, rhs } ==>
            compares(term_spec(vars, terms, e), TermOp::Eq, term_spec(vars, terms, *lhs), term_spec(vars, terms, *rhs)),
        e.kind matches ResolvedExprKind::NotEq { lhs, rhs } ==> (term_spec(vars, terms, e) matches TermModel::Not(x)
            && compares(*x, TermOp::Eq, term_spec(vars, terms, *lhs), term_spec(vars, terms, *rhs))),
        (e.kind is Lt || e.kind is Gt || e.kind is LtEq || e.kind is GtEq || e.kind is Eq || e.kind is NotEq)
            && translate_spec(vars, e) is Ok ==> translate_spec(vars, e) == Ok::<SortModel, BridgeErrorModel>(SortModel::Bool),
{
}

} // verus!
