//! The calls into the `z3` crate that the solver makes.
//!
//! A term that the solver builds is held together with a model of it: which Z3
//! operation made it from which terms. Only the functions of this module, each of
//! which makes the Z3 call that its contract names, build terms, and only
//! [`solver_assert`] adds to the record of what a solver has been given. The
//! contracts also state when a call may be made (what would make it panic) and what
//! it returns where that is a plain value.

use vstd::prelude::*;
use z3::ast::{Bool, Int, Real};
use z3::{Model, SatResult, Solver};

verus! {

#[verifier::external_type_specification]
#[verifier::external_body]
pub struct ExZ3Int(z3::ast::Int);

#[verifier::external_type_specification]
#[verifier::external_body]
pub struct ExZ3Real(z3::ast::Real);

#[verifier::external_type_specification]
#[verifier::external_body]
pub struct ExZ3Bool(z3::ast::Bool);

#[verifier::external_type_specification]
#[verifier::external_body]
pub struct ExZ3Solver(z3::Solver);

#[verifier::external_type_specification]
#[verifier::external_body]
pub struct ExZ3Context(z3::Context);

#[verifier::external_type_specification]
#[verifier::external_body]
pub struct ExZ3Model(z3::Model);

/// The name contains no NUL character (z3 turns names into C strings and
/// panics on an interior NUL).
pub open spec fn no_nul(name: Seq<char>) -> bool {
    !name.contains('\0')
}

/// What `Solver::check` reports.
#[derive(Debug, Clone, Copy, PartialEq, Eq)]
pub enum CheckOutcome {
    Sat,
    Unsat,
    Unknown,
}

// ---------------------------------------------------------------------------
// Terms and their models
// ---------------------------------------------------------------------------

/// The binary operations of Z3 terms.
pub enum TermOp {
    Add,
    Sub,
    Mul,
    Div,
    Eq,
    Lt,
    Gt,
    Le,
    Ge,
    Implies,
    Mod,
    Pow,
    And,
    Or,
}

/// How a Z3 term was built.
pub enum TermModel {
    /// The integer constant of that name.
    IntConst(Seq<char>),
    /// The real constant of that name.
    RealConst(Seq<char>),
    /// The boolean constant of that name.
    BoolConst(Seq<char>),
    /// The integer numeral.
    IntNum(i64),
    /// The boolean literal.
    BoolLit(bool),
    /// An integer term seen as a real.
    ToReal(Box<TermModel>),
    /// The integer part of a real term.
    ToInt(Box<TermModel>),
    /// The negation of a number.
    Neg(Box<TermModel>),
    /// The negation of a boolean.
    Not(Box<TermModel>),
    /// A binary operation on two terms.
    Bin(TermOp, Box<TermModel>, Box<TermModel>),
    /// `if c then t else e`.
    Ite(Box<TermModel>, Box<TermModel>, Box<TermModel>),
}

/// The term `l op r`.
pub open spec fn bin(op: TermOp, l: TermModel, r: TermModel) -> TermModel {
    TermModel::Bin(op, Box::new(l), Box::new(r))
}

/// An integer term.
pub struct IntTerm {
    ast: Int,
    model: Ghost<TermModel>,
}

/// A real term.
pub struct RealTerm {
    ast: Real,
    model: Ghost<TermModel>,
}

/// A boolean term.
pub struct BoolTerm {
    ast: Bool,
    model: Ghost<TermModel>,
}

impl IntTerm {
    /// How the term was built.
    pub closed spec fn model(&self) -> TermModel {
        self.model@
    }
    /// The Z3 term.
    pub fn ast(&self) -> &Int {
        &self.ast
    }

    /// The Z3 term, taken out.
    pub fn into_ast(self) -> Int {
        self.ast
    }
}

impl RealTerm {
    /// How the term was built.
    pub closed spec fn model(&self) -> TermModel {
        self.model@
    }
    /// The Z3 term.
    pub fn ast(&self) -> &Real {
        &self.ast
    }

    /// The Z3 term, taken out.
    pub fn into_ast(self) -> Real {
        self.ast
    }
}

impl BoolTerm {
    /// How the term was built.
    pub closed spec fn model(&self) -> TermModel {
        self.model@
    }
    /// The Z3 term.
    pub fn ast(&self) -> &Bool {
        &self.ast
    }

    /// The Z3 term, taken out.
    pub fn into_ast(self) -> Bool {
        self.ast
    }
}

/// A solver with the record of the terms that the library asserted to it.
pub struct TermSolver {
    solver: Solver,
    asserted: Ghost<Seq<TermModel>>,
}

impl TermSolver {
    /// The terms asserted to the solver through [`solver_assert`], in order.
    pub closed spec fn asserted(&self) -> Seq<TermModel> {
        self.asserted@
    }
    /// The Z3 solver.
    pub fn raw(&self) -> &Solver {
        &self.solver
    }

    /// Takes over a solver: nothing has been asserted to it through the library yet.
    pub fn adopt(solver: Solver) -> (t: TermSolver)
        ensures
            t.asserted() == Seq::<TermModel>::empty(),
    {
        TermSolver { solver, asserted: Ghost(Seq::empty()) }
    }
}

// ---------------------------------------------------------------------------
// Constants and literals
// ---------------------------------------------------------------------------

/// `Int::new_const`: the integer constant named `name`.
#[verifier::external_body]
pub(crate) fn int_const(name: &str) -> (r: IntTerm)
    requires
        no_nul(name@),
    ensures
        r.model() == TermModel::IntConst(name@),
{
    IntTerm { ast: Int::new_const(name), model: Ghost(TermModel::IntConst(name@)) }
}

/// `Real::new_const`: the real constant named `name`.
#[verifier::external_body]
pub(crate) fn real_const(name: &str) -> (r: RealTerm)
    requires
        no_nul(name@),
    ensures
        r.model() == TermModel::RealConst(name@),
{
    RealTerm { ast: Real::new_const(name), model: Ghost(TermModel::RealConst(name@)) }
}

/// `Bool::new_const`: the boolean constant named `name`.
#[verifier::external_body]
pub(crate) fn bool_const(name: &str) -> (r: BoolTerm)
    requires
        no_nul(name@),
    ensures
        r.model() == TermModel::BoolConst(name@),
{
    BoolTerm { ast: Bool::new_const(name), model: Ghost(TermModel::BoolConst(name@)) }
}

/// `Int::from_i64`: the integer numeral `v`.
#[verifier::external_body]
pub(crate) fn int_numeral(v: i64) -> (r: IntTerm)
    ensures
        r.model() == TermModel::IntNum(v),
{
    IntTerm { ast: Int::from_i64(v), model: Ghost(TermModel::IntNum(v)) }
}

/// `Bool::from_bool`: the boolean literal `b`.
#[verifier::external_body]
pub(crate) fn bool_literal(b: bool) -> (r: BoolTerm)
    ensures
        r.model() == TermModel::BoolLit(b),
{
    BoolTerm { ast: Bool::from_bool(b), model: Ghost(TermModel::BoolLit(b)) }
}

// ---------------------------------------------------------------------------
// Copies and conversions
// ---------------------------------------------------------------------------

/// `Int::clone`: another handle to the same term.
#[verifier::external_body]
pub(crate) fn int_clone(a: &IntTerm) -> (r: IntTerm)
    ensures
        r.model() == a.model(),
{
    IntTerm { ast: a.ast.clone(), model: Ghost(a.model()) }
}

/// `Real::clone`: another handle to the same term.
#[verifier::external_body]
pub(crate) fn real_clone(a: &RealTerm) -> (r: RealTerm)
    ensures
        r.model() == a.model(),
{
    RealTerm { ast: a.ast.clone(), model: Ghost(a.model()) }
}

/// `Bool::clone`: another handle to the same term.
#[verifier::external_body]
pub(crate) fn bool_clone(a: &BoolTerm) -> (r: BoolTerm)
    ensures
        r.model() == a.model(),
{
    BoolTerm { ast: a.ast.clone(), model: Ghost(a.model()) }
}

/// `Int::to_real`: the integer term seen as a real.
#[verifier::external_body]
pub(crate) fn int_to_real(a: &IntTerm) -> (r: RealTerm)
    ensures
        r.model() == TermModel::ToReal(Box::new(a.model())),
{
    RealTerm { ast: a.ast.to_real(), model: Ghost(TermModel::ToReal(Box::new(a.model()))) }
}

/// `Real::to_int`: the integer part of a real term.
#[verifier::external_body]
pub(crate) fn real_to_int(a: &RealTerm) -> (r: IntTerm)
    ensures
        r.model() == TermModel::ToInt(Box::new(a.model())),
{
    IntTerm { ast: a.ast.to_int(), model: Ghost(TermModel::ToInt(Box::new(a.model()))) }
}

// ---------------------------------------------------------------------------
// Integer arithmetic and comparison
// ---------------------------------------------------------------------------

/// `Int::add` of the two terms.
#[verifier::external_body]
pub(crate) fn int_add(l: &IntTerm, r: &IntTerm) -> (s: IntTerm)
    ensures
        s.model() == bin(TermOp::Add, l.model(), r.model()),
{
    IntTerm { ast: Int::add(&[&l.ast, &r.ast]), model: Ghost(bin(TermOp::Add, l.model(), r.model())) }
}

/// `Int::sub` of the two terms.
#[verifier::external_body]
pub(crate) fn int_sub(l: &IntTerm, r: &IntTerm) -> (s: IntTerm)
    ensures
        s.model() == bin(TermOp::Sub, l.model(), r.model()),
{
    IntTerm { ast: Int::sub(&[&l.ast, &r.ast]), model: Ghost(bin(TermOp::Sub, l.model(), r.model())) }
}

/// `Int::mul` of the two terms.
#[verifier::external_body]
pub(crate) fn int_mul(l: &IntTerm, r: &IntTerm) -> (s: IntTerm)
    ensures
        s.model() == bin(TermOp::Mul, l.model(), r.model()),
{
    IntTerm { ast: Int::mul(&[&l.ast, &r.ast]), model: Ghost(bin(TermOp::Mul, l.model(), r.model())) }
}

/// `Int::div`: integer division of the two terms.
#[verifier::external_body]
pub(crate) fn int_div(l: &IntTerm, r: &IntTerm) -> (s: IntTerm)
    ensures
        s.model() == bin(TermOp::Div, l.model(), r.model()),
{
    IntTerm { ast: l.ast.div(&r.ast), model: Ghost(bin(TermOp::Div, l.model(), r.model())) }
}

/// `Int::unary_minus` (the `-` operator): the negated term.
#[verifier::external_body]
pub(crate) fn int_neg(a: &IntTerm) -> (s: IntTerm)
    ensures
        s.model() == TermModel::Neg(Box::new(a.model())),
{
    IntTerm { ast: -&a.ast, model: Ghost(TermModel::Neg(Box::new(a.model()))) }
}

/// `Int::eq`: the equality of the two terms.
#[verifier::external_body]
pub(crate) fn int_eq(l: &IntTerm, r: &IntTerm) -> (s: BoolTerm)
    ensures
        s.model() == bin(TermOp::Eq, l.model(), r.model()),
{
    BoolTerm { ast: l.ast.eq(&r.ast), model: Ghost(bin(TermOp::Eq, l.model(), r.model())) }
}

/// `Int::lt`.
#[verifier::external_body]
pub(crate) fn int_lt(l: &IntTerm, r: &IntTerm) -> (s: BoolTerm)
    ensures
        s.model() == bin(TermOp::Lt, l.model(), r.model()),
{
    BoolTerm { ast: l.ast.lt(&r.ast), model: Ghost(bin(TermOp::Lt, l.model(), r.model())) }
}

/// `Int::gt`.
#[verifier::external_body]
pub(crate) fn int_gt(l: &IntTerm, r: &IntTerm) -> (s: BoolTerm)
    ensures
        s.model() == bin(TermOp::Gt, l.model(), r.model()),
{
    BoolTerm { ast: l.ast.gt(&r.ast), model: Ghost(bin(TermOp::Gt, l.model(), r.model())) }
}

/// `Int::le`.
#[verifier::external_body]
pub(crate) fn int_le(l: &IntTerm, r: &IntTerm) -> (s: BoolTerm)
    ensures
        s.model() == bin(TermOp::Le, l.model(), r.model()),
{
    BoolTerm { ast: l.ast.le(&r.ast), model: Ghost(bin(TermOp::Le, l.model(), r.model())) }
}

/// `Int::ge`.
#[verifier::external_body]
pub(crate) fn int_ge(l: &IntTerm, r: &IntTerm) -> (s: BoolTerm)
    ensures
        s.model() == bin(TermOp::Ge, l.model(), r.model()),
{
    BoolTerm { ast: l.ast.ge(&r.ast), model: Ghost(bin(TermOp::Ge, l.model(), r.model())) }
}

// ---------------------------------------------------------------------------
// Real arithmetic and comparison
// ---------------------------------------------------------------------------

/// `Real::add` of the two terms.
#[verifier::external_body]
pub(crate) fn real_add(l: &RealTerm, r: &RealTerm) -> (s: RealTerm)
    ensures
        s.model() == bin(TermOp::Add, l.model(), r.model()),
{
    RealTerm { ast: Real::add(&[&l.ast, &r.ast]), model: Ghost(bin(TermOp::Add, l.model(), r.model())) }
}

/// `Real::sub` of the two terms.
#[verifier::external_body]
pub(crate) fn real_sub(l: &RealTerm, r: &RealTerm) -> (s: RealTerm)
    ensures
        s.model() == bin(TermOp::Sub, l.model(), r.model()),
{
    RealTerm { ast: Real::sub(&[&l.ast, &r.ast]), model: Ghost(bin(TermOp::Sub, l.model(), r.model())) }
}

/// `Real::mul` of the two terms.
#[verifier::external_body]
pub(crate) fn real_mul(l: &RealTerm, r: &RealTerm) -> (s: RealTerm)
    ensures
        s.model() == bin(TermOp::Mul, l.model(), r.model()),
{
    RealTerm { ast: Real::mul(&[&l.ast, &r.ast]), model: Ghost(bin(TermOp::Mul, l.model(), r.model())) }
}

/// `Real::div`: the quotient of the two terms.
#[verifier::external_body]
pub(crate) fn real_div(l: &RealTerm, r: &RealTerm) -> (s: RealTerm)
    ensures
        s.model() == bin(TermOp::Div, l.model(), r.model()),
{
    RealTerm { ast: l.ast.div(&r.ast), model: Ghost(bin(TermOp::Div, l.model(), r.model())) }
}

/// `Real::unary_minus` (the `-` operator): the negated term.
#[verifier::external_body]
pub(crate) fn real_neg(a: &RealTerm) -> (s: RealTerm)
    ensures
        s.model() == TermModel::Neg(Box::new(a.model())),
{
    RealTerm { ast: -&a.ast, model: Ghost(TermModel::Neg(Box::new(a.model()))) }
}

/// `Real::eq`: the equality of the two terms.
#[verifier::external_body]
pub(crate) fn real_eq(l: &RealTerm, r: &RealTerm) -> (s: BoolTerm)
    ensures
        s.model() == bin(TermOp::Eq, l.model(), r.model()),
{
    BoolTerm { ast: l.ast.eq(&r.ast), model: Ghost(bin(TermOp::Eq, l.model(), r.model())) }
}

/// `Real::lt`.
#[verifier::external_body]
pub(crate) fn real_lt(l: &RealTerm, r: &RealTerm) -> (s: BoolTerm)
    ensures
        s.model() == bin(TermOp::Lt, l.model(), r.model()),
{
    BoolTerm { ast: l.ast.lt(&r.ast), model: Ghost(bin(TermOp::Lt, l.model(), r.model())) }
}

/// `Real::gt`.
#[verifier::external_body]
pub(crate) fn real_gt(l: &RealTerm, r: &RealTerm) -> (s: BoolTerm)
    ensures
        s.model() == bin(TermOp::Gt, l.model(), r.model()),
{
    BoolTerm { ast: l.ast.gt(&r.ast), model: Ghost(bin(TermOp::Gt, l.model(), r.model())) }
}

/// `Real::le`.
#[verifier::external_body]
pub(crate) fn real_le(l: &RealTerm, r: &RealTerm) -> (s: BoolTerm)
    ensures
        s.model() == bin(TermOp::Le, l.model(), r.model()),
{
    BoolTerm { ast: l.ast.le(&r.ast), model: Ghost(bin(TermOp::Le, l.model(), r.model())) }
}

/// `Real::ge`.
#[verifier::external_body]
pub(crate) fn real_ge(l: &RealTerm, r: &RealTerm) -> (s: BoolTerm)
    ensures
        s.model() == bin(TermOp::Ge, l.model(), r.model()),
{
    BoolTerm { ast: l.ast.ge(&r.ast), model: Ghost(bin(TermOp::Ge, l.model(), r.model())) }
}

// ---------------------------------------------------------------------------
// Boolean connectives
// ---------------------------------------------------------------------------

/// `Bool::eq`: the equivalence of the two terms.
#[verifier::external_body]
pub(crate) fn bool_eq(l: &BoolTerm, r: &BoolTerm) -> (s: BoolTerm)
    ensures
        s.model() == bin(TermOp::Eq, l.model(), r.model()),
{
    BoolTerm { ast: l.ast.eq(&r.ast), model: Ghost(bin(TermOp::Eq, l.model(), r.model())) }
}

/// `Bool::not`.
#[verifier::external_body]
pub(crate) fn bool_not(a: &BoolTerm) -> (b: BoolTerm)
    ensures
        b.model() == TermModel::Not(Box::new(a.model())),
{
    BoolTerm { ast: a.ast.not(), model: Ghost(TermModel::Not(Box::new(a.model()))) }
}

/// `Bool::implies`: `l => r`.
#[verifier::external_body]
pub(crate) fn bool_implies(l: &BoolTerm, r: &BoolTerm) -> (s: BoolTerm)
    ensures
        s.model() == bin(TermOp::Implies, l.model(), r.model()),
{
    BoolTerm { ast: l.ast.implies(&r.ast), model: Ghost(bin(TermOp::Implies, l.model(), r.model())) }
}

/// `Bool::ite` on integer branches.
#[verifier::external_body]
pub(crate) fn ite_int(c: &BoolTerm, t: &IntTerm, e: &IntTerm) -> (r: IntTerm)
    ensures
        r.model() == TermModel::Ite(Box::new(c.model()), Box::new(t.model()), Box::new(e.model())),
{
    IntTerm {
        ast: c.ast.ite(&t.ast, &e.ast),
        model: Ghost(TermModel::Ite(Box::new(c.model()), Box::new(t.model()), Box::new(e.model()))),
    }
}

/// `Bool::ite` on real branches.
#[verifier::external_body]
pub(crate) fn ite_real(c: &BoolTerm, t: &RealTerm, e: &RealTerm) -> (r: RealTerm)
    ensures
        r.model() == TermModel::Ite(Box::new(c.model()), Box::new(t.model()), Box::new(e.model())),
{
    RealTerm {
        ast: c.ast.ite(&t.ast, &e.ast),
        model: Ghost(TermModel::Ite(Box::new(c.model()), Box::new(t.model()), Box::new(e.model()))),
    }
}

/// `Bool::ite` on boolean branches.
#[verifier::external_body]
pub(crate) fn ite_bool(c: &BoolTerm, t: &BoolTerm, e: &BoolTerm) -> (r: BoolTerm)
    ensures
        r.model() == TermModel::Ite(Box::new(c.model()), Box::new(t.model()), Box::new(e.model())),
{
    BoolTerm {
        ast: c.ast.ite(&t.ast, &e.ast),
        model: Ghost(TermModel::Ite(Box::new(c.model()), Box::new(t.model()), Box::new(e.model()))),
    }
}

/// `Int::modulo`: the remainder of integer division, with the sign of the divisor.
#[verifier::external_body]
pub(crate) fn int_modulo(l: &IntTerm, r: &IntTerm) -> (s: IntTerm)
    ensures
        s.model() == bin(TermOp::Mod, l.model(), r.model()),
{
    IntTerm { ast: l.ast.modulo(&r.ast), model: Ghost(bin(TermOp::Mod, l.model(), r.model())) }
}

/// `Int::power`: `l` to the power `r`, a real term.
#[verifier::external_body]
pub(crate) fn int_power(l: &IntTerm, r: &IntTerm) -> (s: RealTerm)
    ensures
        s.model() == bin(TermOp::Pow, l.model(), r.model()),
{
    RealTerm { ast: l.ast.power(&r.ast), model: Ghost(bin(TermOp::Pow, l.model(), r.model())) }
}

/// `Real::power`: `l` to the power `r`.
#[verifier::external_body]
pub(crate) fn real_power(l: &RealTerm, r: &RealTerm) -> (s: RealTerm)
    ensures
        s.model() == bin(TermOp::Pow, l.model(), r.model()),
{
    RealTerm { ast: l.ast.power(&r.ast), model: Ghost(bin(TermOp::Pow, l.model(), r.model())) }
}

/// `Bool::and` of the two terms.
#[verifier::external_body]
pub(crate) fn bool_and(l: &BoolTerm, r: &BoolTerm) -> (s: BoolTerm)
    ensures
        s.model() == bin(TermOp::And, l.model(), r.model()),
{
    BoolTerm { ast: Bool::and(&[&l.ast, &r.ast]), model: Ghost(bin(TermOp::And, l.model(), r.model())) }
}

/// `Bool::or` of the two terms.
#[verifier::external_body]
pub(crate) fn bool_or(l: &BoolTerm, r: &BoolTerm) -> (s: BoolTerm)
    ensures
        s.model() == bin(TermOp::Or, l.model(), r.model()),
{
    BoolTerm { ast: Bool::or(&[&l.ast, &r.ast]), model: Ghost(bin(TermOp::Or, l.model(), r.model())) }
}

// ---------------------------------------------------------------------------
// Solver and model
// ---------------------------------------------------------------------------

/// `Solver::new`: a solver with no assertion.
#[verifier::external_body]
pub(crate) fn new_solver() -> (s: TermSolver)
    ensures
        s.asserted() == Seq::<TermModel>::empty(),
{
    TermSolver { solver: Solver::new(), asserted: Ghost(Seq::empty()) }
}

/// `Solver::assert`: adds the assertion `b` to the solver.
#[verifier::external_body]
pub(crate) fn solver_assert(s: &mut TermSolver, b: &BoolTerm)
    ensures
        final(s).asserted() == old(s).asserted().push(b.model()),
{
    s.solver.assert(&b.ast);
}

/// `Solver::check`: whether the assertions are satisfiable. The answer comes from
/// the solver; nothing about it is stated here.
#[verifier::external_body]
pub(crate) fn solver_check(s: &Solver) -> (r: CheckOutcome) {
    match s.check() {
        SatResult::Sat => CheckOutcome::Sat,
        SatResult::Unsat => CheckOutcome::Unsat,
        SatResult::Unknown => CheckOutcome::Unknown,
    }
}

/// `Solver::get_model`: the model of the last satisfiable check, if there is one.
#[verifier::external_body]
pub(crate) fn solver_model(s: &Solver) -> (r: Option<Model>) {
    s.get_model()
}

/// `Model::eval` of an integer term without model completion.
#[verifier::external_body]
pub(crate) fn eval_int(m: &Model, a: &Int) -> (r: Option<Int>) {
    m.eval(a, false)
}

/// `Model::eval` of a real term without model completion.
#[verifier::external_body]
pub(crate) fn eval_real(m: &Model, a: &Real) -> (r: Option<Real>) {
    m.eval(a, false)
}

/// `Model::eval` of a boolean term without model completion.
#[verifier::external_body]
pub(crate) fn eval_bool(m: &Model, a: &Bool) -> (r: Option<Bool>) {
    m.eval(a, false)
}

/// `Int::as_i64`: the value of an integer numeral that fits in an `i64`.
#[verifier::external_body]
pub(crate) fn int_value(a: &Int) -> (r: Option<i64>) {
    a.as_i64()
}

/// `Real::as_rational`: numerator and denominator of a real numeral whose parts fit in `i64`.
#[verifier::external_body]
pub(crate) fn real_value(a: &Real) -> (r: Option<(i64, i64)>) {
    a.as_rational()
}

/// `Bool::as_bool`: the value of a boolean literal.
#[verifier::external_body]
pub(crate) fn bool_value(a: &Bool) -> (r: Option<bool>) {
    a.as_bool()
}

/// The `Display` text of an integer term.
#[verifier::external_body]
pub(crate) fn int_text(a: &Int) -> (r: String) {
    a.to_string()
}

/// The `Display` text of a real term.
#[verifier::external_body]
pub(crate) fn real_text(a: &Real) -> (r: String) {
    a.to_string()
}

/// The `Display` text of a boolean term.
#[verifier::external_body]
pub(crate) fn bool_text(a: &Bool) -> (r: String) {
    a.to_string()
}

} // verus!
