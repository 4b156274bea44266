//! Extraction of a constraint problem from resolved statements.
//!
//! A `let` declares a variable: known when it has an initializer, unknown otherwise.
//! Struct and array variables become one variable per primitive field (`p.x`,
//! `points[0].y`); a struct literal initializer sets those fields. An expression
//! statement must be a comparison and becomes a constraint. An `if` becomes a
//! conditional constraint whose branches hold only comparisons. Loops, returns,
//! reassignments and `with` blocks are refused; definitions contribute nothing.

use vstd::prelude::*;
use crate::hir::{ResolvedType, ResolvedExpr, ResolvedExprKind, ResolvedStmt, ResolvedStmtKind,
    ResolvedStructLitField, StructTable, table_wf, type_in_table, bounded, is_primitive, type_span};
use crate::lexer::Span;
use crate::text::{append_str, append_u64, push_char, decimal, join_strings, joined};
use crate::solver::recursive_struct_detector::{detect_cycles, dfs_struct, struct_names, struct_bounded};
use crate::solver::struct_flattener::{flatten_type, flatten_spec, flatten_depth, field_view, FlattenedField, index_path,
    lemma_flatten_primitive_under_prefix, lemma_flatten_primitive_elements};

verus! {

// ============================================================================
// Errors
// ============================================================================

/// Errors of constraint extraction.
#[derive(Debug)]
pub enum ConstraintExtractorError {
    /// A statement kind that constraint problems do not support.
    UnsupportedStatement { statement_type: String, span: Span, message: String },
    /// An expression statement that is not a comparison.
    NotAConstraint { span: Span },
    /// A variable declared without a type.
    MissingTypeInfo { var_name: String, span: Span },
    /// A variable of a struct type that contains itself.
    RecursiveStruct { cycle_path: Vec<String>, span: Span },
}

/// The content of an extraction error, with strings as character sequences.
pub enum ErrorModel {
    UnsupportedStatement { statement_type: Seq<char>, span: Span, message: Seq<char> },
    NotAConstraint { span: Span },
    MissingTypeInfo { var_name: Seq<char>, span: Span },
    RecursiveStruct { cycle_path: Seq<Seq<char>>, span: Span },
}

impl View for ConstraintExtractorError {
    type V = ErrorModel;

    open spec fn view(&self) -> ErrorModel {
        match self {
            ConstraintExtractorError::UnsupportedStatement { statement_type, span, message } =>
                ErrorModel::UnsupportedStatement { statement_type: statement_type@, span: *span, message: message@ },
            ConstraintExtractorError::NotAConstraint { span } => ErrorModel::NotAConstraint { span: *span },
            ConstraintExtractorError::MissingTypeInfo { var_name, span } =>
                ErrorModel::MissingTypeInfo { var_name: var_name@, span: *span },
            ConstraintExtractorError::RecursiveStruct { cycle_path, span } =>
                ErrorModel::RecursiveStruct { cycle_path: cycle_path@.map_values(|s: String| s@), span: *span },
        }
    }
}

/// The refusal of a statement kind.
pub open spec fn unsupported(statement_type: Seq<char>, span: Span, message: Seq<char>) -> ErrorModel {
    ErrorModel::UnsupportedStatement { statement_type, span, message }
}

/// ` at line L, column C`
pub open spec fn at_text(span: Span) -> Seq<char> {
    " at line "@ + decimal(span.start.line as nat) + ", column "@ + decimal(span.start.column as nat)
}

/// The message of an extraction error.
pub open spec fn extractor_error_text(e: ErrorModel) -> Seq<char> {
    match e {
        ErrorModel::UnsupportedStatement { statement_type, span, message } =>
            "Unsupported statement type '"@ + statement_type + "'"@ + at_text(span) + ": "@ + message,
        ErrorModel::NotAConstraint { span } =>
            "Expression statement"@ + at_text(span) + " is not a constraint (must be a comparison)"@,
        ErrorModel::MissingTypeInfo { var_name, span } =>
            "Variable '"@ + var_name + "'"@ + at_text(span) + " has no type information"@,
        ErrorModel::RecursiveStruct { cycle_path, span } =>
            "Recursive struct detected"@ + at_text(span) + ": "@ + joined(cycle_path, " → "@)
                + ". Recursive structs cannot be solved."@,
    }
}

fn append_at(out: &mut String, span: Span)
    ensures
        final(out)@ == old(out)@ + at_text(span),
{
    append_str(out, " at line ");
    append_u64(out, span.start.line as u64);
    append_str(out, ", column ");
    append_u64(out, span.start.column as u64);
}

impl ConstraintExtractorError {
    /// The message of the error.
    pub fn to_text(&self) -> (s: String)
        ensures
            s@ == extractor_error_text(self@),
    {
        match self {
            ConstraintExtractorError::UnsupportedStatement { statement_type, span, message } => {
                let mut s = String::from_str("Unsupported statement type '");
                append_str(&mut s, statement_type.as_str());
                append_str(&mut s, "'");
                append_at(&mut s, *span);
                append_str(&mut s, ": ");
                append_str(&mut s, message.as_str());
                s
            },
            ConstraintExtractorError::NotAConstraint { span } => {
                let mut s = String::from_str("Expression statement");
                append_at(&mut s, *span);
                append_str(&mut s, " is not a constraint (must be a comparison)");
                s
            },
            ConstraintExtractorError::MissingTypeInfo { var_name, span } => {
                let mut s = String::from_str("Variable '");
                append_str(&mut s, var_name.as_str());
                append_str(&mut s, "'");
                append_at(&mut s, *span);
                append_str(&mut s, " has no type information");
                s
            },
            ConstraintExtractorError::RecursiveStruct { cycle_path, span } => {
                let mut s = String::from_str("Recursive struct detected");
                append_at(&mut s, *span);
                append_str(&mut s, ": ");
                let cycle = join_strings(cycle_path, " → ");
                append_str(&mut s, cycle.as_str());
                append_str(&mut s, ". Recursive structs cannot be solved.");
                s
            },
        }
    }
}

// ============================================================================
// Data structures
// ============================================================================

/// A variable of the constraint problem: known when it has an initializer.
#[derive(Debug)]
pub struct Variable {
    /// Name; qualified (`line.start.x`) for fields of struct and array variables.
    pub name: String,
    /// Type of the variable.
    pub var_type: ResolvedType,
    /// Initial value, if known.
    pub init: Option<ResolvedExpr>,
    /// Source span for error reporting.
    pub span: Span,
}

/// The content of a variable.
pub struct VariableModel {
    pub name: Seq<char>,
    pub var_type: ResolvedType,
    pub init: Option<ResolvedExpr>,
    pub span: Span,
}

impl View for Variable {
    type V = VariableModel;

    open spec fn view(&self) -> VariableModel {
        VariableModel { name: self.name@, var_type: self.var_type, init: self.init, span: self.span }
    }
}

/// A comparison that must hold.
#[derive(Debug)]
pub struct Constraint {
    pub expr: ResolvedExpr,
    pub span: Span,
}

/// Constraints that hold when `condition` is true, and others that hold when it is false.
#[derive(Debug)]
pub struct ConditionalConstraint {
    pub condition: ResolvedExpr,
    pub then_constraints: Vec<Constraint>,
    pub else_constraints: Vec<Constraint>,
    pub span: Span,
}

/// The content of a conditional constraint.
#[verifier::ext_equal]
pub struct ConditionalModel {
    pub condition: ResolvedExpr,
    pub then_constraints: Seq<Constraint>,
    pub else_constraints: Seq<Constraint>,
    pub span: Span,
}

impl View for ConditionalConstraint {
    type V = ConditionalModel;

    open spec fn view(&self) -> ConditionalModel {
        ConditionalModel {
            condition: self.condition,
            then_constraints: self.then_constraints@,
            else_constraints: self.else_constraints@,
            span: self.span,
        }
    }
}

/// A constraint problem: variables, constraints and conditional constraints.
#[derive(Debug)]
pub struct ConstraintProblem {
    pub variables: Vec<Variable>,
    pub constraints: Vec<Constraint>,
    pub conditional_constraints: Vec<ConditionalConstraint>,
}

/// The content of a constraint problem.
#[verifier::ext_equal]
pub struct ProblemModel {
    pub variables: Seq<VariableModel>,
    pub constraints: Seq<Constraint>,
    pub conditional_constraints: Seq<ConditionalModel>,
}

impl View for ConstraintProblem {
    type V = ProblemModel;

    open spec fn view(&self) -> ProblemModel {
        ProblemModel {
            variables: self.variables@.map_values(|v: Variable| v@),
            constraints: self.constraints@,
            conditional_constraints: self.conditional_constraints@.map_values(|c: ConditionalConstraint| c@),
        }
    }
}

/// The problem with no variables and no constraints.
pub open spec fn empty_problem() -> ProblemModel {
    ProblemModel { variables: Seq::empty(), constraints: Seq::empty(), conditional_constraints: Seq::empty() }
}

impl Variable {
    /// Creates a variable.
    pub fn new(name: &str, var_type: ResolvedType, init: Option<ResolvedExpr>, span: Span) -> (v: Variable)
        ensures
            v@ == (VariableModel { name: name@, var_type, init, span }),
    {
        Variable { name: String::from_str(name), var_type, init, span }
    }

    /// Whether the variable has an initializer.
    pub fn is_known(&self) -> (b: bool)
        ensures
            b == self.init is Some,
    {
        self.init.is_some()
    }

    /// Whether the variable has no initializer.
    pub fn is_unknown(&self) -> (b: bool)
        ensures
            b == self.init is None,
    {
        self.init.is_none()
    }
}

impl Constraint {
    /// Creates a constraint.
    pub fn new(expr: ResolvedExpr, span: Span) -> (c: Constraint)
        ensures
            c.expr == expr,
            c.span == span,
    {
        Constraint { expr, span }
    }
}

impl ConditionalConstraint {
    /// Creates a conditional constraint.
    pub fn new(
        condition: ResolvedExpr,
        then_constraints: Vec<Constraint>,
        else_constraints: Vec<Constraint>,
        span: Span,
    ) -> (c: ConditionalConstraint)
        ensures
            c@ == (ConditionalModel {
                condition,
                then_constraints: then_constraints@,
                else_constraints: else_constraints@,
                span,
            }),
    {
        ConditionalConstraint { condition, then_constraints, else_constraints, span }
    }
}

/// The variables of `vars` without an initializer.
pub open spec fn unknown_of(vars: Seq<Variable>) -> Seq<Variable> {
    vars.filter(|v: Variable| v.init is None)
}

/// The variables of `vars` with an initializer.
pub open spec fn known_of(vars: Seq<Variable>) -> Seq<Variable> {
    vars.filter(|v: Variable| v.init is Some)
}

/// Every variable is either known or unknown, never both: the two selections
/// together are exactly as long as the variables, and each variable lands in the
/// selection that its initializer decides.
pub proof fn lemma_known_unknown_partition(vars: Seq<Variable>)
    ensures
        unknown_of(vars).len() + known_of(vars).len() == vars.len(),
        forall|i: int| #![trigger vars[i]]
            0 <= i < vars.len() ==> (vars[i].init is None <==> unknown_of(vars).contains(vars[i])),
        forall|v: Variable| #[trigger] unknown_of(vars).contains(v) ==> v.init is None && vars.contains(v),
        forall|v: Variable| #[trigger] known_of(vars).contains(v) ==> v.init is Some && vars.contains(v),
    decreases vars.len(),
{
    reveal_with_fuel(Seq::filter, 1);
    if vars.len() > 0 {
        let rest = vars.drop_last();
        lemma_known_unknown_partition(rest);
        assert forall|v: Variable| #[trigger] unknown_of(vars).contains(v) implies v.init is None && vars.contains(v) by {
            if v != vars.last() {
                assert(unknown_of(rest).contains(v));
                let k = choose|k: int| 0 <= k < rest.len() && rest[k] == v;
                assert(vars[k] == v);
            } else {
                assert(vars[vars.len() - 1] == v);
            }
        }
        assert forall|v: Variable| #[trigger] known_of(vars).contains(v) implies v.init is Some && vars.contains(v) by {
            if v != vars.last() {
                assert(known_of(rest).contains(v));
                let k = choose|k: int| 0 <= k < rest.len() && rest[k] == v;
                assert(vars[k] == v);
            } else {
                assert(vars[vars.len() - 1] == v);
            }
        }
        assert forall|i: int| #![trigger vars[i]]
            0 <= i < vars.len() implies (vars[i].init is None <==> unknown_of(vars).contains(vars[i])) by {
            if i < vars.len() - 1 {
                assert(rest[i] == vars[i]);
                if vars[i].init is None {
                    let k = choose|k: int| 0 <= k < unknown_of(rest).len() && unknown_of(rest)[k] == vars[i];
                    assert(unknown_of(vars)[k] == vars[i]);
                }
            } else {
                if vars[i].init is None {
                    assert(unknown_of(vars)[unknown_of(vars).len() - 1] == vars[i]);
                }
            }
        }
    }
}

impl ConstraintProblem {
    /// Creates an empty problem.
    pub fn new() -> (p: ConstraintProblem)
        ensures
            p@ == empty_problem(),
    {
        let p = ConstraintProblem {
            variables: Vec::new(),
            constraints: Vec::new(),
            conditional_constraints: Vec::new(),
        };
        assert(p@.variables =~= Seq::<VariableModel>::empty());
        assert(p@.conditional_constraints =~= Seq::<ConditionalModel>::empty());
        p
    }

    /// Adds a variable at the end.
    pub fn add_variable(&mut self, variable: Variable)
        ensures
            final(self).variables@ == old(self).variables@.push(variable),
            final(self).constraints@ == old(self).constraints@,
            final(self).conditional_constraints@ == old(self).conditional_constraints@,
    {
        self.variables.push(variable);
    }

    /// Adds a constraint at the end.
    pub fn add_constraint(&mut self, constraint: Constraint)
        ensures
            final(self).constraints@ == old(self).constraints@.push(constraint),
            final(self).variables@ == old(self).variables@,
            final(self).conditional_constraints@ == old(self).conditional_constraints@,
    {
        self.constraints.push(constraint);
    }

    /// Adds a conditional constraint at the end.
    pub fn add_conditional_constraint(&mut self, conditional_constraint: ConditionalConstraint)
        ensures
            final(self).conditional_constraints@ == old(self).conditional_constraints@.push(conditional_constraint),
            final(self).variables@ == old(self).variables@,
            final(self).constraints@ == old(self).constraints@,
    {
        self.conditional_constraints.push(conditional_constraint);
    }

    /// Number of variables.
    pub fn variable_count(&self) -> (n: usize)
        ensures
            n == self.variables@.len(),
    {
        self.variables.len()
    }

    /// Number of constraints.
    pub fn constraint_count(&self) -> (n: usize)
        ensures
            n == self.constraints@.len(),
    {
        self.constraints.len()
    }

    /// Number of conditional constraints.
    pub fn conditional_constraint_count(&self) -> (n: usize)
        ensures
            n == self.conditional_constraints@.len(),
    {
        self.conditional_constraints.len()
    }

    /// The variables without an initializer, in order.
    pub fn unknown_variables(&self) -> (r: Vec<&Variable>)
        ensures
            r@.map_values(|v: &Variable| *v) == unknown_of(self.variables@),
    {
        let mut r: Vec<&Variable> = Vec::new();
        let mut i: usize = 0;
        while i < self.variables.len()
            invariant
                i <= self.variables@.len(),
                r@.map_values(|v: &Variable| *v) == unknown_of(self.variables@.take(i as int)),
            decreases self.variables.len() - i,
        {
            let ghost before = r@;
            if self.variables[i].init.is_none() {
                r.push(&self.variables[i]);
            }
            proof {
                reveal_with_fuel(Seq::filter, 1);
                assert(self.variables@.take(i + 1).drop_last() =~= self.variables@.take(i as int));
            }
            assert(r@.map_values(|v: &Variable| *v) =~= unknown_of(self.variables@.take(i + 1)));
            i = i + 1;
        }
        assert(self.variables@.take(self.variables@.len() as int) =~= self.variables@);
        r
    }

    /// The variables with an initializer, in order.
    pub fn known_variables(&self) -> (r: Vec<&Variable>)
        ensures
            r@.map_values(|v: &Variable| *v) == known_of(self.variables@),
    {
        let mut r: Vec<&Variable> = Vec::new();
        let mut i: usize = 0;
        while i < self.variables.len()
            invariant
                i <= self.variables@.len(),
                r@.map_values(|v: &Variable| *v) == known_of(self.variables@.take(i as int)),
            decreases self.variables.len() - i,
        {
            if self.variables[i].init.is_some() {
                r.push(&self.variables[i]);
            }
            proof {
                reveal_with_fuel(Seq::filter, 1);
                assert(self.variables@.take(i + 1).drop_last() =~= self.variables@.take(i as int));
            }
            assert(r@.map_values(|v: &Variable| *v) =~= known_of(self.variables@.take(i + 1)));
            i = i + 1;
        }
        assert(self.variables@.take(self.variables@.len() as int) =~= self.variables@);
        r
    }
}

impl Default for ConstraintProblem {
    /// The empty problem.
    fn default() -> (p: ConstraintProblem)
        ensures
            p@ == empty_problem(),
    {
        ConstraintProblem::new()
    }
}

// ============================================================================
// What extraction computes
// ============================================================================

/// The expression is a comparison: `==`, `!=`, `<`, `>`, `<=` or `>=`.
pub open spec fn is_comparison(e: ResolvedExpr) -> bool {
    match e.kind {
        ResolvedExprKind::Eq { .. } | ResolvedExprKind::NotEq { .. } | ResolvedExprKind::Lt { .. }
        | ResolvedExprKind::Gt { .. } | ResolvedExprKind::LtEq { .. } | ResolvedExprKind::GtEq { .. } => true,
        _ => false,
    }
}

/// The index of the first variable named `name` at or after position `i`.
pub open spec fn first_named(vars: Seq<VariableModel>, name: Seq<char>, i: int) -> Option<int>
    decreases vars.len() - i,
{
    if i < 0 || i >= vars.len() {
        None
    } else if vars[i].name == name {
        Some(i)
    } else {
        first_named(vars, name, i + 1)
    }
}

/// The variables with the first one named `name`, if any, given the initializer `value`.
pub open spec fn set_init(vars: Seq<VariableModel>, name: Seq<char>, value: ResolvedExpr) -> Seq<VariableModel> {
    match first_named(vars, name, 0) {
        Some(i) => vars.update(i, VariableModel { init: Some(value), ..vars[i] }),
        None => vars,
    }
}

/// Unknown variables for the primitive fields of a flattened type.
pub open spec fn fields_as_vars(fs: Seq<(Seq<char>, ResolvedType, Span)>) -> Seq<VariableModel> {
    fs.map_values(|f: (Seq<char>, ResolvedType, Span)| VariableModel { name: f.0, var_type: f.1, init: None, span: f.2 })
}

/// `a.b`
pub open spec fn dotted(a: Seq<char>, b: Seq<char>) -> Seq<char> {
    a + seq!['.'] + b
}

/// The variables after a struct literal `init` has set the fields of the variable `base`,
/// and the error that stopped it, if any.
pub open spec fn struct_lit_spec(base: Seq<char>, init: ResolvedExpr, vars: Seq<VariableModel>) -> (Seq<VariableModel>, Option<ErrorModel>)
    decreases init, 0nat,
{
    match init.kind {
        ResolvedExprKind::StructLit { fields, .. } => struct_lit_fields_spec(base, fields@, 0, vars),
        _ => (vars, None),
    }
}

/// The effect of the struct literal fields `fields[i..]`.
pub open spec fn struct_lit_fields_spec(base: Seq<char>, fields: Seq<ResolvedStructLitField>, i: int, vars: Seq<VariableModel>) -> (Seq<VariableModel>, Option<ErrorModel>)
    decreases fields, fields.len() - i,
{
    if i < 0 || i >= fields.len() {
        (vars, None)
    } else {
        match fields[i] {
            ResolvedStructLitField::Field { name, value, .. } => {
                let q = dotted(base, name@);
                if value.kind is StructLit {
                    let (v2, e) = struct_lit_spec(q, value, vars);
                    if e is Some {
                        (v2, e)
                    } else {
                        struct_lit_fields_spec(base, fields, i + 1, v2)
                    }
                } else {
                    struct_lit_fields_spec(base, fields, i + 1, set_init(vars, q, value))
                }
            },
            ResolvedStructLitField::ComputedProperty { span, .. } => (
                vars,
                Some(unsupported("computed property in struct literal"@, span,
                    "Computed properties are not supported in struct literal initialization"@)),
            ),
        }
    }
}

/// The qualified name that a field-assignment target denotes (`p.x`, `line.start.x`).
pub open spec fn qualified_name_spec(target: ResolvedExpr) -> Result<Seq<char>, ErrorModel>
    decreases target,
{
    match target.kind {
        ResolvedExprKind::FieldAccess { receiver, field_name } => match receiver.kind {
            ResolvedExprKind::Var { name } => Ok(dotted(name@, field_name@)),
            ResolvedExprKind::FieldAccess { .. } => match qualified_name_spec(*receiver) {
                Ok(prefix) => Ok(dotted(prefix, field_name@)),
                Err(e) => Err(e),
            },
            _ => Err(unsupported("field assignment with non-field-access receiver"@, target.span,
                "Field assignment target must be a field access expression"@)),
        },
        _ => Err(unsupported("field assignment with invalid target"@, target.span,
            "Field assignment target must be a field access expression"@)),
    }
}

/// The constraints that one statement of a conditional branch contributes, or why it is refused.
pub open spec fn branch_stmt_spec(s: ResolvedStmt) -> Result<Seq<Constraint>, ErrorModel>
    decreases s, 0nat,
{
    match s.kind {
        ResolvedStmtKind::Expression { expr, span } => if is_comparison(expr) {
            Ok(seq![Constraint { expr, span }])
        } else {
            Err(ErrorModel::NotAConstraint { span })
        },
        ResolvedStmtKind::Block { statements, .. } => branch_spec(statements@, 0),
        ResolvedStmtKind::Let { span, .. } => Err(unsupported("let in conditional branch"@, span,
            "Variable declarations are not allowed in conditional branches"@)),
        ResolvedStmtKind::If { span, .. } => Err(unsupported("nested if"@, span,
            "Nested if-statements are not supported in constraint problems"@)),
        ResolvedStmtKind::For { span, .. } => Err(unsupported("for in conditional branch"@, span,
            "Loops are not allowed in conditional branches"@)),
        ResolvedStmtKind::Return { span, .. } => Err(unsupported("return in conditional branch"@, span,
            "Return statements are not allowed in conditional branches"@)),
        ResolvedStmtKind::FunctionDef { span, .. } => Err(unsupported("function definition in conditional branch"@, span,
            "Function definitions are not allowed in conditional branches"@)),
        ResolvedStmtKind::StructDef { span, .. } => Err(unsupported("struct definition in conditional branch"@, span,
            "Struct definitions are not allowed in conditional branches"@)),
        ResolvedStmtKind::Assignment { span, .. } => Err(unsupported("assignment in conditional branch"@, span,
            "Variable reassignment is not allowed in conditional branches"@)),
        ResolvedStmtKind::FieldAssignment { span, .. } => Err(unsupported("field assignment in conditional branch"@, span,
            "Field assignments are not allowed in conditional branches"@)),
        ResolvedStmtKind::With { span, .. } => Err(unsupported("with in conditional branch"@, span,
            "With blocks are not allowed in conditional branches"@)),
    }
}

/// The constraints of a conditional branch `stmts[i..]`, in order, or the first refusal.
pub open spec fn branch_spec(stmts: Seq<ResolvedStmt>, i: int) -> Result<Seq<Constraint>, ErrorModel>
    decreases stmts, stmts.len() - i,
{
    if i < 0 || i >= stmts.len() {
        Ok(Seq::empty())
    } else {
        match branch_stmt_spec(stmts[i]) {
            Err(e) => Err(e),
            Ok(cs) => match branch_spec(stmts, i + 1) {
                Ok(rest) => Ok(cs + rest),
                Err(e) => Err(e),
            },
        }
    }
}

/// The problem with extra variables.
pub open spec fn with_vars(p: ProblemModel, vars: Seq<VariableModel>) -> ProblemModel {
    ProblemModel { variables: vars, ..p }
}

/// Declaring the variable `name` of struct type `ty` (with struct index `d`) with
/// optional initializer `init`: refused when the struct contains itself, otherwise one
/// unknown variable per primitive field, then the fields that a struct literal sets.
pub open spec fn struct_let_spec(table: StructTable, p: ProblemModel, name: Seq<char>, ty: ResolvedType, d: usize, init: Option<ResolvedExpr>, span: Span) -> (ProblemModel, Option<ErrorModel>) {
    match dfs_struct(table, d) {
        Err(ids) => (p, Some(ErrorModel::RecursiveStruct { cycle_path: struct_names(table, ids), span })),
        Ok(()) => {
            let vars = p.variables + fields_as_vars(flatten_spec(table, name, ty, flatten_depth(table, ty)));
            match init {
                Some(e) => {
                    let (v2, err) = struct_lit_spec(name, e, vars);
                    (with_vars(p, v2), err)
                },
                None => (with_vars(p, vars), None),
            }
        },
    }
}

/// The effect of a `let` of `var_type` on the problem.
pub open spec fn let_spec(table: StructTable, p: ProblemModel, name: Seq<char>, var_type: ResolvedType, init: Option<ResolvedExpr>, span: Span) -> (ProblemModel, Option<ErrorModel>) {
    let single = with_vars(p, p.variables.push(VariableModel { name, var_type, init, span }));
    match var_type {
        ResolvedType::UserDefined { definition, .. } => struct_let_spec(table, p, name, var_type, definition, init, span),
        ResolvedType::Array { .. } => (
            with_vars(p, p.variables + fields_as_vars(flatten_spec(table, name, var_type, flatten_depth(table, var_type)))),
            None,
        ),
        ResolvedType::Reference { inner, .. } => match *inner {
            ResolvedType::UserDefined { definition, .. } => struct_let_spec(table, p, name, *inner, definition, init, span),
            _ => (single, None),
        },
        _ => (single, None),
    }
}

/// The effect of one statement on the problem, and the error that stopped it, if any.
pub open spec fn stmt_spec(table: StructTable, p: ProblemModel, s: ResolvedStmt) -> (ProblemModel, Option<ErrorModel>)
    decreases s, 0nat,
{
    match s.kind {
        ResolvedStmtKind::Let { var_def, init, span } => match var_def.var_type {
            None => (p, Some(ErrorModel::MissingTypeInfo { var_name: var_def.name@, span })),
            Some(t) => let_spec(table, p, var_def.name@, t, init, span),
        },
        ResolvedStmtKind::Expression { expr, span } => if is_comparison(expr) {
            (ProblemModel { constraints: p.constraints.push(Constraint { expr, span }), ..p }, None)
        } else {
            (p, Some(ErrorModel::NotAConstraint { span }))
        },
        ResolvedStmtKind::If { condition, then_branch, else_branch, span } => match branch_spec(then_branch@, 0) {
            Err(e) => (p, Some(e)),
            Ok(tc) => {
                let ec: Result<Seq<Constraint>, ErrorModel> = match else_branch {
                    Some(es) => branch_spec(es@, 0),
                    None => Ok(Seq::empty()),
                };
                match ec {
                    Err(e) => (p, Some(e)),
                    Ok(ec) => (
                        ProblemModel {
                            conditional_constraints: p.conditional_constraints.push(ConditionalModel {
                                condition,
                                then_constraints: tc,
                                else_constraints: ec,
                                span,
                            }),
                            ..p
                        },
                        None,
                    ),
                }
            },
        },
        ResolvedStmtKind::For { span, .. } => (p, Some(unsupported("for"@, span,
            "Loops are not supported in constraint problems"@))),
        ResolvedStmtKind::Return { span, .. } => (p, Some(unsupported("return"@, span,
            "Return statements are not supported in constraint problems"@))),
        ResolvedStmtKind::FunctionDef { .. } => (p, None),
        ResolvedStmtKind::StructDef { .. } => (p, None),
        ResolvedStmtKind::Assignment { span, .. } => (p, Some(unsupported("assignment"@, span,
            "Variable reassignment is not supported in constraint problems"@))),
        ResolvedStmtKind::FieldAssignment { target, value, span } => match qualified_name_spec(target) {
            Err(e) => (p, Some(e)),
            Ok(q) => match first_named(p.variables, q, 0) {
                Some(i) => (with_vars(p, set_init(p.variables, q, value)), None),
                None => (p, Some(unsupported("field assignment to unknown variable"@, span,
                    "Field assignment to '"@ + q + "' but variable not found in problem"@))),
            },
        },
        ResolvedStmtKind::With { span, .. } => (p, Some(unsupported("with"@, span,
            "With blocks are not supported in constraint problems"@))),
        ResolvedStmtKind::Block { statements, .. } => block_spec(table, p, statements@, 0),
    }
}

/// The effect of the statements `stmts[i..]` of a block, stopping at the first error.
pub open spec fn block_spec(table: StructTable, p: ProblemModel, stmts: Seq<ResolvedStmt>, i: int) -> (ProblemModel, Option<ErrorModel>)
    decreases stmts, stmts.len() - i,
{
    if i < 0 || i >= stmts.len() {
        (p, None)
    } else {
        let (p1, e) = stmt_spec(table, p, stmts[i]);
        if e is Some {
            (p1, e)
        } else {
            block_spec(table, p1, stmts, i + 1)
        }
    }
}

/// The problem and the errors after the first `k` top-level statements: every statement
/// is processed, and each one that fails contributes its error.
pub open spec fn extract_prefix(table: StructTable, stmts: Seq<ResolvedStmt>, k: int) -> (ProblemModel, Seq<ErrorModel>)
    decreases k,
{
    if k <= 0 {
        (empty_problem(), Seq::empty())
    } else {
        let (p, errs) = extract_prefix(table, stmts, k - 1);
        let (p2, e) = stmt_spec(table, p, stmts[k - 1]);
        match e {
            Some(err) => (p2, errs.push(err)),
            None => (p2, errs),
        }
    }
}

/// The result of extraction: the problem when no statement failed, else all the errors.
pub open spec fn extract_spec(table: StructTable, stmts: Seq<ResolvedStmt>) -> Result<ProblemModel, Seq<ErrorModel>> {
    let (p, errs) = extract_prefix(table, stmts, stmts.len() as int);
    if errs.len() == 0 { Ok(p) } else { Err(errs) }
}

/// The types that extraction expands name only structs of the table, and array types
/// expand finitely (struct types are checked for self-containment before expansion).
pub open spec fn stmt_expandable(table: StructTable, s: ResolvedStmt) -> bool
    decreases s, 0nat,
{
    match s.kind {
        ResolvedStmtKind::Let { var_def, .. } => match var_def.var_type {
            Some(t) => type_in_table(table, t) && (t is Array ==> exists|n: nat| bounded(table, t, n)),
            None => true,
        },
        ResolvedStmtKind::Block { statements, .. } => stmts_expandable(table, statements@, 0),
        _ => true,
    }
}

/// [`stmt_expandable`] for every statement of `stmts[i..]`.
pub open spec fn stmts_expandable(table: StructTable, stmts: Seq<ResolvedStmt>, i: int) -> bool
    decreases stmts, stmts.len() - i,
{
    if i < 0 || i >= stmts.len() {
        true
    } else {
        stmt_expandable(table, stmts[i]) && stmts_expandable(table, stmts, i + 1)
    }
}

/// Every constraint of `cs` is a comparison.
pub open spec fn all_comparisons(cs: Seq<Constraint>) -> bool {
    forall|i: int| #![trigger cs[i]] 0 <= i < cs.len() ==> is_comparison(cs[i].expr)
}

/// Every constraint of the problem, conditional branches included, is a comparison.
pub open spec fn only_comparisons(p: ProblemModel) -> bool {
    &&& all_comparisons(p.constraints)
    &&& forall|k: int| #![trigger p.conditional_constraints[k]] 0 <= k < p.conditional_constraints.len() ==> {
        &&& all_comparisons(p.conditional_constraints[k].then_constraints)
        &&& all_comparisons(p.conditional_constraints[k].else_constraints)
    }
}

proof fn lemma_all_comparisons_concat(a: Seq<Constraint>, b: Seq<Constraint>)
    requires
        all_comparisons(a),
        all_comparisons(b),
    ensures
        all_comparisons(a + b),
{
    assert forall|i: int| #![trigger (a + b)[i]] 0 <= i < (a + b).len() implies is_comparison((a + b)[i].expr) by {
        if i < a.len() {
            assert((a + b)[i] == a[i]);
        } else {
            assert((a + b)[i] == b[i - a.len()]);
        }
    }
}

proof fn lemma_branch_stmt_comparisons(s: ResolvedStmt)
    ensures
        branch_stmt_spec(s) matches Ok(cs) ==> all_comparisons(cs),
    decreases s, 0nat,
{
    match s.kind {
        ResolvedStmtKind::Block { statements, .. } => {
            lemma_branch_comparisons(statements@, 0);
        },
        _ => {},
    }
}

proof fn lemma_branch_comparisons(stmts: Seq<ResolvedStmt>, i: int)
    ensures
        branch_spec(stmts, i) matches Ok(cs) ==> all_comparisons(cs),
    decreases stmts, stmts.len() - i,
{
    if 0 <= i < stmts.len() {
        lemma_branch_stmt_comparisons(stmts[i]);
        lemma_branch_comparisons(stmts, i + 1);
        if let Ok(cs) = branch_stmt_spec(stmts[i]) {
            if let Ok(rest) = branch_spec(stmts, i + 1) {
                lemma_all_comparisons_concat(cs, rest);
            }
        }
    }
}

proof fn lemma_stmt_keeps_comparisons(table: StructTable, p: ProblemModel, s: ResolvedStmt)
    requires
        only_comparisons(p),
    ensures
        only_comparisons(stmt_spec(table, p, s).0),
    decreases s, 0nat,
{
    match s.kind {
        ResolvedStmtKind::Expression { expr, span } => {
            if is_comparison(expr) {
                let q = stmt_spec(table, p, s).0;
                assert(q.constraints == p.constraints.push(Constraint { expr, span }));
                assert forall|i: int| #![trigger q.constraints[i]] 0 <= i < q.constraints.len()
                    implies is_comparison(q.constraints[i].expr) by {
                    if i < p.constraints.len() {
                        assert(q.constraints[i] == p.constraints[i]);
                    }
                }
            }
        },
        ResolvedStmtKind::If { then_branch, else_branch, .. } => {
            lemma_branch_comparisons(then_branch@, 0);
            if let Some(es) = else_branch {
                lemma_branch_comparisons(es@, 0);
            }
            let q = stmt_spec(table, p, s).0;
            assert forall|k: int| #![trigger q.conditional_constraints[k]] 0 <= k < q.conditional_constraints.len() implies {
                &&& all_comparisons(q.conditional_constraints[k].then_constraints)
                &&& all_comparisons(q.conditional_constraints[k].else_constraints)
            } by {
                if k < p.conditional_constraints.len() {
                    assert(q.conditional_constraints[k] == p.conditional_constraints[k]);
                }
            }
        },
        ResolvedStmtKind::Block { statements, .. } => {
            lemma_block_keeps_comparisons(table, p, statements@, 0);
        },
        _ => {},
    }
}

proof fn lemma_block_keeps_comparisons(table: StructTable, p: ProblemModel, stmts: Seq<ResolvedStmt>, i: int)
    requires
        only_comparisons(p),
    ensures
        only_comparisons(block_spec(table, p, stmts, i).0),
    decreases stmts, stmts.len() - i,
{
    if 0 <= i < stmts.len() {
        lemma_stmt_keeps_comparisons(table, p, stmts[i]);
        let (p1, e) = stmt_spec(table, p, stmts[i]);
        if e is None {
            lemma_block_keeps_comparisons(table, p1, stmts, i + 1);
        }
    }
}

proof fn lemma_prefix_keeps_comparisons(table: StructTable, stmts: Seq<ResolvedStmt>, k: int)
    ensures
        only_comparisons(extract_prefix(table, stmts, k).0),
    decreases k,
{
    if k > 0 {
        lemma_prefix_keeps_comparisons(table, stmts, k - 1);
        lemma_stmt_keeps_comparisons(table, extract_prefix(table, stmts, k - 1).0, stmts[k - 1]);
    }
}

/// Everything that extraction turns into a constraint is a comparison: the
/// unconditional constraints and those of both branches of every conditional constraint.
pub proof fn lemma_extracted_constraints_are_comparisons(table: StructTable, stmts: Seq<ResolvedStmt>)
    ensures
        extract_spec(table, stmts) matches Ok(p) ==> only_comparisons(p),
{
    lemma_prefix_keeps_comparisons(table, stmts, stmts.len() as int);
}

/// The model of the outcome of processing a statement.
pub open spec fn outcome(r: Result<(), ConstraintExtractorError>) -> Option<ErrorModel> {
    match r {
        Ok(()) => None,
        Err(e) => Some(e@),
    }
}

// ============================================================================
// Extraction
// ============================================================================

fn unsupported_error(statement_type: &str, span: Span, message: &str) -> (e: ConstraintExtractorError)
    ensures
        e@ == unsupported(statement_type@, span, message@),
{
    ConstraintExtractorError::UnsupportedStatement {
        statement_type: String::from_str(statement_type),
        span,
        message: String::from_str(message),
    }
}

/// Extracts the constraint problem from `statements`.
///
/// Every statement is processed in order; when any fails, the result lists the error
/// of each failing statement, in order, and no problem.
pub fn extract_constraints(table: &StructTable, statements: Vec<ResolvedStmt>) -> (r: Result<ConstraintProblem, Vec<ConstraintExtractorError>>)
    requires
        table_wf(*table),
        stmts_expandable(*table, statements@, 0),
    ensures
        match extract_spec(*table, statements@) {
            Ok(p) => r matches Ok(problem) && problem@ == p,
            Err(errs) => r matches Err(es) && es@.map_values(|e: ConstraintExtractorError| e@) == errs,
        },
{
    let ghost orig = statements@;
    let mut problem = ConstraintProblem::new();
    let mut errors: Vec<ConstraintExtractorError> = Vec::new();
    let mut rest = statements;
    let ghost mut k: int = 0;
    while rest.len() > 0
        invariant
            0 <= k <= orig.len(),
            rest@ == orig.skip(k),
            table_wf(*table),
            stmts_expandable(*table, orig, k),
            (problem@, errors@.map_values(|e: ConstraintExtractorError| e@)) == extract_prefix(*table, orig, k),
        decreases rest.len(),
    {
        let stmt = rest.remove(0);
        proof {
            assert(stmt == orig[k]);
        }
        let ghost before = errors@;
        let res = process_statement(table, stmt, &mut problem);
        match res {
            Err(err) => {
                errors.push(err);
                assert(errors@.map_values(|e: ConstraintExtractorError| e@)
                    =~= before.map_values(|e: ConstraintExtractorError| e@).push(errors@.last()@));
            },
            Ok(()) => {},
        }
        proof {
            assert(rest@ =~= orig.skip(k + 1));
            k = k + 1;
        }
    }
    assert(k == orig.len());
    if errors.len() == 0 {
        Ok(problem)
    } else {
        Err(errors)
    }
}

proof fn lemma_user_bounded_witness(table: StructTable, t: ResolvedType, d: usize)
    requires
        t is UserDefined,
        t->definition == d,
        exists|n: nat| struct_bounded(table, d as int, n),
    ensures
        exists|n: nat| bounded(table, t, n),
{
    let n = choose|n: nat| struct_bounded(table, d as int, n);
    assert(bounded(table, t, n));
}

fn push_flattened(problem: &mut ConstraintProblem, fields: Vec<FlattenedField>)
    ensures
        final(problem)@ == with_vars(old(problem)@,
            old(problem)@.variables + fields_as_vars(fields@.map_values(|f: FlattenedField| field_view(f)))),
{
    let ghost orig = fields@;
    let ghost start = problem@;
    let mut rest = fields;
    let ghost mut k: int = 0;
    while rest.len() > 0
        invariant
            0 <= k <= orig.len(),
            rest@ == orig.skip(k),
            problem@ == with_vars(start,
                start.variables + fields_as_vars(orig.take(k).map_values(|f: FlattenedField| field_view(f)))),
        decreases rest.len(),
    {
        let f = rest.remove(0);
        assert(f == orig[k]);
        let ghost before = problem.variables@;
        problem.add_variable(Variable { name: f.full_name, var_type: f.primitive_type, init: None, span: f.span });
        proof {
            assert(orig.take(k + 1) =~= orig.take(k).push(orig[k]));
            assert(problem.variables@.map_values(|v: Variable| v@)
                =~= before.map_values(|v: Variable| v@).push(problem.variables@.last()@));
            assert(rest@ =~= orig.skip(k + 1));
            k = k + 1;
        }
        assert(problem@.variables =~= start.variables
            + fields_as_vars(orig.take(k).map_values(|f: FlattenedField| field_view(f))));
    }
    assert(orig.take(k) =~= orig);
}

/// Declares the variable `name` of the struct type `ty` (struct `d`).
fn process_struct_let(
    table: &StructTable,
    name: &str,
    ty: &ResolvedType,
    d: usize,
    init: Option<ResolvedExpr>,
    span: Span,
    problem: &mut ConstraintProblem,
) -> (r: Result<(), ConstraintExtractorError>)
    requires
        table_wf(*table),
        type_in_table(*table, *ty),
        ty is UserDefined,
        ty->definition == d,
    ensures
        (final(problem)@, outcome(r)) == struct_let_spec(*table, old(problem)@, name@, *ty, d, init, span),
{
    match detect_cycles(table, d) {
        Err(cycle_err) => {
            return Err(ConstraintExtractorError::RecursiveStruct { cycle_path: cycle_err.cycle_path, span });
        },
        Ok(()) => {},
    }
    proof {
        lemma_user_bounded_witness(*table, *ty, d);
    }
    let fields = flatten_type(table, name, ty);
    push_flattened(problem, fields);
    match init {
        Some(init_expr) => process_struct_literal_init(name, init_expr, problem),
        None => Ok(()),
    }
}

/// Processes one statement, adding what it declares or constrains to `problem`.
fn process_statement(table: &StructTable, stmt: ResolvedStmt, problem: &mut ConstraintProblem) -> (r: Result<(), ConstraintExtractorError>)
    requires
        table_wf(*table),
        stmt_expandable(*table, stmt),
    ensures
        (final(problem)@, outcome(r)) == stmt_spec(*table, old(problem)@, stmt),
    decreases stmt,
{
    let ghost s0 = stmt;
    match stmt.kind {
        ResolvedStmtKind::Let { var_def, init, span } => {
            let var_type = match var_def.var_type {
                None => {
                    return Err(ConstraintExtractorError::MissingTypeInfo { var_name: var_def.name, span });
                },
                Some(t) => t,
            };
            match &var_type {
                ResolvedType::UserDefined { definition, .. } => {
                    process_struct_let(table, var_def.name.as_str(), &var_type, *definition, init, span, problem)
                },
                ResolvedType::Array { .. } => {
                    let fields = flatten_type(table, var_def.name.as_str(), &var_type);
                    push_flattened(problem, fields);
                    Ok(())
                },
                ResolvedType::Reference { inner, .. } => {
                    match &**inner {
                        ResolvedType::UserDefined { definition, .. } => {
                            process_struct_let(table, var_def.name.as_str(), &**inner, *definition, init, span, problem)
                        },
                        _ => {
                            problem.add_variable(Variable { name: var_def.name, var_type, init, span });
                            Ok(())
                        },
                    }
                },
                _ => {
                    problem.add_variable(Variable { name: var_def.name, var_type, init, span });
                    Ok(())
                },
            }
        },
        ResolvedStmtKind::Expression { expr, span } => {
            if is_comparison_expr(&expr) {
                problem.add_constraint(Constraint::new(expr, span));
                Ok(())
            } else {
                Err(ConstraintExtractorError::NotAConstraint { span })
            }
        },
        ResolvedStmtKind::If { condition, then_branch, else_branch, span } => {
            let then_constraints = match process_branch(then_branch) {
                Err(e) => { return Err(e); },
                Ok(c) => c,
            };
            let else_constraints = match else_branch {
                Some(else_stmts) => match process_branch(else_stmts) {
                    Err(e) => { return Err(e); },
                    Ok(c) => c,
                },
                None => Vec::new(),
            };
            problem.add_conditional_constraint(ConditionalConstraint::new(condition, then_constraints, else_constraints, span));
            Ok(())
        },
        ResolvedStmtKind::For { span, .. } => Err(unsupported_error("for", span,
            "Loops are not supported in constraint problems")),
        ResolvedStmtKind::Return { span, .. } => Err(unsupported_error("return", span,
            "Return statements are not supported in constraint problems")),
        ResolvedStmtKind::FunctionDef { .. } => Ok(()),
        ResolvedStmtKind::StructDef { .. } => Ok(()),
        ResolvedStmtKind::Assignment { span, .. } => Err(unsupported_error("assignment", span,
            "Variable reassignment is not supported in constraint problems")),
        ResolvedStmtKind::FieldAssignment { target, value, span } => {
            let qualified_name = match build_qualified_field_name(&target) {
                Err(e) => { return Err(e); },
                Ok(q) => q,
            };
            match find_variable(&problem.variables, qualified_name.as_str()) {
                Some(i) => {
                    set_variable_init(problem, i, value);
                    Ok(())
                },
                None => {
                    let mut message = String::from_str("Field assignment to '");
                    append_str(&mut message, qualified_name.as_str());
                    append_str(&mut message, "' but variable not found in problem");
                    Err(ConstraintExtractorError::UnsupportedStatement {
                        statement_type: String::from_str("field assignment to unknown variable"),
                        span,
                        message,
                    })
                },
            }
        },
        ResolvedStmtKind::With { span, .. } => Err(unsupported_error("with", span,
            "With blocks are not supported in constraint problems")),
        ResolvedStmtKind::Block { statements, .. } => {
            let ghost orig = statements@;
            let ghost p0 = problem@;
            let mut rest = statements;
            let ghost mut k: int = 0;
            while rest.len() > 0
                invariant
                    0 <= k <= orig.len(),
                    rest@ == orig.skip(k),
                    table_wf(*table),
                    stmts_expandable(*table, orig, k),
                    s0 == stmt,
                    p0 == old(problem)@,
                    s0.kind is Block,
                    s0.kind->Block_statements@ == orig,
                    block_spec(*table, p0, orig, 0) == block_spec(*table, problem@, orig, k),
                decreases rest.len(),
            {
                let inner = rest.remove(0);
                proof {
                    assert(inner == orig[k]);
                    let v = s0.kind->Block_statements;
                    assert(decreases_to!(s0 => s0.kind));
                    assert(decreases_to!(s0.kind => v));
                    assert(decreases_to!(v => v@));
                    assert(decreases_to!(v@ => v@[k]));
                    assert(decreases_to!(s0 => inner));
                }
                match process_statement(table, inner, problem) {
                    Err(e) => { return Err(e); },
                    Ok(()) => {},
                }
                proof {
                    assert(rest@ =~= orig.skip(k + 1));
                    k = k + 1;
                }
            }
            Ok(())
        },
    }
}

/// Whether an expression is a comparison (a constraint).
pub fn is_comparison_expr(expr: &ResolvedExpr) -> (b: bool)
    ensures
        b == is_comparison(*expr),
{
    match &expr.kind {
        ResolvedExprKind::Eq { .. } | ResolvedExprKind::NotEq { .. } | ResolvedExprKind::Lt { .. }
        | ResolvedExprKind::Gt { .. } | ResolvedExprKind::LtEq { .. } | ResolvedExprKind::GtEq { .. } => true,
        _ => false,
    }
}

/// The constraints of a conditional branch; declarations, nested `if`s, loops and other
/// statements are refused there.
fn process_branch(statements: Vec<ResolvedStmt>) -> (r: Result<Vec<Constraint>, ConstraintExtractorError>)
    ensures
        match branch_spec(statements@, 0) {
            Ok(cs) => r matches Ok(v) && v@ == cs,
            Err(e) => r matches Err(err) && err@ == e,
        },
    decreases statements@,
{
    let ghost orig = statements@;
    let mut constraints: Vec<Constraint> = Vec::new();
    let mut rest = statements;
    let ghost mut k: int = 0;
    while rest.len() > 0
        invariant
            0 <= k <= orig.len(),
            rest@ == orig.skip(k),
            orig == statements@,
            branch_spec(orig, 0) == match branch_spec(orig, k) {
                Ok(more) => Ok(constraints@ + more),
                Err(e) => Err(e),
            },
        decreases rest.len(),
    {
        let stmt = rest.remove(0);
        let ghost here = branch_stmt_spec(stmt);
        proof {
            assert(stmt == orig[k]);
        }
        let ghost before = constraints@;
        match stmt.kind {
            ResolvedStmtKind::Expression { expr, span } => {
                if is_comparison_expr(&expr) {
                    constraints.push(Constraint::new(expr, span));
                    assert(constraints@ =~= before + here->Ok_0);
                } else {
                    return Err(ConstraintExtractorError::NotAConstraint { span });
                }
            },
            ResolvedStmtKind::Block { statements, .. } => {
                proof {
                    let st = orig[k];
                    assert(decreases_to!(orig => st));
                    assert(decreases_to!(st => st.kind));
                    assert(decreases_to!(st.kind => statements));
                    assert(decreases_to!(statements => statements@));
                    assert(decreases_to!(orig => statements@));
                }
                let inner = match process_branch(statements) {
                    Err(e) => { return Err(e); },
                    Ok(c) => c,
                };
                let mut inner = inner;
                constraints.append(&mut inner);
                assert(constraints@ =~= before + here->Ok_0);
            },
            ResolvedStmtKind::Let { span, .. } => {
                return Err(unsupported_error("let in conditional branch", span,
                    "Variable declarations are not allowed in conditional branches"));
            },
            ResolvedStmtKind::If { span, .. } => {
                return Err(unsupported_error("nested if", span,
                    "Nested if-statements are not supported in constraint problems"));
            },
            ResolvedStmtKind::For { span, .. } => {
                return Err(unsupported_error("for in conditional branch", span,
                    "Loops are not allowed in conditional branches"));
            },
            ResolvedStmtKind::Return { span, .. } => {
                return Err(unsupported_error("return in conditional branch", span,
                    "Return statements are not allowed in conditional branches"));
            },
            ResolvedStmtKind::FunctionDef { span, .. } => {
                return Err(unsupported_error("function definition in conditional branch", span,
                    "Function definitions are not allowed in conditional branches"));
            },
            ResolvedStmtKind::StructDef { span, .. } => {
                return Err(unsupported_error("struct definition in conditional branch", span,
                    "Struct definitions are not allowed in conditional branches"));
            },
            ResolvedStmtKind::Assignment { span, .. } => {
                return Err(unsupported_error("assignment in conditional branch", span,
                    "Variable reassignment is not allowed in conditional branches"));
            },
            ResolvedStmtKind::FieldAssignment { span, .. } => {
                return Err(unsupported_error("field assignment in conditional branch", span,
                    "Field assignments are not allowed in conditional branches"));
            },
            ResolvedStmtKind::With { span, .. } => {
                return Err(unsupported_error("with in conditional branch", span,
                    "With blocks are not allowed in conditional branches"));
            },
        }
        proof {
            match branch_spec(orig, k + 1) {
                Ok(more) => {
                    assert(before + (here->Ok_0 + more) =~= constraints@ + more);
                },
                Err(_) => {},
            }
        }
        proof {
            assert(rest@ =~= orig.skip(k + 1));
            k = k + 1;
        }
    }
    Ok(constraints)
}

/// The index of the first variable named `name`.
fn find_variable(vars: &Vec<Variable>, name: &str) -> (r: Option<usize>)
    ensures
        r matches Some(i) ==> i < vars@.len() && first_named(vars@.map_values(|v: Variable| v@), name@, 0) == Some(i as int),
        r is None ==> first_named(vars@.map_values(|v: Variable| v@), name@, 0) is None,
{
    let ghost models = vars@.map_values(|v: Variable| v@);
    let target = String::from_str(name);
    let mut i: usize = 0;
    while i < vars.len()
        invariant
            i <= vars.len(),
            models == vars@.map_values(|v: Variable| v@),
            target@ == name@,
            first_named(models, name@, 0) == first_named(models, name@, i as int),
        decreases vars.len() - i,
    {
        assert(models[i as int] == vars@[i as int]@);
        let same = vars[i].name == target;
        assert(same == (vars@[i as int].name@ == target@));
        assert(target@ == name@);
        if same {
            assert(first_named(models, name@, i as int) == Some(i as int));
            return Some(i);
        }
        assert(first_named(models, name@, i as int) == first_named(models, name@, i + 1));
        i = i + 1;
    }
    None
}

/// Gives variable `i` the initializer `value`.
fn set_variable_init(problem: &mut ConstraintProblem, i: usize, value: ResolvedExpr)
    requires
        i < old(problem).variables@.len(),
    ensures
        final(problem)@ == with_vars(old(problem)@,
            old(problem)@.variables.update(i as int, VariableModel { init: Some(value), ..old(problem)@.variables[i as int] })),
{
    let mut var = problem.variables.remove(i);
    var.init = Some(value);
    problem.variables.insert(i, var);
    assert(problem@.variables =~= old(problem)@.variables.update(i as int,
        VariableModel { init: Some(value), ..old(problem)@.variables[i as int] }));
}

/// Sets the fields of variable `base_name` that the struct literal `init_expr` gives,
/// recursing into nested struct literals (`line.start.x`). A field without a matching
/// variable is skipped; a non-literal initializer sets nothing.
fn process_struct_literal_init(base_name: &str, init_expr: ResolvedExpr, problem: &mut ConstraintProblem) -> (r: Result<(), ConstraintExtractorError>)
    ensures
        (final(problem)@.variables, outcome(r)) == struct_lit_spec(base_name@, init_expr, old(problem)@.variables),
        final(problem)@.constraints == old(problem)@.constraints,
        final(problem)@.conditional_constraints == old(problem)@.conditional_constraints,
    decreases init_expr, 0nat,
{
    let ghost e0 = init_expr;
    match init_expr.kind {
        ResolvedExprKind::StructLit { fields, .. } => {
            let ghost orig = fields@;
            let ghost v0 = problem@.variables;
            let ghost c0 = problem@.constraints;
            let ghost d0 = problem@.conditional_constraints;
            let mut rest = fields;
            let ghost mut k: int = 0;
            while rest.len() > 0
                invariant
                    0 <= k <= orig.len(),
                    rest@ == orig.skip(k),
                    e0 == init_expr,
                    e0.kind is StructLit,
                    e0.kind->StructLit_fields@ == orig,
                    struct_lit_fields_spec(base_name@, orig, 0, v0) == struct_lit_fields_spec(base_name@, orig, k, problem@.variables),
                    problem@.constraints == c0,
                    problem@.conditional_constraints == d0,
                    v0 == old(problem)@.variables,
                    c0 == old(problem)@.constraints,
                    d0 == old(problem)@.conditional_constraints,
                decreases rest.len(),
            {
                let field = rest.remove(0);
                proof {
                    assert(field == orig[k]);
                }
                match field {
                    ResolvedStructLitField::Field { name, value, .. } => {
                        let mut qualified = String::from_str(base_name);
                        push_char(&mut qualified, '.');
                        append_str(&mut qualified, name.as_str());
                        assert(qualified@ =~= dotted(base_name@, name@));
                        let is_lit = match &value.kind {
                            ResolvedExprKind::StructLit { .. } => true,
                            _ => false,
                        };
                        if is_lit {
                            proof {
                                let v = e0.kind->StructLit_fields;
                                assert(decreases_to!(e0 => e0.kind));
                                assert(decreases_to!(e0.kind => v));
                                assert(decreases_to!(v => v@));
                                assert(decreases_to!(v@ => v@[k]));
                                assert(decreases_to!(v@[k] => value));
                                assert(decreases_to!(e0 => value));
                            }
                            match process_struct_literal_init(qualified.as_str(), value, problem) {
                                Err(e) => { return Err(e); },
                                Ok(()) => {},
                            }
                        } else {
                            match find_variable(&problem.variables, qualified.as_str()) {
                                Some(i) => set_variable_init(problem, i, value),
                                None => {},
                            }
                        }
                    },
                    ResolvedStructLitField::ComputedProperty { span, .. } => {
                        return Err(unsupported_error("computed property in struct literal", span,
                            "Computed properties are not supported in struct literal initialization"));
                    },
                }
                proof {
                    assert(rest@ =~= orig.skip(k + 1));
                    k = k + 1;
                }
            }
            Ok(())
        },
        _ => Ok(()),
    }
}

/// The qualified name (`p.x`, `line.start.x`) that a field-assignment target denotes.
fn build_qualified_field_name(target: &ResolvedExpr) -> (r: Result<String, ConstraintExtractorError>)
    ensures
        match qualified_name_spec(*target) {
            Ok(q) => r matches Ok(s) && s@ == q,
            Err(e) => r matches Err(err) && err@ == e,
        },
    decreases target,
{
    match &target.kind {
        ResolvedExprKind::FieldAccess { receiver, field_name } => {
            match &receiver.kind {
                ResolvedExprKind::Var { name } => {
                    let mut q = name.clone();
                    push_char(&mut q, '.');
                    append_str(&mut q, field_name.as_str());
                    assert(q@ =~= dotted(name@, field_name@));
                    Ok(q)
                },
                ResolvedExprKind::FieldAccess { .. } => {
                    let mut q = build_qualified_field_name(receiver)?;
                    let ghost prefix = q@;
                    push_char(&mut q, '.');
                    append_str(&mut q, field_name.as_str());
                    assert(q@ =~= dotted(prefix, field_name@));
                    Ok(q)
                },
                _ => Err(unsupported_error("field assignment with non-field-access receiver", target.span,
                    "Field assignment target must be a field access expression")),
            }
        },
        _ => Err(unsupported_error("field assignment with invalid target", target.span,
            "Field assignment target must be a field access expression")),
    }
}

/// A `let` of array type adds no error and keeps the variables already extracted;
/// every variable it adds is of a primitive type (the array is flattened, never kept
/// whole) and is named under the array's name. For an array of a primitive element
/// type these are exactly the elements: `size` variables, the `k`-th named `name[k]`,
/// of the element type, without an initial value.
pub proof fn lemma_array_let_flattens(table: StructTable, p: ProblemModel, s: ResolvedStmt)
    requires
        s.kind matches ResolvedStmtKind::Let { var_def, .. } && var_def.var_type matches Some(t) && t is Array,
    ensures
        ({
            let (q, err) = stmt_spec(table, p, s);
            let name = s.kind->Let_var_def.name@;
            let t = s.kind->Let_var_def.var_type->Some_0;
            let n0 = p.variables.len();
            &&& err is None
            &&& q.constraints == p.constraints
            &&& q.conditional_constraints == p.conditional_constraints
            &&& q.variables.len() >= n0
            &&& q.variables.subrange(0, n0 as int) == p.variables
            &&& forall|k: int| n0 <= k < q.variables.len() ==> is_primitive(#[trigger] q.variables[k].var_type)
                && name.is_prefix_of(q.variables[k].name)
            &&& is_primitive(*t->Array_element_type) ==> {
                &&& q.variables.len() == n0 + t->Array_size
                &&& forall|k: int| 0 <= k < t->Array_size ==> #[trigger] q.variables[n0 + k] == (VariableModel {
                    name: index_path(name, k as nat),
                    var_type: *t->Array_element_type,
                    init: None,
                    span: type_span(*t->Array_element_type),
                })
            }
        }),
{
    let var_def = s.kind->Let_var_def;
    let name = var_def.name@;
    let t = var_def.var_type->Some_0;
    let n = flatten_depth(table, t);
    let fs = flatten_spec(table, name, t, n);
    lemma_flatten_primitive_under_prefix(table, name, t, n);
    let added = fields_as_vars(fs);
    let (q, err) = stmt_spec(table, p, s);
    assert(q.variables == p.variables + added);
    assert(q.variables.subrange(0, p.variables.len() as int) =~= p.variables);
    assert forall|k: int| p.variables.len() <= k < q.variables.len() implies is_primitive(#[trigger] q.variables[k].var_type)
        && name.is_prefix_of(q.variables[k].name) by {
        assert(q.variables[k] == added[k - p.variables.len()]);
        assert(fs[k - p.variables.len()] == fs[k - p.variables.len()]);
    }
    if is_primitive(*t->Array_element_type) {
        lemma_flatten_primitive_elements(table, name, *t->Array_element_type, t->Array_size as nat, 0, n);
        assert forall|k: int| 0 <= k < t->Array_size implies #[trigger] q.variables[p.variables.len() + k] == (VariableModel {
            name: index_path(name, k as nat),
            var_type: *t->Array_element_type,
            init: None,
            span: type_span(*t->Array_element_type),
        }) by {
            assert(q.variables[p.variables.len() + k] == added[k]);
            assert(fs[k] == (index_path(name, (0 + k) as nat), *t->Array_element_type, type_span(*t->Array_element_type)));
        }
    }
}

} // verus!
