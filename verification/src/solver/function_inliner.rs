//! Inlining of function and method calls.
//!
//! A call is replaced by the return expression of the called function with each
//! parameter replaced by the (inlined) argument expression, and the calls in that
//! expression are inlined in turn; for a method `self` stands for the receiver. The functions are collected first (those defined at top level,
//! in blocks, in branches and as struct methods); definitions are then dropped from
//! the top level. A call to a function that is already being inlined (a recursive
//! call) is refused, as is a call to a function without a return expression.

use vstd::prelude::*;
use crate::hir::{copy_type, Callee, FunctionDefinition, ResolvedExpr, ResolvedExprKind, ResolvedStmt, ResolvedStmtKind,
    ResolvedStructLitField, VarDefinition};
use crate::lexer::Span;
use crate::text::{append_str, append_u64, decimal, join_strings, joined};
use crate::expr_model::{BinOp, UnOp, CalleeModel, ExprModel, FieldModel, KindModel, LitModel, callee_model,
    expr_model, exprs_model, field_model, fields_model, kind_model, copy_expr, copy_callee,
    lemma_exprs_model_eq, lemma_fields_model_eq, lemma_exprs_model_shape, lemma_fields_model_shape};

verus! {

// ============================================================================
// Errors
// ============================================================================

/// Errors of function inlining.
#[derive(Debug)]
pub enum FunctionInlinerError {
    /// A call to a function that is being inlined already.
    RecursiveCall { function_name: String, call_chain: Vec<String>, span: Span },
    /// A call to a function that has no return expression (or is unknown).
    NoReturnStatement { function_name: String, span: Span },
    /// A function whose body has control flow that inlining does not support.
    UnsupportedControlFlow { function_name: String, statement_type: String, span: Span },
    /// A function whose body has statements besides its return.
    ComplexFunctionBody { function_name: String, span: Span },
}

/// The content of an inlining error.
pub enum InlinerErrorModel {
    RecursiveCall { function_name: Seq<char>, call_chain: Seq<Seq<char>>, span: Span },
    NoReturnStatement { function_name: Seq<char>, span: Span },
    UnsupportedControlFlow { function_name: Seq<char>, statement_type: Seq<char>, span: Span },
    ComplexFunctionBody { function_name: Seq<char>, span: Span },
}

impl View for FunctionInlinerError {
    type V = InlinerErrorModel;

    open spec fn view(&self) -> InlinerErrorModel {
        match self {
            FunctionInlinerError::RecursiveCall { function_name, call_chain, span } => InlinerErrorModel::RecursiveCall {
                function_name: function_name@,
                call_chain: call_chain@.map_values(|s: String| s@),
                span: *span,
            },
            FunctionInlinerError::NoReturnStatement { function_name, span } =>
                InlinerErrorModel::NoReturnStatement { function_name: function_name@, span: *span },
            FunctionInlinerError::UnsupportedControlFlow { function_name, statement_type, span } =>
                InlinerErrorModel::UnsupportedControlFlow {
                    function_name: function_name@,
                    statement_type: statement_type@,
                    span: *span,
                },
            FunctionInlinerError::ComplexFunctionBody { function_name, span } =>
                InlinerErrorModel::ComplexFunctionBody { function_name: function_name@, span: *span },
        }
    }
}

/// ` at line L, column C`
pub open spec fn position_text(span: Span) -> Seq<char> {
    " at line "@ + decimal(span.start.line as nat) + ", column "@ + decimal(span.start.column as nat)
}

/// The message of an inlining error.
pub open spec fn inliner_error_text(e: InlinerErrorModel) -> Seq<char> {
    match e {
        InlinerErrorModel::RecursiveCall { function_name, call_chain, span } =>
            "Recursive function call to '"@ + function_name + "'"@ + position_text(span) + ". Call chain: "@
                + joined(call_chain, " -> "@),
        InlinerErrorModel::NoReturnStatement { function_name, span } =>
            "Function '"@ + function_name + "'"@ + position_text(span) + " has no return statement"@,
        InlinerErrorModel::UnsupportedControlFlow { function_name, statement_type, span } =>
            "Function '"@ + function_name + "'"@ + position_text(span) + " has unsupported control flow: "@
                + statement_type,
        InlinerErrorModel::ComplexFunctionBody { function_name, span } =>
            "Function '"@ + function_name + "'"@ + position_text(span)
                + " has complex body with multiple statements. Only simple functions with a single return statement are supported."@,
    }
}

// ============================================================================
// Substitution
// ============================================================================

/// The argument bound to `name`: the last binding of that name.
pub open spec fn param_lookup(pm: Seq<(Seq<char>, ExprModel)>, name: Seq<char>) -> Option<ExprModel>
    decreases pm.len(),
{
    if pm.len() == 0 {
        None
    } else if pm.last().0 == name {
        Some(pm.last().1)
    } else {
        param_lookup(pm.drop_last(), name)
    }
}

/// `m` with every variable bound in `pm` replaced by its argument.
pub open spec fn subst(m: ExprModel, pm: Seq<(Seq<char>, ExprModel)>) -> ExprModel
    decreases m, 0nat,
{
    match m.kind {
        KindModel::Var(name) => match param_lookup(pm, name) {
            Some(a) => a,
            None => m,
        },
        KindModel::Lit(_) => m,
        KindModel::Bin(op, l, r) =>
            ExprModel { span: m.span, ty: m.ty, kind: KindModel::Bin(op, Box::new(subst(*l, pm)), Box::new(subst(*r, pm))) },
        KindModel::Un(op, x) => ExprModel { span: m.span, ty: m.ty, kind: KindModel::Un(op, Box::new(subst(*x, pm))) },
        KindModel::Field(x, f) => ExprModel { span: m.span, ty: m.ty, kind: KindModel::Field(Box::new(subst(*x, pm)), f) },
        KindModel::StructLit(n, fs) => ExprModel { span: m.span, ty: m.ty, kind: KindModel::StructLit(n, subst_fields(fs, pm, 0)) },
        KindModel::Call(n, c, args) => ExprModel { span: m.span, ty: m.ty, kind: KindModel::Call(n, c, subst_list(args, pm, 0)) },
        KindModel::Method(x, n, c, args) => ExprModel {
            span: m.span,
            ty: m.ty,
            kind: KindModel::Method(Box::new(subst(*x, pm)), n, c, subst_list(args, pm, 0)),
        },
        KindModel::Array(xs) => ExprModel { span: m.span, ty: m.ty, kind: KindModel::Array(subst_list(xs, pm, 0)) },
    }
}

/// [`subst`] on each of `xs[i..]`.
pub open spec fn subst_list(xs: Seq<ExprModel>, pm: Seq<(Seq<char>, ExprModel)>, i: int) -> Seq<ExprModel>
    decreases xs, xs.len() - i,
{
    if i < 0 || i >= xs.len() {
        Seq::empty()
    } else {
        seq![subst(xs[i], pm)] + subst_list(xs, pm, i + 1)
    }
}

/// [`subst`] on the values of the fields `fs[i..]`.
pub open spec fn subst_fields(fs: Seq<FieldModel>, pm: Seq<(Seq<char>, ExprModel)>, i: int) -> Seq<FieldModel>
    decreases fs, fs.len() - i,
{
    if i < 0 || i >= fs.len() {
        Seq::empty()
    } else {
        seq![FieldModel { value: subst(fs[i].value, pm), ..fs[i] }] + subst_fields(fs, pm, i + 1)
    }
}

/// The variable `name` occurs somewhere in `m`.
pub open spec fn mentions(m: ExprModel, name: Seq<char>) -> bool
    decreases m, 0nat,
{
    match m.kind {
        KindModel::Var(n) => n == name,
        KindModel::Lit(_) => false,
        KindModel::Bin(_, l, r) => mentions(*l, name) || mentions(*r, name),
        KindModel::Un(_, x) => mentions(*x, name),
        KindModel::Field(x, _) => mentions(*x, name),
        KindModel::StructLit(_, fs) => mentions_fields(fs, name, 0),
        KindModel::Call(_, _, args) => mentions_list(args, name, 0),
        KindModel::Method(x, _, _, args) => mentions(*x, name) || mentions_list(args, name, 0),
        KindModel::Array(xs) => mentions_list(xs, name, 0),
    }
}

/// `name` occurs in one of `xs[i..]`.
pub open spec fn mentions_list(xs: Seq<ExprModel>, name: Seq<char>, i: int) -> bool
    decreases xs, xs.len() - i,
{
    if i < 0 || i >= xs.len() { false } else { mentions(xs[i], name) || mentions_list(xs, name, i + 1) }
}

/// `name` occurs in the value of one of the fields `fs[i..]`.
pub open spec fn mentions_fields(fs: Seq<FieldModel>, name: Seq<char>, i: int) -> bool
    decreases fs, fs.len() - i,
{
    if i < 0 || i >= fs.len() { false } else { mentions(fs[i].value, name) || mentions_fields(fs, name, i + 1) }
}

proof fn lemma_lookup_avoids(pm: Seq<(Seq<char>, ExprModel)>, x: Seq<char>, name: Seq<char>)
    requires
        forall|j: int| 0 <= j < pm.len() ==> !mentions(#[trigger] pm[j].1, name),
    ensures
        param_lookup(pm, x) matches Some(a) ==> !mentions(a, name),
    decreases pm.len(),
{
    if pm.len() > 0 && pm.last().0 != x {
        assert forall|j: int| 0 <= j < pm.drop_last().len() implies !mentions(#[trigger] pm.drop_last()[j].1, name) by {
            assert(pm.drop_last()[j] == pm[j]);
        }
        lemma_lookup_avoids(pm.drop_last(), x, name);
    } else if pm.len() > 0 {
        assert(pm.last() == pm[pm.len() - 1]);
    }
}

/// Substitution replaces every occurrence of a bound parameter: once `name` is bound
/// in `pm` and no argument of `pm` mentions it, `name` occurs nowhere in the result,
/// under any operator, field, call or literal.
pub proof fn lemma_subst_removes_bound(m: ExprModel, pm: Seq<(Seq<char>, ExprModel)>, name: Seq<char>)
    requires
        param_lookup(pm, name) is Some,
        forall|j: int| 0 <= j < pm.len() ==> !mentions(#[trigger] pm[j].1, name),
    ensures
        !mentions(subst(m, pm), name),
    decreases m, 0nat,
{
    match m.kind {
        KindModel::Var(n) => {
            lemma_lookup_avoids(pm, n, name);
        },
        KindModel::Lit(_) => {},
        KindModel::Bin(_, l, r) => {
            lemma_subst_removes_bound(*l, pm, name);
            lemma_subst_removes_bound(*r, pm, name);
        },
        KindModel::Un(_, x) => { lemma_subst_removes_bound(*x, pm, name); },
        KindModel::Field(x, _) => { lemma_subst_removes_bound(*x, pm, name); },
        KindModel::StructLit(_, fs) => { lemma_subst_fields_removes_bound(fs, pm, name, 0); },
        KindModel::Call(_, _, args) => { lemma_subst_list_removes_bound(args, pm, name, 0); },
        KindModel::Method(x, _, _, args) => {
            lemma_subst_removes_bound(*x, pm, name);
            lemma_subst_list_removes_bound(args, pm, name, 0);
        },
        KindModel::Array(xs) => { lemma_subst_list_removes_bound(xs, pm, name, 0); },
    }
}

/// [`lemma_subst_removes_bound`] on a list of expressions.
pub proof fn lemma_subst_list_removes_bound(xs: Seq<ExprModel>, pm: Seq<(Seq<char>, ExprModel)>, name: Seq<char>, i: int)
    requires
        param_lookup(pm, name) is Some,
        forall|j: int| 0 <= j < pm.len() ==> !mentions(#[trigger] pm[j].1, name),
    ensures
        !mentions_list(subst_list(xs, pm, i), name, 0),
    decreases xs, xs.len() - i,
{
    if 0 <= i < xs.len() {
        lemma_subst_removes_bound(xs[i], pm, name);
        lemma_subst_list_removes_bound(xs, pm, name, i + 1);
        let rest = subst_list(xs, pm, i + 1);
        let all = subst_list(xs, pm, i);
        assert(all == seq![subst(xs[i], pm)] + rest);
        lemma_mentions_list_shift(seq![subst(xs[i], pm)], rest, name, 0);
    }
}

proof fn lemma_mentions_list_shift(a: Seq<ExprModel>, b: Seq<ExprModel>, name: Seq<char>, k: int)
    requires
        a.len() == 1,
        0 <= k <= b.len(),
    ensures
        mentions_list(a + b, name, k + 1) == mentions_list(b, name, k),
    decreases b.len() - k,
{
    if k < b.len() {
        assert((a + b)[k + 1] == b[k]);
        lemma_mentions_list_shift(a, b, name, k + 1);
    }
}

proof fn lemma_mentions_fields_shift(a: Seq<FieldModel>, b: Seq<FieldModel>, name: Seq<char>, k: int)
    requires
        a.len() == 1,
        0 <= k <= b.len(),
    ensures
        mentions_fields(a + b, name, k + 1) == mentions_fields(b, name, k),
    decreases b.len() - k,
{
    if k < b.len() {
        assert((a + b)[k + 1] == b[k]);
        lemma_mentions_fields_shift(a, b, name, k + 1);
    }
}

/// [`lemma_subst_removes_bound`] on the values of struct literal fields.
pub proof fn lemma_subst_fields_removes_bound(fs: Seq<FieldModel>, pm: Seq<(Seq<char>, ExprModel)>, name: Seq<char>, i: int)
    requires
        param_lookup(pm, name) is Some,
        forall|j: int| 0 <= j < pm.len() ==> !mentions(#[trigger] pm[j].1, name),
    ensures
        !mentions_fields(subst_fields(fs, pm, i), name, 0),
    decreases fs, fs.len() - i,
{
    if 0 <= i < fs.len() {
        lemma_subst_removes_bound(fs[i].value, pm, name);
        lemma_subst_fields_removes_bound(fs, pm, name, i + 1);
        let head = seq![FieldModel { value: subst(fs[i].value, pm), ..fs[i] }];
        let rest = subst_fields(fs, pm, i + 1);
        assert(subst_fields(fs, pm, i) == head + rest);
        lemma_mentions_fields_shift(head, rest, name, 0);
    }
}

/// Substitution keeps every variable that `pm` does not bind: a variable `x` that
/// occurs in `m` and is bound to nothing still occurs in the result.
pub proof fn lemma_subst_keeps_unbound(m: ExprModel, pm: Seq<(Seq<char>, ExprModel)>, x: Seq<char>)
    requires
        param_lookup(pm, x) is None,
        mentions(m, x),
    ensures
        mentions(subst(m, pm), x),
    decreases m, 0nat,
{
    match m.kind {
        KindModel::Var(n) => {},
        KindModel::Lit(_) => {},
        KindModel::Bin(_, l, r) => {
            if mentions(*l, x) { lemma_subst_keeps_unbound(*l, pm, x); } else { lemma_subst_keeps_unbound(*r, pm, x); }
        },
        KindModel::Un(_, y) => { lemma_subst_keeps_unbound(*y, pm, x); },
        KindModel::Field(y, _) => { lemma_subst_keeps_unbound(*y, pm, x); },
        KindModel::StructLit(_, fs) => { lemma_subst_fields_keeps_unbound(fs, pm, x, 0); },
        KindModel::Call(_, _, args) => { lemma_subst_list_keeps_unbound(args, pm, x, 0); },
        KindModel::Method(y, _, _, args) => {
            if mentions(*y, x) { lemma_subst_keeps_unbound(*y, pm, x); } else { lemma_subst_list_keeps_unbound(args, pm, x, 0); }
        },
        KindModel::Array(xs) => { lemma_subst_list_keeps_unbound(xs, pm, x, 0); },
    }
}

/// [`lemma_subst_keeps_unbound`] on a list of expressions.
pub proof fn lemma_subst_list_keeps_unbound(xs: Seq<ExprModel>, pm: Seq<(Seq<char>, ExprModel)>, x: Seq<char>, i: int)
    requires
        param_lookup(pm, x) is None,
        0 <= i,
        mentions_list(xs, x, i),
    ensures
        mentions_list(subst_list(xs, pm, i), x, 0),
    decreases xs, xs.len() - i,
{
    if 0 <= i < xs.len() {
        let rest = subst_list(xs, pm, i + 1);
        let head = seq![subst(xs[i], pm)];
        assert(subst_list(xs, pm, i) == head + rest);
        lemma_mentions_list_shift(head, rest, x, 0);
        if mentions(xs[i], x) {
            lemma_subst_keeps_unbound(xs[i], pm, x);
            assert((head + rest)[0] == subst(xs[i], pm));
        } else {
            lemma_subst_list_keeps_unbound(xs, pm, x, i + 1);
        }
    }
}

/// [`lemma_subst_keeps_unbound`] on the values of struct literal fields.
pub proof fn lemma_subst_fields_keeps_unbound(fs: Seq<FieldModel>, pm: Seq<(Seq<char>, ExprModel)>, x: Seq<char>, i: int)
    requires
        param_lookup(pm, x) is None,
        0 <= i,
        mentions_fields(fs, x, i),
    ensures
        mentions_fields(subst_fields(fs, pm, i), x, 0),
    decreases fs, fs.len() - i,
{
    if 0 <= i < fs.len() {
        let head = seq![FieldModel { value: subst(fs[i].value, pm), ..fs[i] }];
        let rest = subst_fields(fs, pm, i + 1);
        assert(subst_fields(fs, pm, i) == head + rest);
        lemma_mentions_fields_shift(head, rest, x, 0);
        if mentions(fs[i].value, x) {
            lemma_subst_keeps_unbound(fs[i].value, pm, x);
            assert((head + rest)[0] == head[0]);
        } else {
            lemma_subst_fields_keeps_unbound(fs, pm, x, i + 1);
        }
    }
}

/// Parameters bound to arguments, pairwise; extra parameters or arguments are dropped.
pub open spec fn zip_params(names: Seq<Seq<char>>, args: Seq<ExprModel>) -> Seq<(Seq<char>, ExprModel)> {
    let n = if names.len() <= args.len() { names.len() } else { args.len() };
    Seq::new(n, |i: int| (names[i], args[i]))
}

// ============================================================================
// Inlining expressions
// ============================================================================

/// The key of a function: `Struct::method` for a method, else its name.
pub open spec fn qualified_key(parent_struct: Option<Seq<char>>, name: Seq<char>) -> Seq<char> {
    match parent_struct {
        Some(p) => p + "::"@ + name,
        None => name,
    }
}

/// The return expression registered under `key`.
pub open spec fn fn_lookup(fm: Seq<(Seq<char>, ExprModel)>, key: Seq<char>) -> Option<ExprModel>
    decreases fm.len(),
{
    if fm.len() == 0 {
        None
    } else if fm[0].0 == key {
        Some(fm[0].1)
    } else {
        fn_lookup(fm.drop_first(), key)
    }
}

/// The functions after registering `ret` under `key`: an entry of that key is
/// replaced, else one is added.
pub open spec fn fn_insert(fm: Seq<(Seq<char>, ExprModel)>, key: Seq<char>, ret: ExprModel) -> Seq<(Seq<char>, ExprModel)>
    decreases fm.len(),
{
    if fm.len() == 0 {
        seq![(key, ret)]
    } else if fm[0].0 == key {
        fm.update(0, (key, ret))
    } else {
        seq![fm[0]] + fn_insert(fm.drop_first(), key, ret)
    }
}

/// The refusal of a call to `name` while the functions `stack` are being inlined.
pub open spec fn recursion_error(stack: Seq<Seq<char>>, name: Seq<char>, span: Span) -> InlinerErrorModel {
    InlinerErrorModel::RecursiveCall { function_name: name, call_chain: stack.push(name), span }
}

/// The number of entries of `fm` whose key is not on `stack`: a bound on how many
/// more calls can be entered.
pub open spec fn unvisited(fm: Seq<(Seq<char>, ExprModel)>, stack: Seq<Seq<char>>) -> nat
    decreases fm.len(),
{
    if fm.len() == 0 {
        0
    } else {
        (if stack.contains(fm[0].0) { 0nat } else { 1nat }) + unvisited(fm.drop_first(), stack)
    }
}

pub proof fn lemma_unvisited_push_le(fm: Seq<(Seq<char>, ExprModel)>, stack: Seq<Seq<char>>, x: Seq<char>)
    ensures
        unvisited(fm, stack.push(x)) <= unvisited(fm, stack),
    decreases fm.len(),
{
    if fm.len() > 0 {
        lemma_unvisited_push_le(fm.drop_first(), stack, x);
        if stack.contains(fm[0].0) {
            let k = choose|k: int| 0 <= k < stack.len() && stack[k] == fm[0].0;
            assert(stack.push(x)[k] == fm[0].0);
        }
    }
}

/// Entering a call of a known function that is not in progress leaves fewer calls to enter.
pub proof fn lemma_unvisited_push(fm: Seq<(Seq<char>, ExprModel)>, stack: Seq<Seq<char>>, x: Seq<char>)
    requires
        fn_lookup(fm, x) is Some,
        !stack.contains(x),
    ensures
        unvisited(fm, stack.push(x)) < unvisited(fm, stack),
    decreases fm.len(),
{
    assert(stack.push(x)[stack.len() as int] == x);
    if fm[0].0 == x {
        lemma_unvisited_push_le(fm.drop_first(), stack, x);
    } else {
        lemma_unvisited_push(fm.drop_first(), stack, x);
        if stack.push(x).contains(fm[0].0) {
            let k = choose|k: int| 0 <= k < stack.push(x).len() && stack.push(x)[k] == fm[0].0;
            assert(k < stack.len());
            assert(stack[k] == fm[0].0);
        }
        if stack.contains(fm[0].0) {
            let k = choose|k: int| 0 <= k < stack.len() && stack[k] == fm[0].0;
            assert(stack.push(x)[k] == fm[0].0);
        }
    }
}

/// `m` with its calls inlined, given the functions `fm`, while the functions `stack`
/// are being inlined; or the first refusal. The arguments (and the receiver) of a call
/// are inlined first, under the same calls in progress; a call of a function in
/// progress is then refused as recursive, and otherwise the function's return
/// expression, with its parameters bound to the inlined arguments, is inlined in turn
/// with the function added to the calls in progress. A method is known in progress by
/// its key `Struct::method`.
pub open spec fn inline_model(fm: Seq<(Seq<char>, ExprModel)>, stack: Seq<Seq<char>>, m: ExprModel) -> Result<ExprModel, InlinerErrorModel>
    decreases unvisited(fm, stack), m, 0nat,
{
    match m.kind {
        KindModel::Call(name, c, args) => match inline_list(fm, stack, args, 0) {
            Err(e) => Err(e),
            Ok(args2) => if stack.contains(name) {
                Err(recursion_error(stack, name, m.span))
            } else {
                match fn_lookup(fm, name) {
                    None => Err(InlinerErrorModel::NoReturnStatement { function_name: name, span: m.span }),
                    Some(ret) => {
                        proof {
                            lemma_unvisited_push(fm, stack, name);
                        }
                        inline_model(fm, stack.push(name), subst(ret, zip_params(c.param_names, args2)))
                    },
                }
            },
        },
        KindModel::Method(recv, name, c, args) => match inline_model(fm, stack, *recv) {
            Err(e) => Err(e),
            Ok(recv2) => match inline_list(fm, stack, args, 0) {
                Err(e) => Err(e),
                Ok(args2) => {
                    let key = qualified_key(c.parent_struct, c.name);
                    if stack.contains(key) {
                        Err(recursion_error(stack, key, m.span))
                    } else {
                        match fn_lookup(fm, key) {
                            None => Err(InlinerErrorModel::NoReturnStatement { function_name: name, span: m.span }),
                            Some(ret) => {
                                proof {
                                    lemma_unvisited_push(fm, stack, key);
                                }
                                inline_model(fm, stack.push(key), subst(ret, seq![("self"@, recv2)] + zip_params(c.param_names, args2)))
                            },
                        }
                    }
                },
            },
        },
        KindModel::Lit(_) | KindModel::Var(_) => Ok(m),
        KindModel::Bin(op, l, r) => match inline_model(fm, stack, *l) {
            Err(e) => Err(e),
            Ok(l2) => match inline_model(fm, stack, *r) {
                Err(e) => Err(e),
                Ok(r2) => Ok(ExprModel { span: m.span, ty: m.ty, kind: KindModel::Bin(op, Box::new(l2), Box::new(r2)) }),
            },
        },
        KindModel::Un(op, x) => match inline_model(fm, stack, *x) {
            Err(e) => Err(e),
            Ok(x2) => Ok(ExprModel { span: m.span, ty: m.ty, kind: KindModel::Un(op, Box::new(x2)) }),
        },
        KindModel::Field(x, f) => match inline_model(fm, stack, *x) {
            Err(e) => Err(e),
            Ok(x2) => Ok(ExprModel { span: m.span, ty: m.ty, kind: KindModel::Field(Box::new(x2), f) }),
        },
        KindModel::StructLit(n, fs) => match inline_fields(fm, stack, fs, 0) {
            Err(e) => Err(e),
            Ok(fs2) => Ok(ExprModel { span: m.span, ty: m.ty, kind: KindModel::StructLit(n, fs2) }),
        },
        KindModel::Array(xs) => match inline_list(fm, stack, xs, 0) {
            Err(e) => Err(e),
            Ok(xs2) => Ok(ExprModel { span: m.span, ty: m.ty, kind: KindModel::Array(xs2) }),
        },
    }
}

/// [`inline_model`] on each of `xs[i..]`, in order, stopping at the first refusal.
pub open spec fn inline_list(fm: Seq<(Seq<char>, ExprModel)>, stack: Seq<Seq<char>>, xs: Seq<ExprModel>, i: int) -> Result<Seq<ExprModel>, InlinerErrorModel>
    decreases unvisited(fm, stack), xs, xs.len() - i,
{
    if i < 0 || i >= xs.len() {
        Ok(Seq::empty())
    } else {
        match inline_model(fm, stack, xs[i]) {
            Err(e) => Err(e),
            Ok(x) => match inline_list(fm, stack, xs, i + 1) {
                Err(e) => Err(e),
                Ok(rest) => Ok(seq![x] + rest),
            },
        }
    }
}

/// [`inline_model`] on the values of the fields `fs[i..]`, in order.
pub open spec fn inline_fields(fm: Seq<(Seq<char>, ExprModel)>, stack: Seq<Seq<char>>, fs: Seq<FieldModel>, i: int) -> Result<Seq<FieldModel>, InlinerErrorModel>
    decreases unvisited(fm, stack), fs, fs.len() - i,
{
    if i < 0 || i >= fs.len() {
        Ok(Seq::empty())
    } else {
        match inline_model(fm, stack, fs[i].value) {
            Err(e) => Err(e),
            Ok(v) => match inline_fields(fm, stack, fs, i + 1) {
                Err(e) => Err(e),
                Ok(rest) => Ok(seq![FieldModel { value: v, ..fs[i] }] + rest),
            },
        }
    }
}

// ============================================================================
// Substitution (executable)
// ============================================================================

/// The parameter bindings of a substitution.
pub open spec fn params_model(pm: Seq<(String, ResolvedExpr)>) -> Seq<(Seq<char>, ExprModel)> {
    pm.map_values(|p: (String, ResolvedExpr)| (p.0@, expr_model(p.1)))
}

/// The argument bound to `name`: the last binding of that name.
fn lookup_param<'a>(pm: &'a Vec<(String, ResolvedExpr)>, name: &String) -> (r: Option<&'a ResolvedExpr>)
    ensures
        match param_lookup(params_model(pm@), name@) {
            Some(a) => r matches Some(x) && expr_model(*x) == a,
            None => r is None,
        },
{
    let ghost model = params_model(pm@);
    let mut i: usize = pm.len();
    assert(model.take(model.len() as int) =~= model);
    while i > 0
        invariant
            i <= pm@.len(),
            model == params_model(pm@),
            param_lookup(model, name@) == param_lookup(model.take(i as int), name@),
        decreases i,
    {
        let ghost t = model.take(i as int);
        assert(t.last() == model[i - 1]);
        assert(t.drop_last() =~= model.take(i - 1));
        if pm[i - 1].0 == *name {
            return Some(&pm[i - 1].1);
        }
        i = i - 1;
    }
    None
}

/// `expr` with every variable bound in `param_map` replaced by its argument.
fn substitute_parameters_impl(expr: &ResolvedExpr, param_map: &Vec<(String, ResolvedExpr)>) -> (r: ResolvedExpr)
    ensures
        expr_model(r) == subst(expr_model(*expr), params_model(param_map@)),
    decreases expr,
{
    let ty = copy_type(&expr.ty);
    let kind = match &expr.kind {
        ResolvedExprKind::Var { name } => {
            return match lookup_param(param_map, name) {
                Some(a) => copy_expr(a),
                None => copy_expr(expr),
            };
        },
        ResolvedExprKind::IntLit { .. } | ResolvedExprKind::FloatLit { .. } | ResolvedExprKind::BoolLit { .. } => {
            return copy_expr(expr);
        },
        ResolvedExprKind::Index { array, index } => ResolvedExprKind::Index {
            array: Box::new(substitute_parameters_impl(array, param_map)),
            index: Box::new(substitute_parameters_impl(index, param_map)),
        },
        ResolvedExprKind::Add { lhs, rhs } => ResolvedExprKind::Add {
            lhs: Box::new(substitute_parameters_impl(lhs, param_map)),
            rhs: Box::new(substitute_parameters_impl(rhs, param_map)),
        },
        ResolvedExprKind::Sub { lhs, rhs } => ResolvedExprKind::Sub {
            lhs: Box::new(substitute_parameters_impl(lhs, param_map)),
            rhs: Box::new(substitute_parameters_impl(rhs, param_map)),
        },
        ResolvedExprKind::Mul { lhs, rhs } => ResolvedExprKind::Mul {
            lhs: Box::new(substitute_parameters_impl(lhs, param_map)),
            rhs: Box::new(substitute_parameters_impl(rhs, param_map)),
        },
        ResolvedExprKind::Div { lhs, rhs } => ResolvedExprKind::Div {
            lhs: Box::new(substitute_parameters_impl(lhs, param_map)),
            rhs: Box::new(substitute_parameters_impl(rhs, param_map)),
        },
        ResolvedExprKind::Mod { lhs, rhs } => ResolvedExprKind::Mod {
            lhs: Box::new(substitute_parameters_impl(lhs, param_map)),
            rhs: Box::new(substitute_parameters_impl(rhs, param_map)),
        },
        ResolvedExprKind::Pow { lhs, rhs } => ResolvedExprKind::Pow {
            lhs: Box::new(substitute_parameters_impl(lhs, param_map)),
            rhs: Box::new(substitute_parameters_impl(rhs, param_map)),
        },
        ResolvedExprKind::Eq { lhs, rhs } => ResolvedExprKind::Eq {
            lhs: Box::new(substitute_parameters_impl(lhs, param_map)),
            rhs: Box::new(substitute_parameters_impl(rhs, param_map)),
        },
        ResolvedExprKind::NotEq { lhs, rhs } => ResolvedExprKind::NotEq {
            lhs: Box::new(substitute_parameters_impl(lhs, param_map)),
            rhs: Box::new(substitute_parameters_impl(rhs, param_map)),
        },
        ResolvedExprKind::Lt { lhs, rhs } => ResolvedExprKind::Lt {
            lhs: Box::new(substitute_parameters_impl(lhs, param_map)),
            rhs: Box::new(substitute_parameters_impl(rhs, param_map)),
        },
        ResolvedExprKind::Gt { lhs, rhs } => ResolvedExprKind::Gt {
            lhs: Box::new(substitute_parameters_impl(lhs, param_map)),
            rhs: Box::new(substitute_parameters_impl(rhs, param_map)),
        },
        ResolvedExprKind::LtEq { lhs, rhs } => ResolvedExprKind::LtEq {
            lhs: Box::new(substitute_parameters_impl(lhs, param_map)),
            rhs: Box::new(substitute_parameters_impl(rhs, param_map)),
        },
        ResolvedExprKind::GtEq { lhs, rhs } => ResolvedExprKind::GtEq {
            lhs: Box::new(substitute_parameters_impl(lhs, param_map)),
            rhs: Box::new(substitute_parameters_impl(rhs, param_map)),
        },
        ResolvedExprKind::And { lhs, rhs } => ResolvedExprKind::And {
            lhs: Box::new(substitute_parameters_impl(lhs, param_map)),
            rhs: Box::new(substitute_parameters_impl(rhs, param_map)),
        },
        ResolvedExprKind::Or { lhs, rhs } => ResolvedExprKind::Or {
            lhs: Box::new(substitute_parameters_impl(lhs, param_map)),
            rhs: Box::new(substitute_parameters_impl(rhs, param_map)),
        },
        ResolvedExprKind::Neg { inner } => ResolvedExprKind::Neg { inner: Box::new(substitute_parameters_impl(inner, param_map)) },
        ResolvedExprKind::Ref { inner } => ResolvedExprKind::Ref { inner: Box::new(substitute_parameters_impl(inner, param_map)) },
        ResolvedExprKind::Deref { inner } => ResolvedExprKind::Deref { inner: Box::new(substitute_parameters_impl(inner, param_map)) },
        ResolvedExprKind::Paren { inner } => ResolvedExprKind::Paren { inner: Box::new(substitute_parameters_impl(inner, param_map)) },
        ResolvedExprKind::FieldAccess { receiver, field_name } => ResolvedExprKind::FieldAccess {
            receiver: Box::new(substitute_parameters_impl(receiver, param_map)),
            field_name: field_name.clone(),
        },
        ResolvedExprKind::StructLit { name, fields } =>
            ResolvedExprKind::StructLit { name: name.clone(), fields: substitute_fields(fields, param_map) },
        ResolvedExprKind::FunctionCall { name, callee, args } => ResolvedExprKind::FunctionCall {
            name: name.clone(),
            callee: copy_callee(callee),
            args: substitute_list(args, param_map),
        },
        ResolvedExprKind::MethodCall { receiver, method_name, callee, args } => ResolvedExprKind::MethodCall {
            receiver: Box::new(substitute_parameters_impl(receiver, param_map)),
            method_name: method_name.clone(),
            callee: copy_callee(callee),
            args: substitute_list(args, param_map),
        },
        ResolvedExprKind::ArrayLit { elements } =>
            ResolvedExprKind::ArrayLit { elements: substitute_list(elements, param_map) },
    };
    ResolvedExpr { span: expr.span, kind, ty }
}

/// [`substitute_parameters_impl`] on each expression of `xs`.
fn substitute_list(xs: &Vec<ResolvedExpr>, param_map: &Vec<(String, ResolvedExpr)>) -> (r: Vec<ResolvedExpr>)
    ensures
        exprs_model(r@, 0) == subst_list(exprs_model(xs@, 0), params_model(param_map@), 0),
    decreases xs@,
{
    let ghost pm = params_model(param_map@);
    let ghost big = exprs_model(xs@, 0);
    proof {
        lemma_exprs_model_shape(xs@, 0);
    }
    let mut r: Vec<ResolvedExpr> = Vec::new();
    let mut i: usize = 0;
    while i < xs.len()
        invariant
            i <= xs@.len(),
            pm == params_model(param_map@),
            big == exprs_model(xs@, 0),
            big.len() == xs@.len(),
            forall|k: int| 0 <= k < xs@.len() ==> #[trigger] big[k] == expr_model(xs@[k]),
            r@.len() == i,
            forall|k: int| 0 <= k < i ==> #[trigger] expr_model(r@[k]) == subst(big[k], pm),
        decreases xs.len() - i,
    {
        assert(decreases_to!(xs@ => xs@[i as int]));
        r.push(substitute_parameters_impl(&xs[i], param_map));
        i = i + 1;
    }
    proof {
        lemma_exprs_model_shape(r@, 0);
        lemma_subst_list_shape(big, pm, 0);
        assert(exprs_model(r@, 0) =~= subst_list(big, pm, 0));
    }
    r
}

/// [`substitute_parameters_impl`] on the value of each field of `fs`.
fn substitute_fields(fs: &Vec<ResolvedStructLitField>, param_map: &Vec<(String, ResolvedExpr)>) -> (r: Vec<ResolvedStructLitField>)
    ensures
        fields_model(r@, 0) == subst_fields(fields_model(fs@, 0), params_model(param_map@), 0),
    decreases fs@,
{
    let ghost pm = params_model(param_map@);
    let ghost big = fields_model(fs@, 0);
    proof {
        lemma_fields_model_shape(fs@, 0);
    }
    let mut r: Vec<ResolvedStructLitField> = Vec::new();
    let mut i: usize = 0;
    while i < fs.len()
        invariant
            i <= fs@.len(),
            pm == params_model(param_map@),
            big == fields_model(fs@, 0),
            big.len() == fs@.len(),
            forall|k: int| 0 <= k < fs@.len() ==> #[trigger] big[k] == field_model(fs@[k]),
            r@.len() == i,
            forall|k: int| 0 <= k < i ==> #[trigger] field_model(r@[k]) == (FieldModel { value: subst(big[k].value, pm), ..big[k] }),
        decreases fs.len() - i,
    {
        assert(decreases_to!(fs@ => fs@[i as int]));
        let f = match &fs[i] {
            ResolvedStructLitField::Field { name, value, span } => ResolvedStructLitField::Field {
                name: name.clone(),
                value: substitute_parameters_impl(value, param_map),
                span: *span,
            },
            ResolvedStructLitField::ComputedProperty { name, value, span } => ResolvedStructLitField::ComputedProperty {
                name: name.clone(),
                value: substitute_parameters_impl(value, param_map),
                span: *span,
            },
        };
        r.push(f);
        i = i + 1;
    }
    proof {
        lemma_fields_model_shape(r@, 0);
        lemma_subst_fields_shape(big, pm, 0);
        assert(fields_model(r@, 0) =~= subst_fields(big, pm, 0));
    }
    r
}

/// [`subst_list`] element by element.
pub proof fn lemma_subst_list_shape(xs: Seq<ExprModel>, pm: Seq<(Seq<char>, ExprModel)>, i: int)
    requires
        0 <= i <= xs.len(),
    ensures
        subst_list(xs, pm, i).len() == xs.len() - i,
        forall|k: int| 0 <= k < xs.len() - i ==> #[trigger] subst_list(xs, pm, i)[k] == subst(xs[i + k], pm),
    decreases xs.len() - i,
{
    if i < xs.len() {
        lemma_subst_list_shape(xs, pm, i + 1);
        assert forall|k: int| 0 <= k < xs.len() - i implies #[trigger] subst_list(xs, pm, i)[k] == subst(xs[i + k], pm) by {
            if k > 0 {
                assert(subst_list(xs, pm, i)[k] == subst_list(xs, pm, i + 1)[k - 1]);
            }
        }
    }
}

/// [`subst_fields`] field by field.
pub proof fn lemma_subst_fields_shape(fs: Seq<FieldModel>, pm: Seq<(Seq<char>, ExprModel)>, i: int)
    requires
        0 <= i <= fs.len(),
    ensures
        subst_fields(fs, pm, i).len() == fs.len() - i,
        forall|k: int| 0 <= k < fs.len() - i ==>
            #[trigger] subst_fields(fs, pm, i)[k] == (FieldModel { value: subst(fs[i + k].value, pm), ..fs[i + k] }),
    decreases fs.len() - i,
{
    if i < fs.len() {
        lemma_subst_fields_shape(fs, pm, i + 1);
        assert forall|k: int| 0 <= k < fs.len() - i implies
            #[trigger] subst_fields(fs, pm, i)[k] == (FieldModel { value: subst(fs[i + k].value, pm), ..fs[i + k] }) by {
            if k > 0 {
                assert(subst_fields(fs, pm, i)[k] == subst_fields(fs, pm, i + 1)[k - 1]);
            }
        }
    }
}

/// Substituting no parameters leaves an expression as it is.
pub proof fn lemma_subst_nothing(m: ExprModel)
    ensures
        subst(m, Seq::empty()) == m,
    decreases m, 0nat,
{
    match m.kind {
        KindModel::Bin(op, l, r) => {
            lemma_subst_nothing(*l);
            lemma_subst_nothing(*r);
        },
        KindModel::Un(op, x) => {
            lemma_subst_nothing(*x);
        },
        KindModel::Field(x, f) => {
            lemma_subst_nothing(*x);
        },
        KindModel::StructLit(n, fs) => {
            lemma_subst_fields_nothing(fs, 0);
            assert(fs.subrange(0, fs.len() as int) =~= fs);
        },
        KindModel::Call(n, c, args) => {
            lemma_subst_list_nothing(args, 0);
            assert(args.subrange(0, args.len() as int) =~= args);
        },
        KindModel::Method(x, n, c, args) => {
            lemma_subst_nothing(*x);
            lemma_subst_list_nothing(args, 0);
            assert(args.subrange(0, args.len() as int) =~= args);
        },
        KindModel::Array(xs) => {
            lemma_subst_list_nothing(xs, 0);
            assert(xs.subrange(0, xs.len() as int) =~= xs);
        },
        _ => {},
    }
}

proof fn lemma_subst_list_nothing(xs: Seq<ExprModel>, i: int)
    requires
        0 <= i <= xs.len(),
    ensures
        subst_list(xs, Seq::empty(), i) == xs.subrange(i, xs.len() as int),
    decreases xs, xs.len() - i,
{
    if i < xs.len() {
        lemma_subst_nothing(xs[i]);
        lemma_subst_list_nothing(xs, i + 1);
        assert(seq![xs[i]] + xs.subrange(i + 1, xs.len() as int) =~= xs.subrange(i, xs.len() as int));
    } else {
        assert(xs.subrange(i, xs.len() as int) =~= Seq::<ExprModel>::empty());
    }
}

proof fn lemma_subst_fields_nothing(fs: Seq<FieldModel>, i: int)
    requires
        0 <= i <= fs.len(),
    ensures
        subst_fields(fs, Seq::empty(), i) == fs.subrange(i, fs.len() as int),
    decreases fs, fs.len() - i,
{
    if i < fs.len() {
        lemma_subst_nothing(fs[i].value);
        lemma_subst_fields_nothing(fs, i + 1);
        assert(FieldModel { value: subst(fs[i].value, Seq::empty()), ..fs[i] } == fs[i]);
        assert(seq![fs[i]] + fs.subrange(i + 1, fs.len() as int) =~= fs.subrange(i, fs.len() as int));
    } else {
        assert(fs.subrange(i, fs.len() as int) =~= Seq::<FieldModel>::empty());
    }
}

/// The expression calls no function or method, at any depth.
pub open spec fn call_free(m: ExprModel) -> bool
    decreases m, 0nat,
{
    match m.kind {
        KindModel::Call(..) | KindModel::Method(..) => false,
        KindModel::Lit(_) | KindModel::Var(_) => true,
        KindModel::Bin(_, l, r) => call_free(*l) && call_free(*r),
        KindModel::Un(_, x) => call_free(*x),
        KindModel::Field(x, _) => call_free(*x),
        KindModel::StructLit(_, fs) => call_free_fields(fs, 0),
        KindModel::Array(xs) => call_free_list(xs, 0),
    }
}

/// [`call_free`] for each of `xs[i..]`.
pub open spec fn call_free_list(xs: Seq<ExprModel>, i: int) -> bool
    decreases xs, xs.len() - i,
{
    if i < 0 || i >= xs.len() {
        true
    } else {
        call_free(xs[i]) && call_free_list(xs, i + 1)
    }
}

/// [`call_free`] for the values of the fields `fs[i..]`.
pub open spec fn call_free_fields(fs: Seq<FieldModel>, i: int) -> bool
    decreases fs, fs.len() - i,
{
    if i < 0 || i >= fs.len() {
        true
    } else {
        call_free(fs[i].value) && call_free_fields(fs, i + 1)
    }
}

/// Inlining leaves an expression that calls nothing exactly as it is, whatever the
/// functions known and the calls in progress.
pub proof fn lemma_inline_call_free(fm: Seq<(Seq<char>, ExprModel)>, stack: Seq<Seq<char>>, m: ExprModel)
    requires
        call_free(m),
    ensures
        inline_model(fm, stack, m) == Ok::<ExprModel, InlinerErrorModel>(m),
    decreases m, 0nat,
{
    match m.kind {
        KindModel::Bin(op, l, r) => {
            lemma_inline_call_free(fm, stack, *l);
            lemma_inline_call_free(fm, stack, *r);
        },
        KindModel::Un(op, x) => {
            lemma_inline_call_free(fm, stack, *x);
        },
        KindModel::Field(x, f) => {
            lemma_inline_call_free(fm, stack, *x);
        },
        KindModel::StructLit(n, fs) => {
            lemma_inline_fields_call_free(fm, stack, fs, 0);
            assert(fs.subrange(0, fs.len() as int) =~= fs);
        },
        KindModel::Array(xs) => {
            lemma_inline_list_call_free(fm, stack, xs, 0);
            assert(xs.subrange(0, xs.len() as int) =~= xs);
        },
        _ => {},
    }
}

proof fn lemma_inline_list_call_free(fm: Seq<(Seq<char>, ExprModel)>, stack: Seq<Seq<char>>, xs: Seq<ExprModel>, i: int)
    requires
        0 <= i <= xs.len(),
        call_free_list(xs, i),
    ensures
        inline_list(fm, stack, xs, i) == Ok::<Seq<ExprModel>, InlinerErrorModel>(xs.subrange(i, xs.len() as int)),
    decreases xs, xs.len() - i,
{
    if i < xs.len() {
        lemma_inline_call_free(fm, stack, xs[i]);
        lemma_inline_list_call_free(fm, stack, xs, i + 1);
        assert(seq![xs[i]] + xs.subrange(i + 1, xs.len() as int) =~= xs.subrange(i, xs.len() as int));
    } else {
        assert(xs.subrange(i, xs.len() as int) =~= Seq::<ExprModel>::empty());
    }
}

proof fn lemma_inline_fields_call_free(fm: Seq<(Seq<char>, ExprModel)>, stack: Seq<Seq<char>>, fs: Seq<FieldModel>, i: int)
    requires
        0 <= i <= fs.len(),
        call_free_fields(fs, i),
    ensures
        inline_fields(fm, stack, fs, i) == Ok::<Seq<FieldModel>, InlinerErrorModel>(fs.subrange(i, fs.len() as int)),
    decreases fs, fs.len() - i,
{
    if i < fs.len() {
        lemma_inline_call_free(fm, stack, fs[i].value);
        lemma_inline_fields_call_free(fm, stack, fs, i + 1);
        assert(FieldModel { value: fs[i].value, ..fs[i] } == fs[i]);
        assert(seq![fs[i]] + fs.subrange(i + 1, fs.len() as int) =~= fs.subrange(i, fs.len() as int));
    } else {
        assert(fs.subrange(i, fs.len() as int) =~= Seq::<FieldModel>::empty());
    }
}

/// `expr` with every variable bound in `param_map` replaced by a copy of its argument
/// (the last binding of a name counts).
pub fn substitute_parameters(expr: &ResolvedExpr, param_map: &Vec<(String, ResolvedExpr)>) -> (r: Result<ResolvedExpr, FunctionInlinerError>)
    ensures
        r matches Ok(e) && expr_model(e) == subst(expr_model(*expr), params_model(param_map@)),
{
    Ok(substitute_parameters_impl(expr, param_map))
}

// ============================================================================
// The inliner's context
// ============================================================================

/// A function available for inlining: its return expression.
#[derive(Debug)]
pub struct FunctionInfo {
    pub return_expr: ResolvedExpr,
    pub span: Span,
}

/// The functions available for inlining and the calls being inlined.
pub struct InlinerContext {
    /// Names of the functions being inlined, outermost first.
    pub call_stack: Vec<String>,
    /// Functions by key (`name`, or `Struct::method` for methods); keys are distinct.
    pub function_map: Vec<(String, FunctionInfo)>,
}

/// The functions of the context: keys and return expressions.
pub open spec fn fm_model(v: Seq<(String, FunctionInfo)>) -> Seq<(Seq<char>, ExprModel)> {
    v.map_values(|p: (String, FunctionInfo)| (p.0@, expr_model(p.1.return_expr)))
}

/// The names of a call stack.
pub open spec fn stack_model(v: Seq<String>) -> Seq<Seq<char>> {
    v.map_values(|s: String| s@)
}

/// The key of the function defined by `f`.
pub open spec fn def_key(f: FunctionDefinition) -> Seq<char> {
    qualified_key(match f.parent_struct { Some(p) => Some(p@), None => None }, f.name@)
}

/// `Struct::method` for a method, else the function's name.
pub fn get_qualified_name(func_def: &FunctionDefinition) -> (s: String)
    ensures
        s@ == def_key(*func_def),
{
    match &func_def.parent_struct {
        Some(p) => {
            let mut s = p.clone();
            append_str(&mut s, "::");
            append_str(&mut s, func_def.name.as_str());
            s
        },
        None => func_def.name.clone(),
    }
}

fn callee_key(c: &Callee) -> (s: String)
    ensures
        s@ == qualified_key(callee_model(*c).parent_struct, callee_model(*c).name),
{
    match &c.parent_struct {
        Some(p) => {
            let mut s = p.clone();
            append_str(&mut s, "::");
            append_str(&mut s, c.name.as_str());
            s
        },
        None => c.name.clone(),
    }
}

/// [`fn_lookup`] finds the first entry of the key.
proof fn lemma_fn_lookup_at(fm: Seq<(Seq<char>, ExprModel)>, key: Seq<char>, j: int)
    requires
        0 <= j < fm.len(),
        fm[j].0 == key,
        forall|k: int| 0 <= k < j ==> fm[k].0 != key,
    ensures
        fn_lookup(fm, key) == Some(fm[j].1),
    decreases j,
{
    if j > 0 {
        assert(fm.drop_first()[j - 1] == fm[j]);
        lemma_fn_lookup_at(fm.drop_first(), key, j - 1);
    }
}

/// [`fn_lookup`] finds nothing when no entry has the key.
proof fn lemma_fn_lookup_none(fm: Seq<(Seq<char>, ExprModel)>, key: Seq<char>)
    requires
        forall|k: int| 0 <= k < fm.len() ==> fm[k].0 != key,
    ensures
        fn_lookup(fm, key) is None,
    decreases fm.len(),
{
    if fm.len() > 0 {
        lemma_fn_lookup_none(fm.drop_first(), key);
    }
}

/// Registering a return expression under a key makes the key look up to it and leaves
/// the lookup of every other key as it was.
pub proof fn lemma_fn_insert_lookup(fm: Seq<(Seq<char>, ExprModel)>, key: Seq<char>, ret: ExprModel, other: Seq<char>)
    ensures
        fn_lookup(fn_insert(fm, key, ret), key) == Some(ret),
        other != key ==> fn_lookup(fn_insert(fm, key, ret), other) == fn_lookup(fm, other),
    decreases fm.len(),
{
    let w = fn_insert(fm, key, ret);
    if fm.len() == 0 {
        assert(w[0] == (key, ret));
        assert(w.drop_first() =~= Seq::<(Seq<char>, ExprModel)>::empty());
        assert(fn_lookup(w.drop_first(), other) is None);
    } else if fm[0].0 == key {
        assert(w[0] == (key, ret));
        assert(w.drop_first() =~= fm.drop_first());
    } else {
        let rest = fm.drop_first();
        lemma_fn_insert_lookup(rest, key, ret, other);
        assert(w[0] == fm[0]);
        assert(w.drop_first() =~= fn_insert(rest, key, ret));
    }
}

/// [`fn_insert`] replaces the first entry of the key, or adds one.
proof fn lemma_fn_insert_at(fm: Seq<(Seq<char>, ExprModel)>, key: Seq<char>, ret: ExprModel, j: int)
    requires
        0 <= j <= fm.len(),
        j < fm.len() ==> fm[j].0 == key,
        forall|k: int| 0 <= k < j ==> fm[k].0 != key,
    ensures
        fn_insert(fm, key, ret) == if j < fm.len() { fm.update(j, (key, ret)) } else { fm.push((key, ret)) },
    decreases j,
{
    if fm.len() == 0 {
        assert(fm.push((key, ret)) =~= seq![(key, ret)]);
    } else if j > 0 {
        let rest = fm.drop_first();
        assert forall|k: int| 0 <= k < j - 1 implies rest[k].0 != key by {
            assert(rest[k] == fm[k + 1]);
        }
        lemma_fn_insert_at(rest, key, ret, j - 1);
        if j < fm.len() {
            assert(seq![fm[0]] + rest.update(j - 1, (key, ret)) =~= fm.update(j, (key, ret)));
        } else {
            assert(seq![fm[0]] + rest.push((key, ret)) =~= fm.push((key, ret)));
        }
    }
}

impl InlinerContext {
    /// A context with no function and no call.
    pub fn new() -> (c: InlinerContext)
        ensures
            c.call_stack@.len() == 0,
            c.function_map@.len() == 0,
    {
        InlinerContext { call_stack: Vec::new(), function_map: Vec::new() }
    }

    /// Enters a call of `function_name`; refused when a call of it is being inlined.
    pub fn push_call(&mut self, function_name: &String, span: Span) -> (r: Result<(), FunctionInlinerError>)
        ensures
            final(self).function_map@ == old(self).function_map@,
            stack_model(old(self).call_stack@).contains(function_name@) ==> (r matches Err(e)
                && e@ == recursion_error(stack_model(old(self).call_stack@), function_name@, span)),
            !stack_model(old(self).call_stack@).contains(function_name@) ==> (r is Ok
                && final(self).call_stack@ == old(self).call_stack@.push(*function_name)),
    {
        let ghost st = stack_model(self.call_stack@);
        let mut i: usize = 0;
        while i < self.call_stack.len()
            invariant
                i <= self.call_stack@.len(),
                st == stack_model(self.call_stack@),
                forall|k: int| 0 <= k < i ==> st[k] != function_name@,
            decreases self.call_stack.len() - i,
        {
            assert(st[i as int] == self.call_stack@[i as int]@);
            if self.call_stack[i] == *function_name {
                assert(st.contains(function_name@));
                let mut call_chain: Vec<String> = Vec::new();
                let mut k: usize = 0;
                while k < self.call_stack.len()
                    invariant
                        k <= self.call_stack@.len(),
                        st == stack_model(self.call_stack@),
                        call_chain@.len() == k,
                        stack_model(call_chain@) == st.take(k as int),
                    decreases self.call_stack.len() - k,
                {
                    let ghost before = stack_model(call_chain@);
                    let name = self.call_stack[k].clone();
                    assert(name@ == st[k as int]);
                    call_chain.push(name);
                    assert(stack_model(call_chain@) =~= before.push(st[k as int]));
                    assert(stack_model(call_chain@) =~= st.take(k + 1));
                    k = k + 1;
                }
                assert(st.take(st.len() as int) =~= st);
                let ghost before = stack_model(call_chain@);
                call_chain.push(function_name.clone());
                assert(stack_model(call_chain@) =~= before.push(function_name@));
                assert(stack_model(call_chain@) =~= st.push(function_name@));
                return Err(FunctionInlinerError::RecursiveCall {
                    function_name: function_name.clone(),
                    call_chain,
                    span,
                });
            }
            i = i + 1;
        }
        self.call_stack.push(function_name.clone());
        Ok(())
    }

    /// Leaves the innermost call; with no call in progress nothing changes.
    pub fn pop_call(&mut self)
        ensures
            final(self).function_map@ == old(self).function_map@,
            old(self).call_stack@.len() > 0 ==> final(self).call_stack@ == old(self).call_stack@.drop_last(),
            old(self).call_stack@.len() == 0 ==> final(self).call_stack@ == old(self).call_stack@,
    {
        let _ = self.call_stack.pop();
    }

    /// The function registered under `name`.
    pub fn get_function(&self, name: &String) -> (r: Option<&FunctionInfo>)
        ensures
            match fn_lookup(fm_model(self.function_map@), name@) {
                Some(m) => r matches Some(info) && expr_model(info.return_expr) == m,
                None => r is None,
            },
    {
        let ghost fm = fm_model(self.function_map@);
        let mut i: usize = 0;
        while i < self.function_map.len()
            invariant
                i <= self.function_map@.len(),
                fm == fm_model(self.function_map@),
                forall|k: int| 0 <= k < i ==> fm[k].0 != name@,
            decreases self.function_map.len() - i,
        {
            assert(fm[i as int] == (self.function_map@[i as int].0@, expr_model(self.function_map@[i as int].1.return_expr)));
            if self.function_map[i].0 == *name {
                proof {
                    lemma_fn_lookup_at(fm, name@, i as int);
                }
                return Some(&self.function_map[i].1);
            }
            i = i + 1;
        }
        proof {
            lemma_fn_lookup_none(fm, name@);
        }
        None
    }

    /// The method that `callee` resolves to.
    pub fn get_function_by_def(&self, callee: &Callee) -> (r: Option<&FunctionInfo>)
        ensures
            match fn_lookup(fm_model(self.function_map@), qualified_key(callee_model(*callee).parent_struct, callee_model(*callee).name)) {
                Some(m) => r matches Some(info) && expr_model(info.return_expr) == m,
                None => r is None,
            },
    {
        let key = callee_key(callee);
        self.get_function(&key)
    }

    /// Registers the return expression `return_expr` under `key`, replacing an earlier one.
    pub fn register(&mut self, key: String, return_expr: ResolvedExpr, span: Span)
        ensures
            final(self).call_stack@ == old(self).call_stack@,
            fm_model(final(self).function_map@) == fn_insert(fm_model(old(self).function_map@), key@, expr_model(return_expr)),
    {
        let ghost fm = fm_model(self.function_map@);
        let ghost km = key@;
        let ghost rm = expr_model(return_expr);
        let mut i: usize = 0;
        while i < self.function_map.len()
            invariant
                i <= self.function_map@.len(),
                fm == fm_model(self.function_map@),
                fm == fm_model(old(self).function_map@),
                self.call_stack@ == old(self).call_stack@,
                forall|k: int| 0 <= k < i ==> fm[k].0 != km,
                km == key@,
                rm == expr_model(return_expr),
            decreases self.function_map.len() - i,
        {
            assert(fm[i as int].0 == self.function_map@[i as int].0@);
            if self.function_map[i].0 == key {
                proof {
                    lemma_fn_insert_at(fm, km, rm, i as int);
                }
                let ghost old_map = self.function_map@;
                let _ = self.function_map.remove(i);
                self.function_map.insert(i, (key, FunctionInfo { return_expr, span }));
                assert(self.function_map@ =~= old_map.update(i as int, self.function_map@[i as int]));
                assert(fm_model(self.function_map@) =~= fm.update(i as int, (km, rm)));
                return;
            }
            i = i + 1;
        }
        proof {
            lemma_fn_insert_at(fm, km, rm, fm.len() as int);
        }
        self.function_map.push((key, FunctionInfo { return_expr, span }));
        assert(fm_model(self.function_map@) =~= fm.push((km, rm)));
    }
}

// ============================================================================
// Inlining expressions (executable)
// ============================================================================

/// `r` is what inlining owes for the specified outcome `spec`.
pub open spec fn inlined(spec: Result<ExprModel, InlinerErrorModel>, r: Result<ResolvedExpr, FunctionInlinerError>) -> bool {
    match spec {
        Ok(m) => r matches Ok(e) && expr_model(e) == m,
        Err(x) => r matches Err(e) && e@ == x,
    }
}

/// The binding of `self` to the receiver of a method call.
pub open spec fn self_binding(receiver: Option<ResolvedExpr>) -> Seq<(Seq<char>, ExprModel)> {
    match receiver {
        Some(x) => seq![("self"@, expr_model(x))],
        None => Seq::empty(),
    }
}

/// Binds the parameters `names` to the arguments `args` pairwise, after binding
/// `self` to the receiver of a method call.
fn bind_params(names: &Vec<String>, args: Vec<ResolvedExpr>, receiver: Option<ResolvedExpr>) -> (r: Vec<(String, ResolvedExpr)>)
    ensures
        params_model(r@) == self_binding(receiver) + zip_params(names@.map_values(|s: String| s@), exprs_model(args@, 0)),
{
    let ghost argm = exprs_model(args@, 0);
    let ghost namem = names@.map_values(|s: String| s@);
    proof {
        lemma_exprs_model_shape(args@, 0);
    }
    let mut r: Vec<(String, ResolvedExpr)> = Vec::new();
    let ghost head = self_binding(receiver);
    match receiver {
        Some(x) => {
            r.push((String::from_str("self"), x));
            assert(params_model(r@) =~= head);
        },
        None => {
            assert(params_model(r@) =~= head);
        },
    }
    let n = if names.len() <= args.len() { names.len() } else { args.len() };
    let ghost zipped = zip_params(namem, argm);
    let ghost orig = args@;
    let mut rest = args;
    let mut i: usize = 0;
    while i < n
        invariant
            i <= n,
            n <= names@.len(),
            n <= orig.len(),
            zipped.len() == n,
            zipped == zip_params(namem, argm),
            namem == names@.map_values(|s: String| s@),
            argm == exprs_model(orig, 0),
            argm.len() == orig.len(),
            forall|k: int| 0 <= k < orig.len() ==> #[trigger] argm[k] == expr_model(orig[k]),
            rest@ == orig.skip(i as int),
            params_model(r@) == head + zipped.take(i as int),
        decreases n - i,
    {
        let ghost before = params_model(r@);
        let a = rest.remove(0);
        assert(a == orig[i as int]);
        let name = names[i].clone();
        r.push((name, a));
        proof {
            assert(zipped[i as int] == (namem[i as int], argm[i as int]));
            assert(params_model(r@) =~= before.push((namem[i as int], argm[i as int])));
            assert(zipped.take(i + 1) =~= zipped.take(i as int).push(zipped[i as int]));
            assert(params_model(r@) =~= head + zipped.take(i + 1));
            assert(rest@ =~= orig.skip(i + 1));
        }
        i = i + 1;
    }
    assert(zipped.take(n as int) =~= zipped);
    r
}

/// `expr` with its calls inlined; a call of a function that is being inlined is refused.
#[verifier::rlimit(80)]
#[verifier::spinoff_prover]
fn inline_expression(expr: &ResolvedExpr, context: &mut InlinerContext) -> (r: Result<ResolvedExpr, FunctionInlinerError>)
    ensures
        final(context).function_map@ == old(context).function_map@,
        inlined(inline_model(fm_model(old(context).function_map@), stack_model(old(context).call_stack@), expr_model(*expr)), r),
        r is Ok ==> final(context).call_stack@ == old(context).call_stack@,
    decreases unvisited(fm_model(old(context).function_map@), stack_model(old(context).call_stack@)), expr,
{
    let ghost st = stack_model(context.call_stack@);
    let ghost fm = fm_model(context.function_map@);
    let ty = copy_type(&expr.ty);
    let kind = match &expr.kind {
        ResolvedExprKind::FunctionCall { name, callee, args } => {
            let inlined_args = match inline_exprs(args, context) {
                Ok(v) => v,
                Err(e) => { return Err(e); },
            };
            match context.push_call(name, expr.span) {
                Ok(()) => {},
                Err(e) => { return Err(e); },
            }
            assert(stack_model(context.call_stack@) =~= st.push(name@));
            let body = match context.get_function(name) {
                None => {
                    return Err(FunctionInlinerError::NoReturnStatement { function_name: name.clone(), span: expr.span });
                },
                Some(info) => {
                    let pm = bind_params(&callee.param_names, inlined_args, None);
                    assert(params_model(pm@) =~= zip_params(callee_model(*callee).param_names, exprs_model(inlined_args@, 0)));
                    substitute_parameters_impl(&info.return_expr, &pm)
                },
            };
            proof {
                lemma_unvisited_push(fm, st, name@);
            }
            let inlined = match inline_expression(&body, context) {
                Ok(x) => x,
                Err(e) => { return Err(e); },
            };
            context.pop_call();
            assert(context.call_stack@ =~= old(context).call_stack@);
            return Ok(inlined);
        },
        ResolvedExprKind::MethodCall { receiver, method_name, callee, args } => {
            let recv = match inline_expression(receiver, context) {
                Ok(x) => x,
                Err(e) => { return Err(e); },
            };
            let inlined_args = match inline_exprs(args, context) {
                Ok(v) => v,
                Err(e) => { return Err(e); },
            };
            let key = callee_key(callee);
            match context.push_call(&key, expr.span) {
                Ok(()) => {},
                Err(e) => { return Err(e); },
            }
            assert(stack_model(context.call_stack@) =~= st.push(key@));
            let body = match context.get_function(&key) {
                None => {
                    return Err(FunctionInlinerError::NoReturnStatement { function_name: method_name.clone(), span: expr.span });
                },
                Some(info) => {
                    let ghost recv_m = expr_model(recv);
                    let pm = bind_params(&callee.param_names, inlined_args, Some(recv));
                    assert(params_model(pm@) =~= seq![("self"@, recv_m)]
                        + zip_params(callee_model(*callee).param_names, exprs_model(inlined_args@, 0)));
                    substitute_parameters_impl(&info.return_expr, &pm)
                },
            };
            proof {
                lemma_unvisited_push(fm, st, key@);
            }
            let inlined = match inline_expression(&body, context) {
                Ok(x) => x,
                Err(e) => { return Err(e); },
            };
            context.pop_call();
            assert(context.call_stack@ =~= old(context).call_stack@);
            return Ok(inlined);
        },
        ResolvedExprKind::IntLit { .. } | ResolvedExprKind::FloatLit { .. } | ResolvedExprKind::BoolLit { .. }
        | ResolvedExprKind::Var { .. } => {
            return Ok(copy_expr(expr));
        },
        ResolvedExprKind::Index { array, index } => {
            let l = match inline_expression(array, context) { Ok(x) => x, Err(e) => { return Err(e); } };
            let r = match inline_expression(index, context) { Ok(x) => x, Err(e) => { return Err(e); } };
            ResolvedExprKind::Index { array: Box::new(l), index: Box::new(r) }
        },
        ResolvedExprKind::Add { lhs, rhs } => {
            let l = match inline_expression(lhs, context) { Ok(x) => x, Err(e) => { return Err(e); } };
            let r = match inline_expression(rhs, context) { Ok(x) => x, Err(e) => { return Err(e); } };
            ResolvedExprKind::Add { lhs: Box::new(l), rhs: Box::new(r) }
        },
        ResolvedExprKind::Sub { lhs, rhs } => {
            let l = match inline_expression(lhs, context) { Ok(x) => x, Err(e) => { return Err(e); } };
            let r = match inline_expression(rhs, context) { Ok(x) => x, Err(e) => { return Err(e); } };
            ResolvedExprKind::Sub { lhs: Box::new(l), rhs: Box::new(r) }
        },
        ResolvedExprKind::Mul { lhs, rhs } => {
            let l = match inline_expression(lhs, context) { Ok(x) => x, Err(e) => { return Err(e); } };
            let r = match inline_expression(rhs, context) { Ok(x) => x, Err(e) => { return Err(e); } };
            ResolvedExprKind::Mul { lhs: Box::new(l), rhs: Box::new(r) }
        },
        ResolvedExprKind::Div { lhs, rhs } => {
            let l = match inline_expression(lhs, context) { Ok(x) => x, Err(e) => { return Err(e); } };
            let r = match inline_expression(rhs, context) { Ok(x) => x, Err(e) => { return Err(e); } };
            ResolvedExprKind::Div { lhs: Box::new(l), rhs: Box::new(r) }
        },
        ResolvedExprKind::Mod { lhs, rhs } => {
            let l = match inline_expression(lhs, context) { Ok(x) => x, Err(e) => { return Err(e); } };
            let r = match inline_expression(rhs, context) { Ok(x) => x, Err(e) => { return Err(e); } };
            ResolvedExprKind::Mod { lhs: Box::new(l), rhs: Box::new(r) }
        },
        ResolvedExprKind::Pow { lhs, rhs } => {
            let l = match inline_expression(lhs, context) { Ok(x) => x, Err(e) => { return Err(e); } };
            let r = match inline_expression(rhs, context) { Ok(x) => x, Err(e) => { return Err(e); } };
            ResolvedExprKind::Pow { lhs: Box::new(l), rhs: Box::new(r) }
        },
        ResolvedExprKind::Eq { lhs, rhs } => {
            let l = match inline_expression(lhs, context) { Ok(x) => x, Err(e) => { return Err(e); } };
            let r = match inline_expression(rhs, context) { Ok(x) => x, Err(e) => { return Err(e); } };
            ResolvedExprKind::Eq { lhs: Box::new(l), rhs: Box::new(r) }
        },
        ResolvedExprKind::NotEq { lhs, rhs } => {
            let l = match inline_expression(lhs, context) { Ok(x) => x, Err(e) => { return Err(e); } };
            let r = match inline_expression(rhs, context) { Ok(x) => x, Err(e) => { return Err(e); } };
            ResolvedExprKind::NotEq { lhs: Box::new(l), rhs: Box::new(r) }
        },
        ResolvedExprKind::Lt { lhs, rhs } => {
            let l = match inline_expression(lhs, context) { Ok(x) => x, Err(e) => { return Err(e); } };
            let r = match inline_expression(rhs, context) { Ok(x) => x, Err(e) => { return Err(e); } };
            ResolvedExprKind::Lt { lhs: Box::new(l), rhs: Box::new(r) }
        },
        ResolvedExprKind::Gt { lhs, rhs } => {
            let l = match inline_expression(lhs, context) { Ok(x) => x, Err(e) => { return Err(e); } };
            let r = match inline_expression(rhs, context) { Ok(x) => x, Err(e) => { return Err(e); } };
            ResolvedExprKind::Gt { lhs: Box::new(l), rhs: Box::new(r) }
        },
        ResolvedExprKind::LtEq { lhs, rhs } => {
            let l = match inline_expression(lhs, context) { Ok(x) => x, Err(e) => { return Err(e); } };
            let r = match inline_expression(rhs, context) { Ok(x) => x, Err(e) => { return Err(e); } };
            ResolvedExprKind::LtEq { lhs: Box::new(l), rhs: Box::new(r) }
        },
        ResolvedExprKind::GtEq { lhs, rhs } => {
            let l = match inline_expression(lhs, context) { Ok(x) => x, Err(e) => { return Err(e); } };
            let r = match inline_expression(rhs, context) { Ok(x) => x, Err(e) => { return Err(e); } };
            ResolvedExprKind::GtEq { lhs: Box::new(l), rhs: Box::new(r) }
        },
        ResolvedExprKind::And { lhs, rhs } => {
            let l = match inline_expression(lhs, context) { Ok(x) => x, Err(e) => { return Err(e); } };
            let r = match inline_expression(rhs, context) { Ok(x) => x, Err(e) => { return Err(e); } };
            ResolvedExprKind::And { lhs: Box::new(l), rhs: Box::new(r) }
        },
        ResolvedExprKind::Or { lhs, rhs } => {
            let l = match inline_expression(lhs, context) { Ok(x) => x, Err(e) => { return Err(e); } };
            let r = match inline_expression(rhs, context) { Ok(x) => x, Err(e) => { return Err(e); } };
            ResolvedExprKind::Or { lhs: Box::new(l), rhs: Box::new(r) }
        },
        ResolvedExprKind::Neg { inner } => {
            let x = match inline_expression(inner, context) { Ok(x) => x, Err(e) => { return Err(e); } };
            ResolvedExprKind::Neg { inner: Box::new(x) }
        },
        ResolvedExprKind::Ref { inner } => {
            let x = match inline_expression(inner, context) { Ok(x) => x, Err(e) => { return Err(e); } };
            ResolvedExprKind::Ref { inner: Box::new(x) }
        },
        ResolvedExprKind::Deref { inner } => {
            let x = match inline_expression(inner, context) { Ok(x) => x, Err(e) => { return Err(e); } };
            ResolvedExprKind::Deref { inner: Box::new(x) }
        },
        ResolvedExprKind::Paren { inner } => {
            let x = match inline_expression(inner, context) { Ok(x) => x, Err(e) => { return Err(e); } };
            ResolvedExprKind::Paren { inner: Box::new(x) }
        },
        ResolvedExprKind::FieldAccess { receiver, field_name } => {
            let x = match inline_expression(receiver, context) { Ok(x) => x, Err(e) => { return Err(e); } };
            ResolvedExprKind::FieldAccess { receiver: Box::new(x), field_name: field_name.clone() }
        },
        ResolvedExprKind::StructLit { name, fields } => {
            let fs = match inline_fields_exec(fields, context) { Ok(v) => v, Err(e) => { return Err(e); } };
            ResolvedExprKind::StructLit { name: name.clone(), fields: fs }
        },
        ResolvedExprKind::ArrayLit { elements } => {
            let xs = match inline_exprs(elements, context) { Ok(v) => v, Err(e) => { return Err(e); } };
            ResolvedExprKind::ArrayLit { elements: xs }
        },
    };
    Ok(ResolvedExpr { span: expr.span, kind, ty })
}

/// [`inline_expression`] on each of `xs`, in order, stopping at the first refusal.
fn inline_exprs(xs: &Vec<ResolvedExpr>, context: &mut InlinerContext) -> (r: Result<Vec<ResolvedExpr>, FunctionInlinerError>)
    ensures
        final(context).function_map@ == old(context).function_map@,
        match inline_list(fm_model(old(context).function_map@), stack_model(old(context).call_stack@), exprs_model(xs@, 0), 0) {
            Ok(ms) => r matches Ok(v) && exprs_model(v@, 0) == ms && final(context).call_stack@ == old(context).call_stack@,
            Err(x) => r matches Err(e) && e@ == x,
        },
    decreases unvisited(fm_model(old(context).function_map@), stack_model(old(context).call_stack@)), xs@,
{
    let ghost st = stack_model(context.call_stack@);
    let ghost fm = fm_model(context.function_map@);
    let ghost big = exprs_model(xs@, 0);
    proof {
        lemma_exprs_model_shape(xs@, 0);
    }
    let mut r: Vec<ResolvedExpr> = Vec::new();
    let ghost mut prefix: Seq<ExprModel> = Seq::empty();
    let mut i: usize = 0;
    while i < xs.len()
        invariant
            i <= xs@.len(),
            big == exprs_model(xs@, 0),
            big.len() == xs@.len(),
            forall|k: int| 0 <= k < xs@.len() ==> #[trigger] big[k] == expr_model(xs@[k]),
            fm == fm_model(old(context).function_map@),
            st == stack_model(old(context).call_stack@),
            context.function_map@ == old(context).function_map@,
            context.call_stack@ == old(context).call_stack@,
            r@.len() == i,
            prefix.len() == i,
            forall|k: int| 0 <= k < i ==> #[trigger] expr_model(r@[k]) == prefix[k],
            inline_list(fm, st, big, 0) == match inline_list(fm, st, big, i as int) {
                Ok(rest) => Ok(prefix + rest),
                Err(e) => Err(e),
            },
        decreases xs.len() - i,
    {
        assert(decreases_to!(xs@ => xs@[i as int]));
        let x = match inline_expression(&xs[i], context) {
            Ok(x) => x,
            Err(e) => { return Err(e); },
        };
        proof {
            match inline_list(fm, st, big, i + 1) {
                Ok(rest) => {
                    assert(prefix + (seq![expr_model(x)] + rest) =~= prefix.push(expr_model(x)) + rest);
                },
                Err(_) => {},
            }
            prefix = prefix.push(expr_model(x));
        }
        r.push(x);
        i = i + 1;
    }
    proof {
        lemma_exprs_model_shape(r@, 0);
        assert(prefix + Seq::<ExprModel>::empty() =~= prefix);
        assert(exprs_model(r@, 0) =~= prefix);
    }
    Ok(r)
}

/// [`inline_expression`] on the value of each field of `fs`, in order.
fn inline_fields_exec(fs: &Vec<ResolvedStructLitField>, context: &mut InlinerContext) -> (r: Result<Vec<ResolvedStructLitField>, FunctionInlinerError>)
    ensures
        final(context).function_map@ == old(context).function_map@,
        match inline_fields(fm_model(old(context).function_map@), stack_model(old(context).call_stack@), fields_model(fs@, 0), 0) {
            Ok(ms) => r matches Ok(v) && fields_model(v@, 0) == ms && final(context).call_stack@ == old(context).call_stack@,
            Err(x) => r matches Err(e) && e@ == x,
        },
    decreases unvisited(fm_model(old(context).function_map@), stack_model(old(context).call_stack@)), fs@,
{
    let ghost st = stack_model(context.call_stack@);
    let ghost fm = fm_model(context.function_map@);
    let ghost big = fields_model(fs@, 0);
    proof {
        lemma_fields_model_shape(fs@, 0);
    }
    let mut r: Vec<ResolvedStructLitField> = Vec::new();
    let ghost mut prefix: Seq<FieldModel> = Seq::empty();
    let mut i: usize = 0;
    while i < fs.len()
        invariant
            i <= fs@.len(),
            big == fields_model(fs@, 0),
            big.len() == fs@.len(),
            forall|k: int| 0 <= k < fs@.len() ==> #[trigger] big[k] == field_model(fs@[k]),
            fm == fm_model(old(context).function_map@),
            st == stack_model(old(context).call_stack@),
            context.function_map@ == old(context).function_map@,
            context.call_stack@ == old(context).call_stack@,
            r@.len() == i,
            prefix.len() == i,
            forall|k: int| 0 <= k < i ==> #[trigger] field_model(r@[k]) == prefix[k],
            inline_fields(fm, st, big, 0) == match inline_fields(fm, st, big, i as int) {
                Ok(rest) => Ok(prefix + rest),
                Err(e) => Err(e),
            },
        decreases fs.len() - i,
    {
        assert(decreases_to!(fs@ => fs@[i as int]));
        let f = match &fs[i] {
            ResolvedStructLitField::Field { name, value, span } => {
                let v = match inline_expression(value, context) { Ok(x) => x, Err(e) => { return Err(e); } };
                ResolvedStructLitField::Field { name: name.clone(), value: v, span: *span }
            },
            ResolvedStructLitField::ComputedProperty { name, value, span } => {
                let v = match inline_expression(value, context) { Ok(x) => x, Err(e) => { return Err(e); } };
                ResolvedStructLitField::ComputedProperty { name: name.clone(), value: v, span: *span }
            },
        };
        proof {
            match inline_fields(fm, st, big, i + 1) {
                Ok(rest) => {
                    assert(prefix + (seq![field_model(f)] + rest) =~= prefix.push(field_model(f)) + rest);
                },
                Err(_) => {},
            }
            prefix = prefix.push(field_model(f));
        }
        r.push(f);
        i = i + 1;
    }
    proof {
        lemma_fields_model_shape(r@, 0);
        assert(prefix + Seq::<FieldModel>::empty() =~= prefix);
        assert(fields_model(r@, 0) =~= prefix);
    }
    Ok(r)
}

// ============================================================================
// Inlining statements
// ============================================================================

/// The refusal in an outcome, if any.
pub open spec fn error_of<T>(r: Result<T, InlinerErrorModel>) -> Option<InlinerErrorModel> {
    match r {
        Ok(_) => None,
        Err(e) => Some(e),
    }
}

/// The outcome of inlining the expression `e` outside any call.
pub open spec fn expr_outcome(fm: Seq<(Seq<char>, ExprModel)>, e: ResolvedExpr) -> Result<ExprModel, InlinerErrorModel> {
    inline_model(fm, Seq::empty(), expr_model(e))
}

/// `e2` is `e` with its calls inlined.
pub open spec fn expr_inlined(fm: Seq<(Seq<char>, ExprModel)>, e: ResolvedExpr, e2: ResolvedExpr) -> bool {
    expr_outcome(fm, e) == Ok::<ExprModel, InlinerErrorModel>(expr_model(e2))
}

/// The first refusal among the expressions `a` then `b`.
pub open spec fn first_error(a: Option<InlinerErrorModel>, b: Option<InlinerErrorModel>) -> Option<InlinerErrorModel> {
    if a is Some { a } else { b }
}

/// The first refusal met inlining the statement `s`, if any.
pub open spec fn stmt_error(fm: Seq<(Seq<char>, ExprModel)>, s: ResolvedStmt) -> Option<InlinerErrorModel>
    decreases s, 0nat,
{
    match s.kind {
        ResolvedStmtKind::Let { init, .. } => match init {
            Some(e) => error_of(expr_outcome(fm, e)),
            None => None,
        },
        ResolvedStmtKind::Assignment { value, .. } => error_of(expr_outcome(fm, value)),
        ResolvedStmtKind::FieldAssignment { target, value, .. } =>
            first_error(error_of(expr_outcome(fm, target)), error_of(expr_outcome(fm, value))),
        ResolvedStmtKind::Expression { expr, .. } => error_of(expr_outcome(fm, expr)),
        ResolvedStmtKind::If { condition, then_branch, else_branch, .. } => first_error(
            error_of(expr_outcome(fm, condition)),
            first_error(stmts_error(fm, then_branch@, 0), match else_branch {
                Some(es) => stmts_error(fm, es@, 0),
                None => None,
            }),
        ),
        ResolvedStmtKind::Block { statements, .. } => stmts_error(fm, statements@, 0),
        ResolvedStmtKind::Return { value, .. } => match value {
            Some(v) => error_of(expr_outcome(fm, v)),
            None => None,
        },
        _ => None,
    }
}

/// The first refusal met inlining the statements `xs[i..]` in order, if any.
pub open spec fn stmts_error(fm: Seq<(Seq<char>, ExprModel)>, xs: Seq<ResolvedStmt>, i: int) -> Option<InlinerErrorModel>
    decreases xs, xs.len() - i,
{
    if i < 0 || i >= xs.len() {
        None
    } else {
        first_error(stmt_error(fm, xs[i]), stmts_error(fm, xs, i + 1))
    }
}

/// `o2` is `o` with its calls inlined.
pub open spec fn opt_inlined(fm: Seq<(Seq<char>, ExprModel)>, o: Option<ResolvedExpr>, o2: Option<ResolvedExpr>) -> bool {
    match o {
        Some(e) => o2 matches Some(e2) && expr_inlined(fm, e, e2),
        None => o2 is None,
    }
}

/// `r` is the statement `s` with the calls of its expressions inlined: the statement
/// keeps its kind and its other parts; definitions, loops and `with` blocks are kept
/// as they are.
pub open spec fn stmt_inlined(fm: Seq<(Seq<char>, ExprModel)>, s: ResolvedStmt, r: ResolvedStmt) -> bool
    decreases s, 0nat,
{
    &&& r.span == s.span
    &&& match s.kind {
        ResolvedStmtKind::Let { var_def, init, span } =>
            r.kind matches ResolvedStmtKind::Let { var_def: v2, init: i2, span: sp2 }
                && v2 == var_def && sp2 == span && opt_inlined(fm, init, i2),
        ResolvedStmtKind::Assignment { target, value, span } =>
            r.kind matches ResolvedStmtKind::Assignment { target: t2, value: v2, span: sp2 }
                && t2 == target && sp2 == span && expr_inlined(fm, value, v2),
        ResolvedStmtKind::FieldAssignment { target, value, span } =>
            r.kind matches ResolvedStmtKind::FieldAssignment { target: t2, value: v2, span: sp2 }
                && sp2 == span && expr_inlined(fm, target, t2) && expr_inlined(fm, value, v2),
        ResolvedStmtKind::Expression { expr, span } =>
            r.kind matches ResolvedStmtKind::Expression { expr: e2, span: sp2 }
                && sp2 == span && expr_inlined(fm, expr, e2),
        ResolvedStmtKind::If { condition, then_branch, else_branch, span } =>
            r.kind matches ResolvedStmtKind::If { condition: c2, then_branch: t2, else_branch: e2, span: sp2 }
                && sp2 == span && expr_inlined(fm, condition, c2)
                && stmts_inlined(fm, then_branch@, t2@, 0)
                && match else_branch {
                    Some(es) => e2 matches Some(es2) && stmts_inlined(fm, es@, es2@, 0),
                    None => e2 is None,
                },
        ResolvedStmtKind::Block { statements, span } =>
            r.kind matches ResolvedStmtKind::Block { statements: s2, span: sp2 }
                && sp2 == span && stmts_inlined(fm, statements@, s2@, 0),
        ResolvedStmtKind::Return { value, span } =>
            r.kind matches ResolvedStmtKind::Return { value: v2, span: sp2 }
                && sp2 == span && opt_inlined(fm, value, v2),
        _ => r.kind == s.kind,
    }
}

/// `ys[i..]` are the statements `xs[i..]` with their calls inlined.
pub open spec fn stmts_inlined(fm: Seq<(Seq<char>, ExprModel)>, xs: Seq<ResolvedStmt>, ys: Seq<ResolvedStmt>, i: int) -> bool
    decreases xs, xs.len() - i,
{
    &&& xs.len() == ys.len()
    &&& (i < 0 || i >= xs.len() || (stmt_inlined(fm, xs[i], ys[i]) && stmts_inlined(fm, xs, ys, i + 1)))
}

/// Statements inlined one by one are inlined as a list.
proof fn lemma_stmts_inlined_from(fm: Seq<(Seq<char>, ExprModel)>, xs: Seq<ResolvedStmt>, ys: Seq<ResolvedStmt>, i: int)
    requires
        0 <= i,
        xs.len() == ys.len(),
        forall|j: int| i <= j < xs.len() ==> #[trigger] stmt_inlined(fm, xs[j], ys[j]),
    ensures
        stmts_inlined(fm, xs, ys, i),
    decreases xs.len() - i,
{
    if i < xs.len() {
        lemma_stmts_inlined_from(fm, xs, ys, i + 1);
        assert(stmt_inlined(fm, xs[i], ys[i]));
    }
}

/// The inlining of an optional expression.
fn inline_option(o: Option<ResolvedExpr>, context: &mut InlinerContext) -> (r: Result<Option<ResolvedExpr>, FunctionInlinerError>)
    requires
        old(context).call_stack@.len() == 0,
    ensures
        final(context).function_map@ == old(context).function_map@,
        r is Ok ==> final(context).call_stack@.len() == 0,
        match o {
            Some(e) => match expr_outcome(fm_model(old(context).function_map@), e) {
                Ok(_) => r matches Ok(o2) && opt_inlined(fm_model(old(context).function_map@), o, o2),
                Err(x) => r matches Err(err) && err@ == x,
            },
            None => r == Ok::<Option<ResolvedExpr>, FunctionInlinerError>(None),
        },
{
    match o {
        Some(e) => {
            assert(stack_model(context.call_stack@) =~= Seq::<Seq<char>>::empty());
            match inline_expression(&e, context) {
                Ok(e2) => Ok(Some(e2)),
                Err(err) => Err(err),
            }
        },
        None => Ok(None),
    }
}

/// The inlining of one expression outside any call.
fn inline_top(e: &ResolvedExpr, context: &mut InlinerContext) -> (r: Result<ResolvedExpr, FunctionInlinerError>)
    requires
        old(context).call_stack@.len() == 0,
    ensures
        final(context).function_map@ == old(context).function_map@,
        r is Ok ==> final(context).call_stack@.len() == 0,
        match expr_outcome(fm_model(old(context).function_map@), *e) {
            Ok(m) => r matches Ok(e2) && expr_model(e2) == m,
            Err(x) => r matches Err(err) && err@ == x,
        },
{
    assert(stack_model(context.call_stack@) =~= Seq::<Seq<char>>::empty());
    inline_expression(e, context)
}

/// `stmt` with the calls of its expressions inlined.
fn inline_statement(stmt: ResolvedStmt, context: &mut InlinerContext) -> (r: Result<ResolvedStmt, FunctionInlinerError>)
    requires
        old(context).call_stack@.len() == 0,
    ensures
        final(context).function_map@ == old(context).function_map@,
        match stmt_error(fm_model(old(context).function_map@), stmt) {
            Some(x) => r matches Err(e) && e@ == x,
            None => r matches Ok(s2) && stmt_inlined(fm_model(old(context).function_map@), stmt, s2)
                && final(context).call_stack@.len() == 0,
        },
    decreases stmt,
{
    let ghost fm = fm_model(context.function_map@);
    let ghost s0 = stmt;
    let span = stmt.span;
    let kind = match stmt.kind {
        ResolvedStmtKind::Let { var_def, init, span } => {
            let init2 = match inline_option(init, context) { Ok(o) => o, Err(e) => { return Err(e); } };
            ResolvedStmtKind::Let { var_def, init: init2, span }
        },
        ResolvedStmtKind::Assignment { target, value, span } => {
            let v2 = match inline_top(&value, context) { Ok(x) => x, Err(e) => { return Err(e); } };
            ResolvedStmtKind::Assignment { target, value: v2, span }
        },
        ResolvedStmtKind::FieldAssignment { target, value, span } => {
            let t2 = match inline_top(&target, context) { Ok(x) => x, Err(e) => { return Err(e); } };
            let v2 = match inline_top(&value, context) { Ok(x) => x, Err(e) => { return Err(e); } };
            ResolvedStmtKind::FieldAssignment { target: t2, value: v2, span }
        },
        ResolvedStmtKind::Expression { expr, span } => {
            let e2 = match inline_top(&expr, context) { Ok(x) => x, Err(e) => { return Err(e); } };
            ResolvedStmtKind::Expression { expr: e2, span }
        },
        ResolvedStmtKind::If { condition, then_branch, else_branch, span } => {
            let c2 = match inline_top(&condition, context) { Ok(x) => x, Err(e) => { return Err(e); } };
            proof {
                assert(decreases_to!(s0 => s0.kind));
            }
            let t2 = match inline_statements(then_branch, context) { Ok(v) => v, Err(e) => { return Err(e); } };
            let e2 = match else_branch {
                Some(es) => match inline_statements(es, context) {
                    Ok(v) => Some(v),
                    Err(e) => { return Err(e); },
                },
                None => None,
            };
            ResolvedStmtKind::If { condition: c2, then_branch: t2, else_branch: e2, span }
        },
        ResolvedStmtKind::Block { statements, span } => {
            let s2 = match inline_statements(statements, context) { Ok(v) => v, Err(e) => { return Err(e); } };
            ResolvedStmtKind::Block { statements: s2, span }
        },
        ResolvedStmtKind::Return { value, span } => {
            let v2 = match inline_option(value, context) { Ok(o) => o, Err(e) => { return Err(e); } };
            ResolvedStmtKind::Return { value: v2, span }
        },
        other => other,
    };
    Ok(ResolvedStmt { span, kind })
}

/// [`inline_statement`] on each of `statements`, in order, stopping at the first refusal.
fn inline_statements(statements: Vec<ResolvedStmt>, context: &mut InlinerContext) -> (r: Result<Vec<ResolvedStmt>, FunctionInlinerError>)
    requires
        old(context).call_stack@.len() == 0,
    ensures
        final(context).function_map@ == old(context).function_map@,
        match stmts_error(fm_model(old(context).function_map@), statements@, 0) {
            Some(x) => r matches Err(e) && e@ == x,
            None => r matches Ok(v) && stmts_inlined(fm_model(old(context).function_map@), statements@, v@, 0)
                && final(context).call_stack@.len() == 0,
        },
    decreases statements@,
{
    let ghost fm = fm_model(context.function_map@);
    let ghost orig = statements@;
    let mut rest = statements;
    let mut result: Vec<ResolvedStmt> = Vec::new();
    let ghost mut k: int = 0;
    while rest.len() > 0
        invariant
            0 <= k <= orig.len(),
            orig == statements@,
            rest@ == orig.skip(k),
            fm == fm_model(old(context).function_map@),
            context.function_map@ == old(context).function_map@,
            context.call_stack@.len() == 0,
            stmts_error(fm, orig, 0) == stmts_error(fm, orig, k),
            result@.len() == k,
            forall|j: int| 0 <= j < k ==> #[trigger] stmt_inlined(fm, orig[j], result@[j]),
        decreases rest.len(),
    {
        let s = rest.remove(0);
        assert(s == orig[k]);
        assert(decreases_to!(orig => orig[k]));
        let s2 = match inline_statement(s, context) {
            Ok(x) => x,
            Err(e) => { return Err(e); },
        };
        result.push(s2);
        proof {
            assert(rest@ =~= orig.skip(k + 1));
            k = k + 1;
        }
    }
    proof {
        lemma_stmts_inlined_from(fm, orig, result@, 0);
    }
    Ok(result)
}

// ============================================================================
// Collecting functions
// ============================================================================

/// The value of the last `return` with a value among `body[..n]`.
pub open spec fn last_return(body: Seq<ResolvedStmt>, n: int) -> Option<ResolvedExpr>
    decreases n,
{
    if n <= 0 || n > body.len() {
        None
    } else {
        match body[n - 1].kind {
            ResolvedStmtKind::Return { value: Some(e), .. } => Some(e),
            _ => last_return(body, n - 1),
        }
    }
}

/// The functions after collecting those that `s` defines: a function definition
/// registers its return expression (the explicit one, else that of its last `return`);
/// blocks, both branches of an `if` and the methods of a struct are searched too.
pub open spec fn collect_stmt(fm: Seq<(Seq<char>, ExprModel)>, s: ResolvedStmt) -> Result<Seq<(Seq<char>, ExprModel)>, InlinerErrorModel>
    decreases s, 0nat,
{
    match s.kind {
        ResolvedStmtKind::FunctionDef { func_def, body, return_expr, span } => match return_expr {
            Some(e) => Ok(fn_insert(fm, def_key(func_def), expr_model(e))),
            None => match last_return(body@, body@.len() as int) {
                Some(e) => Ok(fn_insert(fm, def_key(func_def), expr_model(e))),
                None => Err(InlinerErrorModel::NoReturnStatement { function_name: func_def.name@, span }),
            },
        },
        ResolvedStmtKind::Block { statements, .. } => collect_list(fm, statements@, 0),
        ResolvedStmtKind::If { then_branch, else_branch, .. } => match collect_list(fm, then_branch@, 0) {
            Err(e) => Err(e),
            Ok(fm1) => match else_branch {
                Some(es) => collect_list(fm1, es@, 0),
                None => Ok(fm1),
            },
        },
        ResolvedStmtKind::StructDef { methods, .. } => collect_list(fm, methods@, 0),
        _ => Ok(fm),
    }
}

/// [`collect_stmt`] over `xs[i..]` in order, stopping at the first refusal.
pub open spec fn collect_list(fm: Seq<(Seq<char>, ExprModel)>, xs: Seq<ResolvedStmt>, i: int) -> Result<Seq<(Seq<char>, ExprModel)>, InlinerErrorModel>
    decreases xs, xs.len() - i,
{
    if i < 0 || i >= xs.len() {
        Ok(fm)
    } else {
        match collect_stmt(fm, xs[i]) {
            Err(e) => Err(e),
            Ok(fm1) => collect_list(fm1, xs, i + 1),
        }
    }
}

/// The return expression of a function body: that of its last `return` with a value.
fn extract_return_from_body(function_name: &String, body: &Vec<ResolvedStmt>, span: Span) -> (r: Result<ResolvedExpr, FunctionInlinerError>)
    ensures
        match last_return(body@, body@.len() as int) {
            Some(e) => r matches Ok(x) && expr_model(x) == expr_model(e),
            None => r matches Err(err)
                && err@ == (InlinerErrorModel::NoReturnStatement { function_name: function_name@, span }),
        },
{
    if body.len() == 1 {
        match &body[0].kind {
            ResolvedStmtKind::Return { value: Some(expr), .. } => {
                return Ok(copy_expr(expr));
            },
            _ => {},
        }
    }
    let mut i: usize = body.len();
    while i > 0
        invariant
            i <= body@.len(),
            last_return(body@, body@.len() as int) == last_return(body@, i as int),
        decreases i,
    {
        match &body[i - 1].kind {
            ResolvedStmtKind::Return { value: Some(expr), .. } => {
                return Ok(copy_expr(expr));
            },
            _ => {},
        }
        i = i - 1;
    }
    Err(FunctionInlinerError::NoReturnStatement { function_name: function_name.clone(), span })
}

/// Registers the functions that `stmt` defines.
fn collect_functions(stmt: &ResolvedStmt, context: &mut InlinerContext) -> (r: Result<(), FunctionInlinerError>)
    ensures
        final(context).call_stack@ == old(context).call_stack@,
        match collect_stmt(fm_model(old(context).function_map@), *stmt) {
            Ok(fm) => r is Ok && fm_model(final(context).function_map@) == fm,
            Err(x) => r matches Err(e) && e@ == x,
        },
    decreases stmt,
{
    match &stmt.kind {
        ResolvedStmtKind::FunctionDef { func_def, body, return_expr, span } => {
            let ret = match return_expr {
                Some(e) => copy_expr(e),
                None => match extract_return_from_body(&func_def.name, body, *span) {
                    Ok(e) => e,
                    Err(e) => { return Err(e); },
                },
            };
            let key = get_qualified_name(func_def);
            context.register(key, ret, *span);
            Ok(())
        },
        ResolvedStmtKind::Block { statements, .. } => collect_all(statements, context),
        ResolvedStmtKind::If { then_branch, else_branch, .. } => {
            match collect_all(then_branch, context) {
                Ok(()) => {},
                Err(e) => { return Err(e); },
            }
            match else_branch {
                Some(es) => collect_all(es, context),
                None => Ok(()),
            }
        },
        ResolvedStmtKind::StructDef { methods, .. } => collect_all(methods, context),
        _ => Ok(()),
    }
}

/// [`collect_functions`] on each of `statements`, in order.
fn collect_all(statements: &Vec<ResolvedStmt>, context: &mut InlinerContext) -> (r: Result<(), FunctionInlinerError>)
    ensures
        final(context).call_stack@ == old(context).call_stack@,
        match collect_list(fm_model(old(context).function_map@), statements@, 0) {
            Ok(fm) => r is Ok && fm_model(final(context).function_map@) == fm,
            Err(x) => r matches Err(e) && e@ == x,
        },
    decreases statements@,
{
    let mut i: usize = 0;
    while i < statements.len()
        invariant
            i <= statements@.len(),
            context.call_stack@ == old(context).call_stack@,
            collect_list(fm_model(old(context).function_map@), statements@, 0)
                == collect_list(fm_model(context.function_map@), statements@, i as int),
        decreases statements.len() - i,
    {
        assert(decreases_to!(statements@ => statements@[i as int]));
        match collect_functions(&statements[i], context) {
            Ok(()) => {},
            Err(e) => { return Err(e); },
        }
        i = i + 1;
    }
    Ok(())
}

// ============================================================================
// Inlining a program
// ============================================================================

/// A function or struct definition.
pub open spec fn is_definition(s: ResolvedStmt) -> bool {
    s.kind is FunctionDef || s.kind is StructDef
}

/// The statements that stay after inlining: all but the top-level definitions.
pub open spec fn kept_statements(xs: Seq<ResolvedStmt>) -> Seq<ResolvedStmt> {
    xs.filter(|s: ResolvedStmt| !is_definition(s))
}

proof fn lemma_stmts_inlined_each(fm: Seq<(Seq<char>, ExprModel)>, xs: Seq<ResolvedStmt>, ys: Seq<ResolvedStmt>, i: int)
    requires
        0 <= i,
        stmts_inlined(fm, xs, ys, i),
    ensures
        xs.len() == ys.len(),
        forall|j: int| i <= j < xs.len() ==> #[trigger] stmt_inlined(fm, xs[j], ys[j]),
    decreases xs.len() - i,
{
    if i < xs.len() {
        lemma_stmts_inlined_each(fm, xs, ys, i + 1);
    }
}

/// Inlining drops the top-level function and struct definitions and turns no other
/// statement into one: a program that was inlined holds no top-level definition.
pub proof fn lemma_inlined_program_has_no_definitions(fm: Seq<(Seq<char>, ExprModel)>, xs: Seq<ResolvedStmt>, ys: Seq<ResolvedStmt>)
    requires
        stmts_inlined(fm, kept_statements(xs), ys, 0),
    ensures
        forall|j: int| 0 <= j < ys.len() ==> !is_definition(#[trigger] ys[j]),
{
    let kept = kept_statements(xs);
    lemma_stmts_inlined_each(fm, kept, ys, 0);
    broadcast use vstd::seq_lib::group_filter_ensures;
    assert forall|j: int| 0 <= j < ys.len() implies !is_definition(#[trigger] ys[j]) by {
        assert(stmt_inlined(fm, kept[j], ys[j]));
        assert(!is_definition(kept[j]));
    }
}

fn is_definition_exec(s: &ResolvedStmt) -> (b: bool)
    ensures
        b == is_definition(*s),
{
    match &s.kind {
        ResolvedStmtKind::FunctionDef { .. } | ResolvedStmtKind::StructDef { .. } => true,
        _ => false,
    }
}

/// Inlines every function and method call of `statements`.
///
/// First every function is collected (see [`collect_stmt`]); then the statements are
/// inlined in order, stopping at the first refusal, and the top-level function and
/// struct definitions are dropped.
pub fn inline_functions(statements: Vec<ResolvedStmt>) -> (r: Result<Vec<ResolvedStmt>, FunctionInlinerError>)
    ensures
        match collect_list(Seq::empty(), statements@, 0) {
            Err(x) => r matches Err(e) && e@ == x,
            Ok(fm) => match stmts_error(fm, statements@, 0) {
                Some(x) => r matches Err(e) && e@ == x,
                None => r matches Ok(v) && stmts_inlined(fm, kept_statements(statements@), v@, 0),
            },
        },
{
    let mut context = InlinerContext::new();
    assert(fm_model(context.function_map@) =~= Seq::<(Seq<char>, ExprModel)>::empty());
    match collect_all(&statements, &mut context) {
        Ok(()) => {},
        Err(e) => { return Err(e); },
    }
    let ghost fm = fm_model(context.function_map@);
    let ghost orig = statements@;
    let mut rest = statements;
    let mut result: Vec<ResolvedStmt> = Vec::new();
    let ghost mut k: int = 0;
    while rest.len() > 0
        invariant
            0 <= k <= orig.len(),
            rest@ == orig.skip(k),
            orig == statements@,
            fm == fm_model(context.function_map@),
            collect_list(Seq::empty(), orig, 0) == Ok::<Seq<(Seq<char>, ExprModel)>, InlinerErrorModel>(fm),
            context.call_stack@.len() == 0,
            stmts_error(fm, orig, 0) == stmts_error(fm, orig, k),
            result@.len() == kept_statements(orig.take(k)).len(),
            forall|j: int| 0 <= j < result@.len() ==>
                #[trigger] stmt_inlined(fm, kept_statements(orig.take(k))[j], result@[j]),
        decreases rest.len(),
    {
        let s = rest.remove(0);
        assert(s == orig[k]);
        let keep = !is_definition_exec(&s);
        let s2 = match inline_statement(s, &mut context) {
            Ok(x) => x,
            Err(e) => { return Err(e); },
        };
        let ghost before = result@;
        if keep {
            result.push(s2);
        }
        proof {
            reveal_with_fuel(Seq::filter, 1);
            assert(orig.take(k + 1).drop_last() =~= orig.take(k));
            assert(orig.take(k + 1).last() == orig[k]);
            assert(rest@ =~= orig.skip(k + 1));
            k = k + 1;
        }
    }
    proof {
        assert(orig.take(orig.len() as int) =~= orig);
        lemma_stmts_inlined_from(fm, kept_statements(orig), result@, 0);
    }
    Ok(result)
}

// ============================================================================
// Messages
// ============================================================================

fn append_position(out: &mut String, span: Span)
    ensures
        final(out)@ == old(out)@ + position_text(span),
{
    append_str(out, " at line ");
    append_u64(out, span.start.line as u64);
    append_str(out, ", column ");
    append_u64(out, span.start.column as u64);
}

impl FunctionInlinerError {
    /// The message of the error.
    pub fn to_text(&self) -> (s: String)
        ensures
            s@ == inliner_error_text(self@),
    {
        match self {
            FunctionInlinerError::RecursiveCall { function_name, call_chain, span } => {
                let mut s = String::from_str("Recursive function call to '");
                append_str(&mut s, function_name.as_str());
                append_str(&mut s, "'");
                append_position(&mut s, *span);
                append_str(&mut s, ". Call chain: ");
                let chain = join_strings(call_chain, " -> ");
                append_str(&mut s, chain.as_str());
                s
            },
            FunctionInlinerError::NoReturnStatement { function_name, span } => {
                let mut s = String::from_str("Function '");
                append_str(&mut s, function_name.as_str());
                append_str(&mut s, "'");
                append_position(&mut s, *span);
                append_str(&mut s, " has no return statement");
                s
            },
            FunctionInlinerError::UnsupportedControlFlow { function_name, statement_type, span } => {
                let mut s = String::from_str("Function '");
                append_str(&mut s, function_name.as_str());
                append_str(&mut s, "'");
                append_position(&mut s, *span);
                append_str(&mut s, " has unsupported control flow: ");
                append_str(&mut s, statement_type.as_str());
                s
            },
            FunctionInlinerError::ComplexFunctionBody { function_name, span } => {
                let mut s = String::from_str("Function '");
                append_str(&mut s, function_name.as_str());
                append_str(&mut s, "'");
                append_position(&mut s, *span);
                append_str(&mut s, " has complex body with multiple statements. Only simple functions with a single return statement are supported.");
                s
            },
        }
    }
}

} // verus!
