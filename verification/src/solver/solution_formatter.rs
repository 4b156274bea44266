//! Reading a solution out of a Z3 model.
//!
//! The value of each variable is evaluated in the model without model completion: a
//! variable that nothing constrains reads `<under-constrained>`. Assignments are
//! listed sorted by variable name, one `name = value` line each.

use vstd::prelude::*;
use z3::Model;
use crate::text::{append_str, append_i64, int_text};
use crate::solver::constraint_extractor::Variable;
use crate::solver::z3_bridge::{Z3Ast, SortModel, sort_of, entries_view, lookup_sort, name_index, lemma_name_index};
use crate::solver::z3_api::{CheckOutcome, solver_check, solver_model, eval_int, eval_real, eval_bool,
    int_value, real_value, bool_value, int_text as z3_int_text, real_text, bool_text};

verus! {

// ============================================================================
// Errors
// ============================================================================

/// Errors of solution formatting.
#[derive(Debug)]
pub enum SolutionFormatterError {
    /// The constraints cannot be satisfied.
    Unsat,
    /// The solver could not decide.
    Unknown,
    /// A variable has no Z3 constant.
    VariableNotInModel { var_name: String },
    /// A variable could not be evaluated.
    EvaluationFailed { var_name: String },
    /// A value could not be converted to the variable's type.
    TypeConversionFailed { var_name: String, expected_type: String },
}

/// The content of a formatting error.
pub enum FormatterErrorModel {
    Unsat,
    Unknown,
    VariableNotInModel { var_name: Seq<char> },
    EvaluationFailed { var_name: Seq<char> },
    TypeConversionFailed { var_name: Seq<char>, expected_type: Seq<char> },
}

impl View for SolutionFormatterError {
    type V = FormatterErrorModel;

    open spec fn view(&self) -> FormatterErrorModel {
        match self {
            SolutionFormatterError::Unsat => FormatterErrorModel::Unsat,
            SolutionFormatterError::Unknown => FormatterErrorModel::Unknown,
            SolutionFormatterError::VariableNotInModel { var_name } =>
                FormatterErrorModel::VariableNotInModel { var_name: var_name@ },
            SolutionFormatterError::EvaluationFailed { var_name } =>
                FormatterErrorModel::EvaluationFailed { var_name: var_name@ },
            SolutionFormatterError::TypeConversionFailed { var_name, expected_type } =>
                FormatterErrorModel::TypeConversionFailed { var_name: var_name@, expected_type: expected_type@ },
        }
    }
}

/// The message of a formatting error.
pub open spec fn formatter_error_text(e: FormatterErrorModel) -> Seq<char> {
    match e {
        FormatterErrorModel::Unsat => "UNSAT: The constraints cannot be satisfied"@,
        FormatterErrorModel::Unknown => "UNKNOWN: The solver could not determine satisfiability"@,
        FormatterErrorModel::VariableNotInModel { var_name } =>
            "Variable '"@ + var_name + "' not found in model"@,
        FormatterErrorModel::EvaluationFailed { var_name } =>
            "Failed to evaluate variable '"@ + var_name + "' in model"@,
        FormatterErrorModel::TypeConversionFailed { var_name, expected_type } =>
            "Failed to convert variable '"@ + var_name + "' to type "@ + expected_type,
    }
}

impl SolutionFormatterError {
    /// The message of the error.
    pub fn to_text(&self) -> (s: String)
        ensures
            s@ == formatter_error_text(self@),
    {
        match self {
            SolutionFormatterError::Unsat => String::from_str("UNSAT: The constraints cannot be satisfied"),
            SolutionFormatterError::Unknown => String::from_str("UNKNOWN: The solver could not determine satisfiability"),
            SolutionFormatterError::VariableNotInModel { var_name } => {
                let mut s = String::from_str("Variable '");
                append_str(&mut s, var_name.as_str());
                append_str(&mut s, "' not found in model");
                s
            },
            SolutionFormatterError::EvaluationFailed { var_name } => {
                let mut s = String::from_str("Failed to evaluate variable '");
                append_str(&mut s, var_name.as_str());
                append_str(&mut s, "' in model");
                s
            },
            SolutionFormatterError::TypeConversionFailed { var_name, expected_type } => {
                let mut s = String::from_str("Failed to convert variable '");
                append_str(&mut s, var_name.as_str());
                append_str(&mut s, "' to type ");
                append_str(&mut s, expected_type.as_str());
                s
            },
        }
    }
}

// ============================================================================
// Rendering values
// ============================================================================

/// The value of a variable as the formatter reports it.
#[derive(Debug)]
pub enum ValueText {
    /// Text printed as it is.
    Text(String),
    /// A real value `numerator / denominator` (denominator not zero), printed as the
    /// nearest `f64`.
    Ratio { numerator: i64, denominator: i64 },
}

/// The content of a reported value.
pub enum ValueModel {
    Text(Seq<char>),
    Ratio(i64, i64),
}

impl View for ValueText {
    type V = ValueModel;

    open spec fn view(&self) -> ValueModel {
        match self {
            ValueText::Text(t) => ValueModel::Text(t@),
            ValueText::Ratio { numerator, denominator } => ValueModel::Ratio(*numerator, *denominator),
        }
    }
}

/// What a variable that nothing constrains reads.
pub open spec fn under_constrained() -> Seq<char> {
    "<under-constrained>"@
}

/// The text starts like a number: with a digit or a minus sign.
pub open spec fn starts_numeric(t: Seq<char>) -> bool {
    t.len() > 0 && (('0' <= t[0] && t[0] <= '9') || t[0] == '-')
}

/// The text of an integer evaluation that is not an `i64` numeral: a larger numeral
/// is shown with a note, anything else is an unconstrained term.
pub open spec fn wide_int_text(z3_text: Seq<char>) -> Seq<char> {
    if starts_numeric(z3_text) { z3_text + " (exceeds i64 range)"@ } else { under_constrained() }
}

/// The value of a real evaluation: the ratio, or a note for a zero denominator.
pub open spec fn ratio_value(numerator: i64, denominator: i64) -> ValueModel {
    if denominator == 0 {
        ValueModel::Text(int_text(numerator as int) + "/0 (invalid rational)"@)
    } else {
        ValueModel::Ratio(numerator, denominator)
    }
}

/// The text of a real evaluation whose parts do not fit in `i64`.
pub open spec fn wide_real_text(z3_text: Seq<char>) -> Seq<char> {
    if starts_numeric(z3_text) { z3_text + " (cannot convert to f64)"@ } else { under_constrained() }
}

/// The text of a boolean evaluation that is not a literal.
pub open spec fn odd_bool_text(z3_text: Seq<char>) -> Seq<char> {
    if z3_text == "true"@ || z3_text == "false"@ {
        z3_text + " (unexpected bool value)"@
    } else {
        under_constrained()
    }
}

/// The text of a boolean value.
pub open spec fn bool_word(b: bool) -> Seq<char> {
    if b { "true"@ } else { "false"@ }
}

fn first_is_numeric(t: &String) -> (b: bool)
    ensures
        b == starts_numeric(t@),
{
    let ghost s = t@;
    let mut k: usize = 0;
    for ch in it: t.as_str().chars()
        invariant_except_break
            s == t@,
            it.seq() == s,
            k == it.index(),
            k == 0,
        ensures
            s.len() == 0,
    {
        assert(ch == s[k as int]);
        let numeric = ('0' <= ch && ch <= '9') || ch == '-';
        return numeric;
    }
    false
}

/// The text for an integer evaluation that is not an `i64` numeral.
pub fn wide_int_value(z3_text: String) -> (s: String)
    ensures
        s@ == wide_int_text(z3_text@),
{
    if first_is_numeric(&z3_text) {
        let mut s = z3_text;
        append_str(&mut s, " (exceeds i64 range)");
        s
    } else {
        String::from_str("<under-constrained>")
    }
}

/// The value for a real evaluation with parts `numerator` and `denominator`.
pub fn ratio_value_text(numerator: i64, denominator: i64) -> (v: ValueText)
    ensures
        v@ == ratio_value(numerator, denominator),
{
    if denominator == 0 {
        let mut s = String::new();
        append_i64(&mut s, numerator);
        append_str(&mut s, "/0 (invalid rational)");
        ValueText::Text(s)
    } else {
        ValueText::Ratio { numerator, denominator }
    }
}

/// The text for a real evaluation whose parts do not fit in `i64`.
pub fn wide_real_value(z3_text: String) -> (s: String)
    ensures
        s@ == wide_real_text(z3_text@),
{
    if first_is_numeric(&z3_text) {
        let mut s = z3_text;
        append_str(&mut s, " (cannot convert to f64)");
        s
    } else {
        String::from_str("<under-constrained>")
    }
}

/// The text for a boolean evaluation that is not a literal.
pub fn odd_bool_value(z3_text: String) -> (s: String)
    ensures
        s@ == odd_bool_text(z3_text@),
{
    let t = String::from_str("true");
    let f = String::from_str("false");
    if z3_text == t || z3_text == f {
        let mut s = z3_text;
        append_str(&mut s, " (unexpected bool value)");
        s
    } else {
        String::from_str("<under-constrained>")
    }
}

/// What evaluating a term in a model gave: `None` when the model leaves the term
/// open; otherwise the plain value of the evaluated term where it is one (`x`), beside
/// the term's text.
pub open spec fn evaluation_view<T>(e: Option<(Option<T>, String)>) -> Option<(Option<T>, Seq<char>)> {
    match e {
        None => None,
        Some((x, z)) => Some((x, z@)),
    }
}

/// The reported value of an integer variable, from what evaluating its constant gave.
pub open spec fn int_reading_text(e: Option<(Option<i64>, Seq<char>)>) -> ValueModel {
    match e {
        None => ValueModel::Text(under_constrained()),
        Some((Some(i), _)) => ValueModel::Text(int_text(i as int)),
        Some((None, z)) => ValueModel::Text(wide_int_text(z)),
    }
}

/// The reported value of a real variable, from what evaluating its constant gave.
pub open spec fn real_reading_text(e: Option<(Option<(i64, i64)>, Seq<char>)>) -> ValueModel {
    match e {
        None => ValueModel::Text(under_constrained()),
        Some((Some((n, d)), _)) => ratio_value(n, d),
        Some((None, z)) => ValueModel::Text(wide_real_text(z)),
    }
}

/// The reported value of a boolean variable, from what evaluating its constant gave.
pub open spec fn bool_reading_text(e: Option<(Option<bool>, Seq<char>)>) -> ValueModel {
    match e {
        None => ValueModel::Text(under_constrained()),
        Some((Some(b), _)) => ValueModel::Text(bool_word(b)),
        Some((None, z)) => ValueModel::Text(odd_bool_text(z)),
    }
}

/// Reads an integer variable's value from what evaluating its constant gave.
pub fn read_int_value(evaluated: Option<(Option<i64>, String)>) -> (v: ValueText)
    ensures
        v@ == int_reading_text(evaluation_view(evaluated)),
{
    match evaluated {
        None => ValueText::Text(String::from_str("<under-constrained>")),
        Some((Some(i), _)) => {
            let mut t = String::new();
            append_i64(&mut t, i);
            assert(t@ =~= int_text(i as int));
            ValueText::Text(t)
        },
        Some((None, z)) => ValueText::Text(wide_int_value(z)),
    }
}

/// Reads a real variable's value from what evaluating its constant gave.
pub fn read_real_value(evaluated: Option<(Option<(i64, i64)>, String)>) -> (v: ValueText)
    ensures
        v@ == real_reading_text(evaluation_view(evaluated)),
{
    match evaluated {
        None => ValueText::Text(String::from_str("<under-constrained>")),
        Some((Some((n, d)), _)) => ratio_value_text(n, d),
        Some((None, z)) => ValueText::Text(wide_real_value(z)),
    }
}

/// Reads a boolean variable's value from what evaluating its constant gave.
pub fn read_bool_value(evaluated: Option<(Option<bool>, String)>) -> (v: ValueText)
    ensures
        v@ == bool_reading_text(evaluation_view(evaluated)),
{
    match evaluated {
        None => ValueText::Text(String::from_str("<under-constrained>")),
        Some((Some(b), _)) => {
            let t = if b { String::from_str("true") } else { String::from_str("false") };
            ValueText::Text(t)
        },
        Some((None, z)) => ValueText::Text(odd_bool_value(z)),
    }
}

/// Whether `v` is a value that evaluating a variable of sort `s` can report.
pub open spec fn possible_reading(s: SortModel, v: ValueModel) -> bool {
    match s {
        SortModel::Int => v matches ValueModel::Text(t) && (
            (exists|i: i64| t == int_text(i as int)) || (exists|z: Seq<char>| t == wide_int_text(z))
            || t == under_constrained()),
        SortModel::Real => (exists|n: i64, d: i64| v == ratio_value(n, d))
            || (exists|z: Seq<char>| v == ValueModel::Text(wide_real_text(z)))
            || v == ValueModel::Text(under_constrained()),
        SortModel::Bool => v matches ValueModel::Text(t) && (
            t == bool_word(true) || t == bool_word(false) || (exists|z: Seq<char>| t == odd_bool_text(z))
            || t == under_constrained()),
    }
}

// ============================================================================
// Ordering assignments by name
// ============================================================================

/// `a` comes before `b` in lexicographic order of code points (the order of `String`).
pub open spec fn seq_less(a: Seq<char>, b: Seq<char>) -> bool
    decreases a.len(),
{
    if a.len() == 0 {
        b.len() > 0
    } else if b.len() == 0 {
        false
    } else if a[0] != b[0] {
        (a[0] as u32) < (b[0] as u32)
    } else {
        seq_less(a.drop_first(), b.drop_first())
    }
}

/// `x` placed into `sorted` after every entry whose name does not come after its own.
pub open spec fn insert_by_name<V>(sorted: Seq<(Seq<char>, V)>, x: (Seq<char>, V)) -> Seq<(Seq<char>, V)>
    decreases sorted.len(),
{
    if sorted.len() == 0 {
        seq![x]
    } else if seq_less(x.0, sorted[0].0) {
        seq![x] + sorted
    } else {
        seq![sorted[0]] + insert_by_name(sorted.drop_first(), x)
    }
}

/// The entries of `s` in order of name; entries of equal names keep their order.
pub open spec fn sort_by_name_spec<V>(s: Seq<(Seq<char>, V)>) -> Seq<(Seq<char>, V)>
    decreases s.len(),
{
    if s.len() == 0 {
        s
    } else {
        insert_by_name(sort_by_name_spec(s.drop_last()), s.last())
    }
}

/// No name comes before itself.
pub proof fn lemma_seq_less_irreflexive(a: Seq<char>)
    ensures
        !seq_less(a, a),
    decreases a.len(),
{
    if a.len() > 0 {
        lemma_seq_less_irreflexive(a.drop_first());
    }
}

/// The order of names is transitive.
pub proof fn lemma_seq_less_transitive(a: Seq<char>, b: Seq<char>, c: Seq<char>)
    requires
        seq_less(a, b),
        seq_less(b, c),
    ensures
        seq_less(a, c),
    decreases a.len(),
{
    if a.len() > 0 && a[0] == b[0] && b[0] == c[0] {
        lemma_seq_less_transitive(a.drop_first(), b.drop_first(), c.drop_first());
    }
}

/// The entries are in order of name: no entry's name comes before an earlier one's.
pub open spec fn sorted_by_name<V>(s: Seq<(Seq<char>, V)>) -> bool {
    forall|i: int, j: int| 0 <= i < j < s.len() ==> !seq_less(#[trigger] s[j].0, #[trigger] s[i].0)
}

proof fn lemma_insert_by_name_multiset<V>(sorted: Seq<(Seq<char>, V)>, x: (Seq<char>, V))
    ensures
        insert_by_name(sorted, x).to_multiset() =~= sorted.to_multiset().insert(x),
    decreases sorted.len(),
{
    broadcast use vstd::seq_lib::group_to_multiset_ensures, vstd::multiset::group_multiset_axioms;
    if sorted.len() == 0 {
        assert(seq![x] =~= sorted.push(x));
    } else {
        let rest = sorted.drop_first();
        assert(sorted =~= seq![sorted[0]] + rest);
        vstd::seq_lib::lemma_multiset_commutative(seq![sorted[0]], rest);
        assert(seq![sorted[0]] =~= Seq::<(Seq<char>, V)>::empty().push(sorted[0]));
        assert(seq![x] =~= Seq::<(Seq<char>, V)>::empty().push(x));
        if seq_less(x.0, sorted[0].0) {
            vstd::seq_lib::lemma_multiset_commutative(seq![x], sorted);
        } else {
            lemma_insert_by_name_multiset(rest, x);
            vstd::seq_lib::lemma_multiset_commutative(seq![sorted[0]], insert_by_name(rest, x));
        }
    }
}

proof fn lemma_insert_by_name_sorted<V>(sorted: Seq<(Seq<char>, V)>, x: (Seq<char>, V))
    requires
        sorted_by_name(sorted),
    ensures
        sorted_by_name(insert_by_name(sorted, x)),
    decreases sorted.len(),
{
    broadcast use vstd::seq_lib::group_to_multiset_ensures, vstd::multiset::group_multiset_axioms;
    if sorted.len() == 0 {
    } else if seq_less(x.0, sorted[0].0) {
        let r = seq![x] + sorted;
        assert forall|i: int, j: int| 0 <= i < j < r.len() implies !seq_less(#[trigger] r[j].0, #[trigger] r[i].0) by {
            if i == 0 {
                assert(r[j] == sorted[j - 1]);
                if seq_less(sorted[j - 1].0, x.0) {
                    lemma_seq_less_transitive(sorted[j - 1].0, x.0, sorted[0].0);
                    if j - 1 == 0 {
                        lemma_seq_less_irreflexive(sorted[0].0);
                    }
                }
            } else {
                assert(r[i] == sorted[i - 1] && r[j] == sorted[j - 1]);
            }
        }
    } else {
        let rest = sorted.drop_first();
        assert(sorted_by_name(rest)) by {
            assert forall|i: int, j: int| 0 <= i < j < rest.len() implies !seq_less(#[trigger] rest[j].0, #[trigger] rest[i].0) by {
                assert(rest[i] == sorted[i + 1] && rest[j] == sorted[j + 1]);
            }
        }
        lemma_insert_by_name_sorted(rest, x);
        lemma_insert_by_name_multiset(rest, x);
        let t = insert_by_name(rest, x);
        let r = seq![sorted[0]] + t;
        assert forall|i: int, j: int| 0 <= i < j < r.len() implies !seq_less(#[trigger] r[j].0, #[trigger] r[i].0) by {
            if i == 0 {
                let y = t[j - 1];
                assert(r[j] == y);
                assert(t.contains(y));
                assert(t.to_multiset().count(y) > 0);
                if y != x {
                    assert(rest.to_multiset().count(y) > 0);
                    let k = choose|k: int| 0 <= k < rest.len() && rest[k] == y;
                    assert(sorted[k + 1] == y);
                }
            } else {
                assert(r[i] == t[i - 1] && r[j] == t[j - 1]);
            }
        }
    }
}

/// Sorting by name orders the entries by name and keeps every entry: the result
/// holds the same entries, as often as the input does.
pub proof fn lemma_sort_by_name_sorted_permutation<V>(s: Seq<(Seq<char>, V)>)
    ensures
        sorted_by_name(sort_by_name_spec(s)),
        sort_by_name_spec(s).to_multiset() == s.to_multiset(),
        sort_by_name_spec(s).len() == s.len(),
    decreases s.len(),
{
    broadcast use vstd::seq_lib::group_to_multiset_ensures;
    if s.len() > 0 {
        lemma_sort_by_name_sorted_permutation(s.drop_last());
        lemma_insert_by_name_sorted(sort_by_name_spec(s.drop_last()), s.last());
        lemma_insert_by_name_multiset(sort_by_name_spec(s.drop_last()), s.last());
        assert(s =~= s.drop_last().push(s.last()));
    }
    assert(sort_by_name_spec(s).to_multiset().len() == sort_by_name_spec(s).len());
    assert(s.to_multiset().len() == s.len());
}

/// Names and values of a list of assignments.
pub open spec fn assignments_view(v: Seq<(String, ValueText)>) -> Seq<(Seq<char>, ValueModel)> {
    v.map_values(|p: (String, ValueText)| (p.0@, p.1@))
}

fn chars_of(s: &String) -> (v: Vec<char>)
    ensures
        v@ == s@,
{
    let mut v: Vec<char> = Vec::new();
    for ch in it: s.as_str().chars()
        invariant
            it.seq() == s@,
            v@ == s@.take(it.index() as int),
    {
        assert(s@.take(it.index() + 1) =~= v@.push(ch));
        v.push(ch);
    }
    assert(s@.take(s@.len() as int) =~= s@);
    v
}

/// Whether `a` comes before `b` in the order of `String`.
pub fn name_less(a: &String, b: &String) -> (r: bool)
    ensures
        r == seq_less(a@, b@),
{
    let av = chars_of(a);
    let bv = chars_of(b);
    let mut i: usize = 0;
    assert(a@.skip(0) =~= a@);
    assert(b@.skip(0) =~= b@);
    while i < av.len() && i < bv.len()
        invariant
            i <= av@.len(),
            i <= bv@.len(),
            av@ == a@,
            bv@ == b@,
            seq_less(a@, b@) == seq_less(a@.skip(i as int), b@.skip(i as int)),
        decreases av.len() - i,
    {
        let ghost sa = a@.skip(i as int);
        let ghost sb = b@.skip(i as int);
        assert(sa[0] == a@[i as int]);
        assert(sb[0] == b@[i as int]);
        if av[i] != bv[i] {
            return (av[i] as u32) < (bv[i] as u32);
        }
        assert(sa.drop_first() =~= a@.skip(i + 1));
        assert(sb.drop_first() =~= b@.skip(i + 1));
        i = i + 1;
    }
    assert(a@.skip(i as int).len() == a@.len() - i);
    i == av.len() && i < bv.len()
}

/// Placing `x` at the first position whose entry comes after it is `insert_by_name`.
pub proof fn lemma_insert_position<V>(sorted: Seq<(Seq<char>, V)>, x: (Seq<char>, V), j: int)
    requires
        0 <= j <= sorted.len(),
        forall|k: int| 0 <= k < j ==> !seq_less(x.0, #[trigger] sorted[k].0),
        j < sorted.len() ==> seq_less(x.0, sorted[j].0),
    ensures
        insert_by_name(sorted, x) == sorted.insert(j, x),
    decreases sorted.len(),
{
    if sorted.len() == 0 {
        assert(sorted.insert(j, x) =~= seq![x]);
    } else if j == 0 {
        assert(sorted.insert(0, x) =~= seq![x] + sorted);
    } else {
        assert(!seq_less(x.0, sorted[0].0));
        let rest = sorted.drop_first();
        assert forall|k: int| 0 <= k < j - 1 implies !seq_less(x.0, #[trigger] rest[k].0) by {
            assert(rest[k] == sorted[k + 1]);
        }
        lemma_insert_position(rest, x, j - 1);
        assert(seq![sorted[0]] + rest.insert(j - 1, x) =~= sorted.insert(j, x));
    }
}

/// The assignments ordered by name; assignments of equal names keep their order.
pub fn sort_by_name(items: Vec<(String, ValueText)>) -> (r: Vec<(String, ValueText)>)
    ensures
        assignments_view(r@) == sort_by_name_spec(assignments_view(items@)),
{
    let ghost orig = assignments_view(items@);
    let mut rest = items;
    let mut sorted: Vec<(String, ValueText)> = Vec::new();
    let ghost mut k: int = 0;
    while rest.len() > 0
        invariant
            0 <= k <= orig.len(),
            assignments_view(rest@) == orig.skip(k),
            assignments_view(sorted@) == sort_by_name_spec(orig.take(k)),
        decreases rest.len(),
    {
        proof {
            let rv = assignments_view(rest@);
            assert(rv.len() == rest@.len());
            assert(rv[0] == orig.skip(k)[0]);
        }
        let ghost rest_before = rest@;
        let x = rest.remove(0);
        let ghost xv = (x.0@, x.1@);
        assert(xv == orig[k]);
        let mut j: usize = 0;
        let mut found = false;
        while j < sorted.len() && !found
            invariant
                j <= sorted@.len(),
                xv.0 == x.0@,
                forall|m: int| 0 <= m < j ==> !seq_less(xv.0, #[trigger] assignments_view(sorted@)[m].0),
                found ==> j < sorted@.len() && seq_less(xv.0, sorted@[j as int].0@),
            decreases sorted.len() - j, if found { 0int } else { 1int },
        {
            if name_less(&x.0, &sorted[j].0) {
                found = true;
            } else {
                assert(assignments_view(sorted@)[j as int].0 == sorted@[j as int].0@);
                j = j + 1;
            }
        }
        proof {
            let sv = assignments_view(sorted@);
            if j < sorted@.len() {
                assert(found);
                assert(sv[j as int].0 == sorted@[j as int].0@);
            }
            lemma_insert_position(sv, xv, j as int);
            assert(orig.take(k + 1).drop_last() =~= orig.take(k));
        }
        let ghost before = assignments_view(sorted@);
        sorted.insert(j, x);
        proof {
            assert(assignments_view(sorted@) =~= before.insert(j as int, xv));
            assert forall|m: int| 0 <= m < rest@.len() implies
                #[trigger] assignments_view(rest@)[m] == orig.skip(k + 1)[m] by {
                assert(rest@[m] == rest_before[m + 1]);
                assert(assignments_view(rest_before)[m + 1] == orig.skip(k)[m + 1]);
            }
            assert(assignments_view(rest@) =~= orig.skip(k + 1));
            k = k + 1;
        }
    }
    assert(orig.take(orig.len() as int) =~= orig);
    sorted
}

// ============================================================================
// The formatter
// ============================================================================

/// `name = value` lines, one per assignment, in order.
pub open spec fn lines_text(lines: Seq<(Seq<char>, Seq<char>)>) -> Seq<char>
    decreases lines.len(),
{
    if lines.len() == 0 {
        Seq::empty()
    } else {
        lines_text(lines.drop_last()) + lines.last().0 + " = "@ + lines.last().1 + "\n"@
    }
}

/// The text of the assignments, one `name = value` line each, in the order given.
pub fn render_assignments(lines: &Vec<(String, String)>) -> (s: String)
    ensures
        s@ == lines_text(lines@.map_values(|p: (String, String)| (p.0@, p.1@))),
{
    let ghost views = lines@.map_values(|p: (String, String)| (p.0@, p.1@));
    let mut s = String::new();
    let mut i: usize = 0;
    while i < lines.len()
        invariant
            i <= lines@.len(),
            views == lines@.map_values(|p: (String, String)| (p.0@, p.1@)),
            s@ == lines_text(views.take(i as int)),
        decreases lines.len() - i,
    {
        append_str(&mut s, lines[i].0.as_str());
        append_str(&mut s, " = ");
        append_str(&mut s, lines[i].1.as_str());
        append_str(&mut s, "\n");
        assert(views.take(i + 1).drop_last() =~= views.take(i as int));
        i = i + 1;
    }
    assert(views.take(lines@.len() as int) =~= views);
    s
}

/// Reads the values of a list of variables out of a Z3 model.
pub struct SolutionFormatter<'a> {
    /// The Z3 constants of the translated variables.
    pub variables: &'a Vec<(String, Z3Ast)>,
    /// The variables to report.
    pub var_list: Vec<&'a Variable>,
}

/// The sort of the constant of the variable named `name`.
pub open spec fn var_sort(variables: Seq<(String, Z3Ast)>, name: Seq<char>) -> Option<SortModel> {
    lookup_sort(entries_view(variables), name)
}

/// The outcome of reading the listed variables whose constants all exist: for some
/// possible reading of each, the assignments sorted by name.
pub open spec fn readings_of(variables: Seq<(String, Z3Ast)>, vars: Seq<&Variable>, r: Seq<(Seq<char>, ValueModel)>) -> bool {
    exists|vals: Seq<ValueModel>| {
        &&& vals.len() == vars.len()
        &&& (forall|i: int| 0 <= i < vars.len() ==>
                possible_reading(var_sort(variables, vars[i].name@)->0, #[trigger] vals[i]))
        &&& r == sort_by_name_spec(Seq::new(vars.len(), |i: int| (vars[i].name@, vals[i])))
    }
}

/// `e` names a listed variable that has no constant.
pub open spec fn missing_variable(variables: Seq<(String, Z3Ast)>, vars: Seq<&Variable>, e: FormatterErrorModel) -> bool {
    exists|i: int| 0 <= i < vars.len() && #[trigger] var_sort(variables, vars[i].name@) is None
        && e == (FormatterErrorModel::VariableNotInModel { var_name: vars[i].name@ })
}

/// Every listed variable has a constant.
pub open spec fn all_translated(variables: Seq<(String, Z3Ast)>, vars: Seq<&Variable>) -> bool {
    forall|i: int| 0 <= i < vars.len() ==> #[trigger] var_sort(variables, vars[i].name@) is Some
}

impl<'a> SolutionFormatter<'a> {
    /// A formatter for the variables `var_list` with constants `variables`.
    pub fn new(variables: &'a Vec<(String, Z3Ast)>, var_list: Vec<&'a Variable>) -> (f: SolutionFormatter<'a>)
        ensures
            f.variables == variables,
            f.var_list@ == var_list@,
    {
        SolutionFormatter { variables, var_list }
    }

    /// The constant of the variable named `name`.
    fn constant_of(&self, name: &String) -> (r: Option<&Z3Ast>)
        ensures
            match var_sort(self.variables@, name@) {
                Some(s) => r matches Some(a) && sort_of(*a) == s,
                None => r is None,
            },
    {
        let ghost vars = entries_view(self.variables@);
        proof {
            lemma_name_index(vars, name@, 0);
        }
        let mut i: usize = 0;
        while i < self.variables.len()
            invariant
                i <= self.variables@.len(),
                vars == entries_view(self.variables@),
                name_index(vars, name@, 0) == name_index(vars, name@, i as int),
            decreases self.variables.len() - i,
        {
            assert(vars[i as int].0 == self.variables@[i as int].0@);
            if self.variables[i].0 == *name {
                assert(name_index(vars, name@, 0) == Some(i as int));
                assert(vars[i as int].1 == sort_of(self.variables@[i as int].1));
                return Some(&self.variables[i].1);
            }
            i = i + 1;
        }
        None
    }

    /// The value of `var` in `model`. Nothing constrains a variable whose evaluation
    /// does not give a numeral or literal.
    pub fn format_variable(&self, var: &Variable, model: &Model) -> (r: Result<ValueText, SolutionFormatterError>)
        ensures
            match var_sort(self.variables@, var.name@) {
                None => r matches Err(e) && e@ == FormatterErrorModel::VariableNotInModel { var_name: var.name@ },
                Some(s) => r matches Ok(v) && possible_reading(s, v@),
            },
    {
        let z3_var = match self.constant_of(&var.name) {
            Some(a) => a,
            None => {
                return Err(SolutionFormatterError::VariableNotInModel { var_name: var.name.clone() });
            },
        };
        match z3_var {
            Z3Ast::Int(a) => {
                let evaluated = match eval_int(model, a.ast()) {
                    None => None,
                    Some(v) => Some((int_value(&v), z3_int_text(&v))),
                };
                let ghost ev = evaluation_view(evaluated);
                let value = read_int_value(evaluated);
                proof {
                    match ev {
                        Some((Some(i), _)) => { assert(value@ == ValueModel::Text(int_text(i as int))); },
                        Some((None, z)) => { assert(value@ == ValueModel::Text(wide_int_text(z))); },
                        None => {},
                    }
                }
                Ok(value)
            },
            Z3Ast::Real(a) => {
                let evaluated = match eval_real(model, a.ast()) {
                    None => None,
                    Some(v) => Some((real_value(&v), real_text(&v))),
                };
                let ghost ev = evaluation_view(evaluated);
                let value = read_real_value(evaluated);
                proof {
                    match ev {
                        Some((Some((n, d)), _)) => { assert(value@ == ratio_value(n, d)); },
                        Some((None, z)) => { assert(value@ == ValueModel::Text(wide_real_text(z))); },
                        None => {},
                    }
                }
                Ok(value)
            },
            Z3Ast::Bool(a) => {
                let evaluated = match eval_bool(model, a.ast()) {
                    None => None,
                    Some(v) => Some((bool_value(&v), bool_text(&v))),
                };
                let ghost ev = evaluation_view(evaluated);
                let value = read_bool_value(evaluated);
                proof {
                    match ev {
                        Some((None, z)) => { assert(value@ == ValueModel::Text(odd_bool_text(z))); },
                        _ => {},
                    }
                }
                Ok(value)
            },
        }
    }

    /// The values of the listed variables in `model`, sorted by variable name.
    pub fn format_model(&self, model: &Model) -> (r: Result<Vec<(String, ValueText)>, SolutionFormatterError>)
        ensures
            all_translated(self.variables@, self.var_list@) <==> r is Ok,
            r matches Ok(v) ==> readings_of(self.variables@, self.var_list@, assignments_view(v@)),
            r matches Err(e) ==> missing_variable(self.variables@, self.var_list@, e@),
    {
        let ghost vars = self.var_list@;
        let mut assignments: Vec<(String, ValueText)> = Vec::new();
        let ghost mut vals: Seq<ValueModel> = Seq::empty();
        let mut i: usize = 0;
        while i < self.var_list.len()
            invariant
                i <= vars.len(),
                vars == self.var_list@,
                vals.len() == i,
                assignments@.len() == i,
                forall|k: int| 0 <= k < i ==> #[trigger] var_sort(self.variables@, vars[k].name@) is Some,
                forall|k: int| 0 <= k < i ==>
                    possible_reading(var_sort(self.variables@, vars[k].name@)->0, #[trigger] vals[k]),
                assignments_view(assignments@) == Seq::new(i as nat, |k: int| (vars[k].name@, vals[k])),
            decreases self.var_list.len() - i,
        {
            let var = self.var_list[i];
            let value = match self.format_variable(var, model) {
                Ok(v) => v,
                Err(e) => {
                    return Err(e);
                },
            };
            let ghost before = assignments_view(assignments@);
            let ghost old_vals = vals;
            proof {
                vals = vals.push(value@);
                assert forall|k: int| 0 <= k < i implies before[k] == (vars[k].name@, vals[k]) by {
                    assert(vals[k] == old_vals[k]);
                }
            }
            let name = var.name.clone();
            assert(name@ == vars[i as int].name@);
            assignments.push((name, value));
            assert(assignments_view(assignments@)[i as int] == (vars[i as int].name@, vals[i as int]));
            assert(forall|k: int| 0 <= k < i ==> assignments_view(assignments@)[k] == before[k]);
            assert(assignments_view(assignments@).len() == i + 1);
            assert forall|k: int| 0 <= k < i + 1 implies
                #[trigger] assignments_view(assignments@)[k] == (vars[k].name@, vals[k]) by {
                if k < i {
                    assert(assignments_view(assignments@)[k] == before[k]);
                }
            }
            assert(assignments_view(assignments@) =~= Seq::new((i + 1) as nat, |k: int| (vars[k].name@, vals[k])));
            i = i + 1;
        }
        let sorted = sort_by_name(assignments);
        assert(readings_of(self.variables@, vars, assignments_view(sorted@)));
        Ok(sorted)
    }

    /// Checks the solver and, when it finds the constraints satisfiable, reads the
    /// values of the listed variables out of its model, sorted by variable name.
    /// Whether the constraints are satisfiable is the solver's answer.
    pub fn format_solution(&self, solver: &z3::Solver) -> (r: Result<Vec<(String, ValueText)>, SolutionFormatterError>)
        ensures
            r matches Ok(v) ==> readings_of(self.variables@, self.var_list@, assignments_view(v@)),
            r matches Err(e) ==> (e@ is Unsat || e@ is Unknown
                || missing_variable(self.variables@, self.var_list@, e@)),
    {
        match solver_check(solver) {
            CheckOutcome::Sat => match solver_model(solver) {
                Some(model) => self.format_model(&model),
                None => Err(SolutionFormatterError::Unknown),
            },
            CheckOutcome::Unsat => Err(SolutionFormatterError::Unsat),
            CheckOutcome::Unknown => Err(SolutionFormatterError::Unknown),
        }
    }
}

} // verus!
