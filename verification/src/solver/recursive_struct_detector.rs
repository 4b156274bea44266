//! Detection of struct definitions that contain themselves.
//!
//! Flattening a struct into its primitive fields never ends when a struct reaches
//! itself through its field types (references and arrays are looked through).
//! A depth-first search from the struct keeps the path of structs being visited;
//! meeting a struct already on that path closes a cycle.

use vstd::prelude::*;
use vstd::set_lib::*;
use crate::hir::{ResolvedType, FieldDefinition, StructTable, ty_size, fields_size, type_in_table, table_wf, type_mentions, child_struct, bounded, fields_bounded};
use crate::lexer::Span;
use crate::text::{append_str, append_u64, decimal, join_strings, joined};

verus! {

/// A struct that reaches itself through its fields.
#[derive(Debug)]
pub struct RecursiveStructError {
    /// Names of the structs along the cycle; the last name closes it (e.g. `A, B, A`).
    pub cycle_path: Vec<String>,
    /// Span of the struct that closes the cycle.
    pub span: Span,
}

/// `Recursive struct detected at line L, column C: A → B → A. Recursive structs cannot be solved.`
pub open spec fn recursive_struct_text(span: Span, cycle: Seq<Seq<char>>) -> Seq<char> {
    "Recursive struct detected at line "@ + decimal(span.start.line as nat) + ", column "@
        + decimal(span.start.column as nat) + ": "@ + joined(cycle, " → "@)
        + ". Recursive structs cannot be solved."@
}

impl RecursiveStructError {
    /// The message of the error.
    pub fn to_text(&self) -> (s: String)
        ensures
            s@ == recursive_struct_text(self.span, self.cycle_path@.map_values(|x: String| x@)),
    {
        let mut s = String::from_str("Recursive struct detected at line ");
        append_u64(&mut s, self.span.start.line as u64);
        append_str(&mut s, ", column ");
        append_u64(&mut s, self.span.start.column as u64);
        append_str(&mut s, ": ");
        let cycle = join_strings(&self.cycle_path, " → ");
        append_str(&mut s, cycle.as_str());
        append_str(&mut s, ". Recursive structs cannot be solved.");
        s
    }
}

/// The result of the depth-first search over `ty` while the structs `path` are being
/// visited: the struct indices of the first cycle met, extended by the struct closing it.
pub open spec fn dfs_type(table: StructTable, ty: ResolvedType, path: Seq<usize>) -> Result<(), Seq<usize>>
    decreases table.defs@.len() - path.len(), ty_size(ty),
{
    match ty {
        ResolvedType::Reference { inner, .. } => dfs_type(table, *inner, path),
        ResolvedType::Array { element_type, .. } => dfs_type(table, *element_type, path),
        ResolvedType::UserDefined { definition, .. } => dfs_user(table, definition, path),
        _ => Ok(()),
    }
}

/// The search entering struct `d` while the structs `path` are being visited.
pub open spec fn dfs_user(table: StructTable, d: usize, path: Seq<usize>) -> Result<(), Seq<usize>>
    decreases table.defs@.len() - path.len(), 0nat,
{
    if path.contains(d) {
        Err(path.push(d))
    } else if d >= table.defs@.len() || path.len() >= table.defs@.len() {
        Ok(())
    } else {
        dfs_fields(table, table.defs@[d as int].fields@, 0, path.push(d))
    }
}

/// The search over the field types `fields[i..]`, in order, stopping at the first cycle.
pub open spec fn dfs_fields(table: StructTable, fields: Seq<FieldDefinition>, i: int, path: Seq<usize>) -> Result<(), Seq<usize>>
    decreases table.defs@.len() - path.len(), fields_size(fields, i),
{
    if i < 0 || i >= fields.len() {
        Ok(())
    } else {
        match dfs_type(table, fields[i].field_type, path) {
            Err(c) => Err(c),
            Ok(()) => dfs_fields(table, fields, i + 1, path),
        }
    }
}

/// The search started at struct `root`.
pub open spec fn dfs_struct(table: StructTable, root: usize) -> Result<(), Seq<usize>> {
    dfs_user(table, root, Seq::empty())
}

/// Names of the structs with indices `ids`.
pub open spec fn struct_names(table: StructTable, ids: Seq<usize>) -> Seq<Seq<char>> {
    ids.map_values(|d: usize| table.defs@[d as int].name@)
}

/// `ids` is a chain of structs starting at `root`, each a field type of the one before,
/// whose last struct already occurs earlier in the chain.
pub open spec fn is_cycle_witness(table: StructTable, root: usize, ids: Seq<usize>) -> bool {
    &&& ids.len() >= 2
    &&& ids[0] == root
    &&& forall|k: int| 0 <= k < ids.len() - 1 ==> #[trigger] child_struct(table, ids[k] as int, ids[k + 1] as int)
    &&& exists|j: int| 0 <= j < ids.len() - 1 && ids[j] == ids.last()
}

/// The error that the search reports for the cycle `ids`.
pub open spec fn cycle_error_matches(table: StructTable, ids: Seq<usize>, e: RecursiveStructError) -> bool {
    &&& e.cycle_path@.map_values(|s: String| s@) == struct_names(table, ids)
    &&& ids.len() > 0
    &&& e.span == table.defs@[ids.last() as int].span
}

// ----------------------------------------------------------------------------
// Lemmas
// ----------------------------------------------------------------------------

/// A duplicate-free sequence of indices below `n` has at most `n` elements.
proof fn lemma_distinct_len(path: Seq<usize>, n: int)
    requires
        path.no_duplicates(),
        forall|k: int| 0 <= k < path.len() ==> path[k] < n,
        n >= 0,
    ensures
        path.len() <= n,
{
    let s = path.map_values(|x: usize| x as int);
    assert forall|a: int, b: int| 0 <= a < s.len() && 0 <= b < s.len() && a != b implies s[a] != s[b] by {
        assert(path[a] != path[b]);
    }
    assert(s.no_duplicates());
    s.unique_seq_to_set();
    lemma_int_range(0, n);
    assert(s.to_set().subset_of(set_int_range(0, n)));
    lemma_len_subset(s.to_set(), set_int_range(0, n));
}

/// Whether the search finds a cycle in `fields[0..]` once it has passed `fields[0..i]` cleanly.
proof fn lemma_dfs_fields_prefix(table: StructTable, fields: Seq<FieldDefinition>, i: int, path: Seq<usize>)
    requires
        0 <= i <= fields.len(),
        forall|j: int| 0 <= j < i ==> #[trigger] dfs_type(table, fields[j].field_type, path) is Ok,
    ensures
        dfs_fields(table, fields, 0, path) == dfs_fields(table, fields, i, path),
    decreases i,
{
    if i > 0 {
        lemma_dfs_fields_prefix(table, fields, i - 1, path);
        assert(dfs_type(table, fields[i - 1].field_type, path) is Ok);
    }
}

proof fn lemma_fields_bounded_prefix(table: StructTable, fields: Seq<FieldDefinition>, i: int, n: nat)
    requires
        0 <= i <= fields.len(),
        forall|j: int| 0 <= j < i ==> #[trigger] bounded(table, fields[j].field_type, n),
        fields_bounded(table, fields, i, n),
    ensures
        fields_bounded(table, fields, 0, n),
    decreases i,
{
    if i > 0 {
        assert(bounded(table, fields[i - 1].field_type, n));
        lemma_fields_bounded_prefix(table, fields, i - 1, n);
    }
}

pub proof fn lemma_fields_bounded_each(table: StructTable, fields: Seq<FieldDefinition>, i: int, n: nat, f: int)
    requires
        fields_bounded(table, fields, i, n),
        0 <= i <= f < fields.len(),
    ensures
        bounded(table, fields[f].field_type, n),
    decreases f - i,
{
    if i < f {
        lemma_fields_bounded_each(table, fields, i + 1, n, f);
    }
}

/// The depth bound of a struct, as a predicate of its index alone.
pub open spec fn struct_bounded(table: StructTable, d: int, n: nat) -> bool {
    &&& n > 0
    &&& 0 <= d < table.defs@.len()
    &&& fields_bounded(table, table.defs@[d].fields@, 0, (n - 1) as nat)
}

/// Structs mentioned by a bounded type are bounded by the same depth.
proof fn lemma_bounded_mentions(table: StructTable, ty: ResolvedType, n: nat, d: int)
    requires
        bounded(table, ty, n),
        type_mentions(ty, d),
    ensures
        struct_bounded(table, d, n),
    decreases ty,
{
    match ty {
        ResolvedType::Reference { inner, .. } => lemma_bounded_mentions(table, *inner, n, d),
        ResolvedType::Array { element_type, .. } => lemma_bounded_mentions(table, *element_type, n, d),
        ResolvedType::UserDefined { definition, .. } => {},
        _ => {},
    }
}

/// A bounded struct's field structs are bounded one level less.
proof fn lemma_child_bounded(table: StructTable, a: int, b: int, n: nat)
    requires
        struct_bounded(table, a, n),
        child_struct(table, a, b),
    ensures
        n > 0,
        struct_bounded(table, b, (n - 1) as nat),
{
    let fields = table.defs@[a].fields@;
    let f = choose|f: int| 0 <= f < fields.len() && #[trigger] type_mentions(fields[f].field_type, b);
    lemma_fields_bounded_each(table, fields, 0, (n - 1) as nat, f);
    lemma_bounded_mentions(table, fields[f].field_type, (n - 1) as nat, b);
}

/// Walking a chain of field structs from position `k1` to `k2` uses up `k2 - k1` levels.
proof fn lemma_chain_bounded(table: StructTable, ids: Seq<usize>, k1: int, k2: int, n: nat)
    requires
        0 <= k1 <= k2 < ids.len(),
        forall|k: int| 0 <= k < ids.len() - 1 ==> #[trigger] child_struct(table, ids[k] as int, ids[k + 1] as int),
        struct_bounded(table, ids[k1] as int, n),
    ensures
        n >= k2 - k1,
        struct_bounded(table, ids[k2] as int, (n - (k2 - k1)) as nat),
    decreases k2 - k1,
{
    if k1 < k2 {
        assert(child_struct(table, ids[k1] as int, ids[k1 + 1] as int));
        lemma_child_bounded(table, ids[k1] as int, ids[k1 + 1] as int, n);
        lemma_chain_bounded(table, ids, k1 + 1, k2, (n - 1) as nat);
    }
}

/// A struct on a cycle has no depth bound.
proof fn lemma_cycle_unbounded(table: StructTable, ids: Seq<usize>, j: int, n: nat)
    requires
        0 <= j < ids.len() - 1,
        ids[j] == ids.last(),
        forall|k: int| 0 <= k < ids.len() - 1 ==> #[trigger] child_struct(table, ids[k] as int, ids[k + 1] as int),
    ensures
        !struct_bounded(table, ids[j] as int, n),
    decreases n,
{
    if struct_bounded(table, ids[j] as int, n) {
        lemma_chain_bounded(table, ids, j, ids.len() - 1, n);
        let m = (n - (ids.len() - 1 - j)) as nat;
        lemma_cycle_unbounded(table, ids, j, m);
    }
}

/// A struct that has a cycle witness has no depth bound.
pub proof fn lemma_witness_unbounded(table: StructTable, root: usize, ids: Seq<usize>, n: nat)
    requires
        is_cycle_witness(table, root, ids),
    ensures
        !struct_bounded(table, root as int, n),
{
    let j = choose|j: int| 0 <= j < ids.len() - 1 && ids[j] == ids.last();
    if struct_bounded(table, root as int, n) {
        lemma_chain_bounded(table, ids, 0, j, n);
        lemma_cycle_unbounded(table, ids, j, (n - j) as nat);
    }
}

/// The search succeeds only on types whose expansion is bounded, by the number of
/// structs not on the path.
proof fn lemma_dfs_type_ok(table: StructTable, ty: ResolvedType, path: Seq<usize>)
    requires
        table_wf(table),
        type_in_table(table, ty),
        path.no_duplicates(),
        forall|k: int| 0 <= k < path.len() ==> path[k] < table.defs@.len(),
        dfs_type(table, ty, path) is Ok,
    ensures
        path.len() <= table.defs@.len(),
        bounded(table, ty, (table.defs@.len() - path.len()) as nat),
    decreases table.defs@.len() - path.len(), ty_size(ty),
{
    lemma_distinct_len(path, table.defs@.len() as int);
    match ty {
        ResolvedType::Reference { inner, .. } => lemma_dfs_type_ok(table, *inner, path),
        ResolvedType::Array { element_type, .. } => lemma_dfs_type_ok(table, *element_type, path),
        ResolvedType::UserDefined { definition, .. } => {
            let p2 = path.push(definition);
            assert(dfs_type(table, ty, path) == dfs_user(table, definition, path));
            assert(!path.contains(definition));
            assert(p2.no_duplicates()) by {
                assert forall|a: int, b: int| 0 <= a < p2.len() && 0 <= b < p2.len() && a != b implies p2[a] != p2[b] by {
                    if a < path.len() && b < path.len() {
                    } else if a == path.len() {
                        assert(p2[b] == path[b]);
                    } else {
                        assert(p2[a] == path[a]);
                    }
                }
            }
            lemma_distinct_len(p2, table.defs@.len() as int);
            assert(dfs_user(table, definition, path) == dfs_fields(table, table.defs@[definition as int].fields@, 0, p2));
            lemma_dfs_fields_ok(table, definition as int, 0, p2);
        },
        _ => {},
    }
}

proof fn lemma_dfs_fields_ok(table: StructTable, d: int, i: int, path: Seq<usize>)
    requires
        table_wf(table),
        0 <= d < table.defs@.len(),
        0 <= i,
        path.no_duplicates(),
        forall|k: int| 0 <= k < path.len() ==> path[k] < table.defs@.len(),
        path.len() <= table.defs@.len(),
        dfs_fields(table, table.defs@[d].fields@, i, path) is Ok,
    ensures
        fields_bounded(table, table.defs@[d].fields@, i, (table.defs@.len() - path.len()) as nat),
    decreases table.defs@.len() - path.len(), fields_size(table.defs@[d].fields@, i),
{
    let fields = table.defs@[d].fields@;
    if i < fields.len() {
        assert(type_in_table(table, table.defs@[d].fields@[i].field_type));
        lemma_dfs_type_ok(table, fields[i].field_type, path);
        lemma_dfs_fields_ok(table, d, i + 1, path);
    }
}

/// Chain shape of a path: it starts at `root` and each struct is a field type of the one before.
pub open spec fn is_chain(table: StructTable, root: usize, path: Seq<usize>) -> bool {
    &&& path.len() >= 1
    &&& path[0] == root
    &&& forall|k: int| 0 <= k < path.len() - 1 ==> #[trigger] child_struct(table, path[k] as int, path[k + 1] as int)
}

/// A cycle reported by the search extends the current chain into a cycle witness.
proof fn lemma_dfs_type_err(table: StructTable, root: usize, ty: ResolvedType, path: Seq<usize>, outer: ResolvedType)
    requires
        is_chain(table, root, path),
        forall|d: int| #[trigger] type_mentions(ty, d) ==> type_mentions(outer, d),
        exists|f: int| 0 <= f < table.defs@[path.last() as int].fields@.len()
            && table.defs@[path.last() as int].fields@[f].field_type == outer,
        path.last() < table.defs@.len(),
        dfs_type(table, ty, path) is Err,
    ensures
        is_cycle_witness(table, root, dfs_type(table, ty, path)->Err_0),
    decreases table.defs@.len() - path.len(), ty_size(ty),
{
    match ty {
        ResolvedType::Reference { inner, .. } => {
            assert forall|d: int| #[trigger] type_mentions(*inner, d) implies type_mentions(outer, d) by {
                assert(type_mentions(ty, d));
            }
            lemma_dfs_type_err(table, root, *inner, path, outer);
        },
        ResolvedType::Array { element_type, .. } => {
            assert forall|d: int| #[trigger] type_mentions(*element_type, d) implies type_mentions(outer, d) by {
                assert(type_mentions(ty, d));
            }
            lemma_dfs_type_err(table, root, *element_type, path, outer);
        },
        ResolvedType::UserDefined { definition, .. } => {
            assert(dfs_type(table, ty, path) == dfs_user(table, definition, path));
            assert(type_mentions(ty, definition as int));
            let f = choose|f: int| 0 <= f < table.defs@[path.last() as int].fields@.len()
                && table.defs@[path.last() as int].fields@[f].field_type == outer;
            assert(type_mentions(table.defs@[path.last() as int].fields@[f].field_type, definition as int));
            assert(child_struct(table, path.last() as int, definition as int));
            let p2 = path.push(definition);
            assert forall|k: int| 0 <= k < p2.len() - 1 implies #[trigger] child_struct(table, p2[k] as int, p2[k + 1] as int) by {
                if k < path.len() - 1 {
                    assert(p2[k] == path[k] && p2[k + 1] == path[k + 1]);
                }
            }
            if path.contains(definition) {
                let j = choose|j: int| 0 <= j < path.len() && path[j] == definition;
                assert(p2[j] == p2.last());
            } else {
                assert(is_chain(table, root, p2));
                assert(definition < table.defs@.len());
                assert(dfs_user(table, definition, path) == dfs_fields(table, table.defs@[definition as int].fields@, 0, p2));
                lemma_dfs_fields_err(table, root, definition as int, 0, p2);
            }
        },
        _ => {},
    }
}

proof fn lemma_dfs_fields_err(table: StructTable, root: usize, d: int, i: int, path: Seq<usize>)
    requires
        is_chain(table, root, path),
        path.last() == d,
        0 <= d < table.defs@.len(),
        0 <= i,
        dfs_fields(table, table.defs@[d].fields@, i, path) is Err,
    ensures
        is_cycle_witness(table, root, dfs_fields(table, table.defs@[d].fields@, i, path)->Err_0),
    decreases table.defs@.len() - path.len(), fields_size(table.defs@[d].fields@, i),
{
    let fields = table.defs@[d].fields@;
    if i < fields.len() {
        let t = fields[i].field_type;
        if dfs_type(table, t, path) is Err {
            lemma_dfs_type_err(table, root, t, path, t);
        } else {
            lemma_dfs_fields_err(table, root, d, i + 1, path);
        }
    }
}

/// Law: the search from `root` finds no cycle exactly when expanding `root` into its
/// fields terminates, and every cycle it reports is a genuine cycle through `root`'s fields.
pub proof fn lemma_detect_cycles_sound_complete(table: StructTable, root: usize)
    requires
        table_wf(table),
        root < table.defs@.len(),
    ensures
        dfs_struct(table, root) is Ok <==> exists|n: nat| struct_bounded(table, root as int, n),
        dfs_struct(table, root) is Err ==> is_cycle_witness(table, root, dfs_struct(table, root)->Err_0),
{
    let p = seq![root];
    assert(Seq::<usize>::empty().push(root) =~= p);
    assert(p.no_duplicates());
    if dfs_struct(table, root) is Ok {
        lemma_distinct_len(p, table.defs@.len() as int);
        lemma_dfs_fields_ok(table, root as int, 0, p);
        let n = (table.defs@.len() - p.len() + 1) as nat;
        assert(struct_bounded(table, root as int, n));
    } else {
        assert(is_chain(table, root, p));
        lemma_dfs_fields_err(table, root, root as int, 0, p);
        let ids = dfs_struct(table, root)->Err_0;
        assert forall|n: nat| !struct_bounded(table, root as int, n) by {
            lemma_witness_unbounded(table, root, ids, n);
        }
    }
}

// ----------------------------------------------------------------------------
// Search
// ----------------------------------------------------------------------------

/// Detects whether struct `struct_def` reaches itself through its field types.
///
/// Returns `Ok(())` when it does not; otherwise the error names the structs along the
/// first cycle met by a depth-first search over the fields in declaration order.
pub fn detect_cycles(table: &StructTable, struct_def: usize) -> (r: Result<(), RecursiveStructError>)
    requires
        table_wf(*table),
        struct_def < table.defs@.len(),
    ensures
        r is Ok <==> dfs_struct(*table, struct_def) is Ok,
        r matches Err(e) ==> cycle_error_matches(*table, dfs_struct(*table, struct_def)->Err_0, e),
        r is Ok <==> exists|n: nat| struct_bounded(*table, struct_def as int, n),
        r is Err ==> is_cycle_witness(*table, struct_def, dfs_struct(*table, struct_def)->Err_0),
{
    proof {
        lemma_detect_cycles_sound_complete(*table, struct_def);
    }
    let mut path: Vec<usize> = Vec::new();
    visit_struct(table, struct_def, &mut path)
}

fn path_contains(path: &Vec<usize>, d: usize) -> (b: bool)
    ensures
        b == path@.contains(d),
{
    let mut i: usize = 0;
    while i < path.len()
        invariant
            i <= path.len(),
            forall|k: int| 0 <= k < i ==> path@[k] != d,
        decreases path.len() - i,
    {
        if path[i] == d {
            return true;
        }
        i = i + 1;
    }
    false
}

fn cycle_error(table: &StructTable, path: &Vec<usize>, d: usize) -> (e: RecursiveStructError)
    requires
        d < table.defs@.len(),
        forall|k: int| 0 <= k < path@.len() ==> path@[k] < table.defs@.len(),
    ensures
        cycle_error_matches(*table, path@.push(d), e),
{
    let ghost ids = path@.push(d);
    let mut names: Vec<String> = Vec::new();
    let mut i: usize = 0;
    while i < path.len()
        invariant
            i <= path.len(),
            ids == path@.push(d),
            forall|k: int| 0 <= k < path@.len() ==> path@[k] < table.defs@.len(),
            names@.map_values(|s: String| s@) == struct_names(*table, ids.take(i as int)),
        decreases path.len() - i,
    {
        let ghost before = names@;
        names.push(table.defs[path[i]].name.clone());
        assert(ids.take(i + 1) =~= ids.take(i as int).push(ids[i as int]));
        assert(ids[i as int] == path@[i as int]);
        assert(names@ =~= before.push(names@.last()));
        assert(names@.map_values(|s: String| s@) =~= before.map_values(|s: String| s@).push(names@.last()@));
        assert(struct_names(*table, ids.take(i + 1)) =~= struct_names(*table, ids.take(i as int)).push(table.defs@[path@[i as int] as int].name@));
        assert(names@.map_values(|s: String| s@) =~= struct_names(*table, ids.take(i + 1)));
        i = i + 1;
    }
    let ghost before = names@;
    names.push(table.defs[d].name.clone());
    assert(ids.take(path@.len() as int) =~= path@);
    assert(ids =~= path@.push(d));
    assert(names@ =~= before.push(names@.last()));
    assert(names@.map_values(|s: String| s@) =~= before.map_values(|s: String| s@).push(names@.last()@));
    assert(struct_names(*table, ids) =~= struct_names(*table, path@).push(table.defs@[d as int].name@));
    assert(names@.map_values(|s: String| s@) =~= struct_names(*table, ids));
    RecursiveStructError { cycle_path: names, span: table.defs[d].span }
}

fn visit_struct(table: &StructTable, d: usize, path: &mut Vec<usize>) -> (r: Result<(), RecursiveStructError>)
    requires
        table_wf(*table),
        d < table.defs@.len(),
        old(path)@.no_duplicates(),
        forall|k: int| 0 <= k < old(path)@.len() ==> old(path)@[k] < table.defs@.len(),
    ensures
        r is Ok <==> dfs_user(*table, d, old(path)@) is Ok,
        r matches Err(e) ==> cycle_error_matches(*table, dfs_user(*table, d, old(path)@)->Err_0, e),
        r is Ok ==> final(path)@ == old(path)@,
    decreases table.defs@.len() - old(path)@.len(), 0nat,
{
    if path_contains(path, d) {
        return Err(cycle_error(table, path, d));
    }
    let ghost p0 = path@;
    proof {
        let p2 = p0.push(d);
        assert forall|a: int, b: int| 0 <= a < p2.len() && 0 <= b < p2.len() && a != b implies p2[a] != p2[b] by {
            if a < p0.len() && b < p0.len() {
            } else if a == p0.len() {
                assert(p2[b] == p0[b]);
            } else {
                assert(p2[a] == p0[a]);
            }
        }
        lemma_distinct_len(p2, table.defs@.len() as int);
    }
    path.push(d);
    let ghost p1 = path@;
    let fields = &table.defs[d].fields;
    let mut i: usize = 0;
    while i < fields.len()
        invariant
            table_wf(*table),
            d < table.defs@.len(),
            fields@ == table.defs@[d as int].fields@,
            i <= fields@.len(),
            p1 == p0.push(d),
            p0 == old(path)@,
            !p0.contains(d),
            path@ == p1,
            p1.no_duplicates(),
            p1.len() <= table.defs@.len(),
            forall|k: int| 0 <= k < p1.len() ==> p1[k] < table.defs@.len(),
            forall|j: int| 0 <= j < i ==> #[trigger] dfs_type(*table, fields@[j].field_type, p1) is Ok,
        decreases fields.len() - i,
    {
        assert(type_in_table(*table, table.defs@[d as int].fields@[i as int].field_type));
        let res = visit_type(table, &fields[i].field_type, path);
        match res {
            Err(e) => {
                proof {
                    lemma_dfs_fields_prefix(*table, fields@, i as int, p1);
                    assert(dfs_user(*table, d, p0) == dfs_fields(*table, fields@, 0, p1));
                }
                return Err(e);
            },
            Ok(()) => {},
        }
        i = i + 1;
    }
    proof {
        lemma_dfs_fields_prefix(*table, fields@, fields@.len() as int, p1);
        assert(dfs_user(*table, d, p0) == dfs_fields(*table, fields@, 0, p1));
    }
    path.pop();
    assert(path@ =~= p0);
    Ok(())
}

fn visit_type(table: &StructTable, ty: &ResolvedType, path: &mut Vec<usize>) -> (r: Result<(), RecursiveStructError>)
    requires
        table_wf(*table),
        type_in_table(*table, *ty),
        old(path)@.no_duplicates(),
        old(path)@.len() <= table.defs@.len(),
        forall|k: int| 0 <= k < old(path)@.len() ==> old(path)@[k] < table.defs@.len(),
    ensures
        r is Ok <==> dfs_type(*table, *ty, old(path)@) is Ok,
        r matches Err(e) ==> cycle_error_matches(*table, dfs_type(*table, *ty, old(path)@)->Err_0, e),
        r is Ok ==> final(path)@ == old(path)@,
    decreases table.defs@.len() - old(path)@.len(), ty_size(*ty),
{
    match ty {
        ResolvedType::Bool { .. } | ResolvedType::I32 { .. } | ResolvedType::F64 { .. }
        | ResolvedType::Real { .. } | ResolvedType::Algebraic { .. } => Ok(()),
        ResolvedType::Reference { inner, .. } => visit_type(table, inner, path),
        ResolvedType::Array { element_type, .. } => visit_type(table, element_type, path),
        ResolvedType::UserDefined { definition, .. } => visit_struct(table, *definition, path),
    }
}

} // verus!
