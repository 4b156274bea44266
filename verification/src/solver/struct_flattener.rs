//! Flattening of struct and array types into their primitive fields.
//!
//! A variable of struct or array type stands for one solver variable per primitive
//! field, named by its path: `line.start.x`, `points[1].y`. References are looked
//! through.

use vstd::prelude::*;
use crate::hir::{ResolvedType, FieldDefinition, StructTable, ty_size, fields_size, type_in_table,
    table_wf, bounded, fields_bounded, type_span, is_primitive, copy_type};
use crate::lexer::Span;
use crate::text::{decimal, append_str, append_u64, push_char};
use crate::solver::recursive_struct_detector::lemma_fields_bounded_each;

verus! {

/// A primitive field of a (possibly nested) struct or array, with its qualified name.
#[derive(Debug)]
pub struct FlattenedField {
    /// Fully qualified name, e.g. `line.start.x`.
    pub full_name: String,
    /// The primitive type of the field.
    pub primitive_type: ResolvedType,
    /// Span of the field's type.
    pub span: Span,
}

/// The content of a flattened field: name, primitive type and span.
pub open spec fn field_view(f: FlattenedField) -> (Seq<char>, ResolvedType, Span) {
    (f.full_name@, f.primitive_type, f.span)
}

/// The name of field `field` under `prefix`: the bare field name when the prefix is empty.
pub open spec fn field_path(prefix: Seq<char>, field: Seq<char>) -> Seq<char> {
    if prefix.len() == 0 { field } else { prefix + seq!['.'] + field }
}

/// The name of element `i` under `prefix`: `prefix[i]`.
pub open spec fn index_path(prefix: Seq<char>, i: nat) -> Seq<char> {
    prefix + seq!['['] + decimal(i) + seq![']']
}

/// The primitive fields of `ty` named under `prefix`, in declaration and index order,
/// expanding at most `n` nested struct levels.
pub open spec fn flatten_spec(table: StructTable, prefix: Seq<char>, ty: ResolvedType, n: nat) -> Seq<(Seq<char>, ResolvedType, Span)>
    decreases n, ty_size(ty), 0nat,
{
    match ty {
        ResolvedType::Reference { inner, .. } => flatten_spec(table, prefix, *inner, n),
        ResolvedType::Array { element_type, size, .. } =>
            flatten_elements(table, prefix, *element_type, size as nat, 0, n),
        ResolvedType::UserDefined { definition, .. } => {
            if n == 0 || definition >= table.defs@.len() {
                Seq::empty()
            } else {
                flatten_fields(table, prefix, table.defs@[definition as int].fields@, 0, (n - 1) as nat)
            }
        },
        _ => seq![(prefix, ty, type_span(ty))],
    }
}

/// The primitive fields of elements `i..size` of an array of `element`.
pub open spec fn flatten_elements(table: StructTable, prefix: Seq<char>, element: ResolvedType, size: nat, i: nat, n: nat) -> Seq<(Seq<char>, ResolvedType, Span)>
    decreases n, ty_size(element), size - i,
{
    if i >= size {
        Seq::empty()
    } else {
        flatten_spec(table, index_path(prefix, i), element, n)
            + flatten_elements(table, prefix, element, size, i + 1, n)
    }
}

/// The primitive fields of the struct fields `fields[i..]`.
pub open spec fn flatten_fields(table: StructTable, prefix: Seq<char>, fields: Seq<FieldDefinition>, i: int, n: nat) -> Seq<(Seq<char>, ResolvedType, Span)>
    decreases n, fields_size(fields, i), 0nat,
{
    if i < 0 || i >= fields.len() {
        Seq::empty()
    } else {
        flatten_spec(table, field_path(prefix, fields[i].name@), fields[i].field_type, n)
            + flatten_fields(table, prefix, fields, i + 1, n)
    }
}

/// Expanding deeper than a depth that bounds the type changes nothing: the
/// flattening is the same at every depth from `n` on.
pub proof fn lemma_flatten_depth(table: StructTable, prefix: Seq<char>, ty: ResolvedType, n: nat, m: nat)
    requires
        bounded(table, ty, n),
        n <= m,
    ensures
        flatten_spec(table, prefix, ty, n) == flatten_spec(table, prefix, ty, m),
    decreases n, ty_size(ty), 0nat,
{
    match ty {
        ResolvedType::Reference { inner, .. } => lemma_flatten_depth(table, prefix, *inner, n, m),
        ResolvedType::Array { element_type, size, .. } =>
            lemma_flatten_elements_depth(table, prefix, *element_type, size as nat, 0, n, m),
        ResolvedType::UserDefined { definition, .. } => {
            lemma_flatten_fields_depth(table, prefix, table.defs@[definition as int].fields@, 0, (n - 1) as nat, (m - 1) as nat);
        },
        _ => {},
    }
}

proof fn lemma_flatten_elements_depth(table: StructTable, prefix: Seq<char>, element: ResolvedType, size: nat, i: nat, n: nat, m: nat)
    requires
        bounded(table, element, n),
        n <= m,
    ensures
        flatten_elements(table, prefix, element, size, i, n) == flatten_elements(table, prefix, element, size, i, m),
    decreases n, ty_size(element), size - i,
{
    if i < size {
        lemma_flatten_depth(table, index_path(prefix, i), element, n, m);
        lemma_flatten_elements_depth(table, prefix, element, size, i + 1, n, m);
    }
}

proof fn lemma_flatten_fields_depth(table: StructTable, prefix: Seq<char>, fields: Seq<FieldDefinition>, i: int, n: nat, m: nat)
    requires
        fields_bounded(table, fields, i, n),
        n <= m,
    ensures
        flatten_fields(table, prefix, fields, i, n) == flatten_fields(table, prefix, fields, i, m),
    decreases n, fields_size(fields, i), 0nat,
{
    if 0 <= i < fields.len() {
        lemma_flatten_depth(table, field_path(prefix, fields[i].name@), fields[i].field_type, n, m);
        lemma_flatten_fields_depth(table, prefix, fields, i + 1, n, m);
    }
}

/// Two depths that both bound a type give the same flattening.
pub proof fn lemma_flatten_any_bound(table: StructTable, prefix: Seq<char>, ty: ResolvedType, n: nat, m: nat)
    requires
        bounded(table, ty, n),
        bounded(table, ty, m),
    ensures
        flatten_spec(table, prefix, ty, n) == flatten_spec(table, prefix, ty, m),
{
    if n <= m {
        lemma_flatten_depth(table, prefix, ty, n, m);
    } else {
        lemma_flatten_depth(table, prefix, ty, m, n);
    }
}

/// Flattening a reference type is flattening the type it refers to.
pub proof fn lemma_flatten_reference(table: StructTable, prefix: Seq<char>, inner: ResolvedType, span: Span)
    requires
        exists|n: nat| bounded(table, inner, n),
    ensures
        exists|n: nat| bounded(table, ResolvedType::Reference { inner: Box::new(inner), span }, n),
        flatten_spec(table, prefix, ResolvedType::Reference { inner: Box::new(inner), span },
            flatten_depth(table, ResolvedType::Reference { inner: Box::new(inner), span }))
            == flatten_spec(table, prefix, inner, flatten_depth(table, inner)),
{
    let r = ResolvedType::Reference { inner: Box::new(inner), span };
    let n = flatten_depth(table, inner);
    assert(bounded(table, inner, n));
    assert(bounded(table, r, n));
    let k = flatten_depth(table, r);
    assert(bounded(table, r, k));
    assert(bounded(table, inner, k));
    lemma_flatten_any_bound(table, prefix, inner, k, n);
}

/// The depth that [`flatten_type`] expands `ty` to.
pub open spec fn flatten_depth(table: StructTable, ty: ResolvedType) -> nat {
    choose|n: nat| bounded(table, ty, n)
}

/// Every entry of `entries` has a primitive type and a name that starts with `prefix`.
pub open spec fn entries_under(entries: Seq<(Seq<char>, ResolvedType, Span)>, prefix: Seq<char>) -> bool {
    forall|k: int| #![trigger entries[k]]
        0 <= k < entries.len() ==> is_primitive(entries[k].1) && prefix.is_prefix_of(entries[k].0)
}

proof fn lemma_prefix_trans(a: Seq<char>, b: Seq<char>, c: Seq<char>)
    requires
        a.is_prefix_of(b),
        b.is_prefix_of(c),
    ensures
        a.is_prefix_of(c),
{
    assert forall|k: int| 0 <= k < a.len() implies a[k] == c.subrange(0, a.len() as int)[k] by {
        assert(a[k] == b.subrange(0, a.len() as int)[k]);
        assert(b[k] == c.subrange(0, b.len() as int)[k]);
    }
    assert(a =~= c.subrange(0, a.len() as int));
}

proof fn lemma_prefix_append(a: Seq<char>, rest: Seq<char>)
    ensures
        a.is_prefix_of(a + rest),
{
    assert(a =~= (a + rest).subrange(0, a.len() as int));
}

proof fn lemma_under_weaken(entries: Seq<(Seq<char>, ResolvedType, Span)>, p1: Seq<char>, p2: Seq<char>)
    requires
        p1.is_prefix_of(p2),
        entries_under(entries, p2),
    ensures
        entries_under(entries, p1),
{
    assert forall|k: int| #![trigger entries[k]] 0 <= k < entries.len()
        implies is_primitive(entries[k].1) && p1.is_prefix_of(entries[k].0) by {
        lemma_prefix_trans(p1, p2, entries[k].0);
    }
}

proof fn lemma_under_concat(a: Seq<(Seq<char>, ResolvedType, Span)>, b: Seq<(Seq<char>, ResolvedType, Span)>, p: Seq<char>)
    requires
        entries_under(a, p),
        entries_under(b, p),
    ensures
        entries_under(a + b, p),
{
    assert forall|k: int| #![trigger (a + b)[k]] 0 <= k < (a + b).len()
        implies is_primitive((a + b)[k].1) && p.is_prefix_of((a + b)[k].0) by {
        if k < a.len() {
            assert((a + b)[k] == a[k]);
        } else {
            assert((a + b)[k] == b[k - a.len()]);
        }
    }
}

/// Flattening yields only primitive fields, and each of their names starts with the
/// prefix that the type was flattened under.
pub proof fn lemma_flatten_primitive_under_prefix(table: StructTable, prefix: Seq<char>, ty: ResolvedType, n: nat)
    ensures
        entries_under(flatten_spec(table, prefix, ty, n), prefix),
    decreases n, ty_size(ty), 0nat,
{
    match ty {
        ResolvedType::Reference { inner, .. } => {
            lemma_flatten_primitive_under_prefix(table, prefix, *inner, n);
        },
        ResolvedType::Array { element_type, size, .. } => {
            lemma_flatten_elements_under(table, prefix, *element_type, size as nat, 0, n);
        },
        ResolvedType::UserDefined { definition, .. } => {
            if n != 0 && definition < table.defs@.len() {
                lemma_flatten_fields_under(table, prefix, table.defs@[definition as int].fields@, 0, (n - 1) as nat);
            }
        },
        _ => {
            let e = flatten_spec(table, prefix, ty, n);
            assert(e == seq![(prefix, ty, type_span(ty))]);
            assert(prefix =~= prefix.subrange(0, prefix.len() as int));
        },
    }
}

proof fn lemma_flatten_elements_under(table: StructTable, prefix: Seq<char>, element: ResolvedType, size: nat, i: nat, n: nat)
    ensures
        entries_under(flatten_elements(table, prefix, element, size, i, n), prefix),
    decreases n, ty_size(element), size - i,
{
    if i < size {
        let p = index_path(prefix, i);
        lemma_flatten_primitive_under_prefix(table, p, element, n);
        lemma_prefix_append(prefix, seq!['['] + decimal(i) + seq![']']);
        assert(p =~= prefix + (seq!['['] + decimal(i) + seq![']']));
        lemma_under_weaken(flatten_spec(table, p, element, n), prefix, p);
        lemma_flatten_elements_under(table, prefix, element, size, i + 1, n);
        lemma_under_concat(flatten_spec(table, p, element, n), flatten_elements(table, prefix, element, size, i + 1, n), prefix);
    }
}

proof fn lemma_flatten_fields_under(table: StructTable, prefix: Seq<char>, fields: Seq<FieldDefinition>, i: int, n: nat)
    ensures
        entries_under(flatten_fields(table, prefix, fields, i, n), prefix),
    decreases n, fields_size(fields, i), 0nat,
{
    if 0 <= i < fields.len() {
        let p = field_path(prefix, fields[i].name@);
        lemma_flatten_primitive_under_prefix(table, p, fields[i].field_type, n);
        if prefix.len() == 0 {
            assert(prefix =~= p.subrange(0, 0));
        } else {
            lemma_prefix_append(prefix, seq!['.'] + fields[i].name@);
            assert(p =~= prefix + (seq!['.'] + fields[i].name@));
        }
        lemma_under_weaken(flatten_spec(table, p, fields[i].field_type, n), prefix, p);
        lemma_flatten_fields_under(table, prefix, fields, i + 1, n);
        lemma_under_concat(flatten_spec(table, p, fields[i].field_type, n), flatten_fields(table, prefix, fields, i + 1, n), prefix);
    }
}

impl FlattenedField {
    /// Creates a flattened field.
    pub fn new(full_name: String, primitive_type: ResolvedType, span: Span) -> (f: FlattenedField)
        ensures
            f.full_name == full_name,
            f.primitive_type == primitive_type,
            f.span == span,
    {
        FlattenedField { full_name, primitive_type, span }
    }
}

/// Flattens `resolved_type` into its primitive fields, named under `name_prefix`.
///
/// A primitive type yields one field named `name_prefix`; a struct yields the fields of
/// each of its fields in declaration order (`prefix.field`, or `field` for an empty
/// prefix); an array of `size` elements yields those of `prefix[0]`, ..., `prefix[size-1]`.
pub fn flatten_type(table: &StructTable, name_prefix: &str, resolved_type: &ResolvedType) -> (r: Vec<FlattenedField>)
    requires
        table_wf(*table),
        type_in_table(*table, *resolved_type),
        exists|n: nat| bounded(*table, *resolved_type, n),
    ensures
        r@.map_values(|f: FlattenedField| field_view(f))
            == flatten_spec(*table, name_prefix@, *resolved_type, flatten_depth(*table, *resolved_type)),
        forall|m: nat| bounded(*table, *resolved_type, m) ==>
            r@.map_values(|f: FlattenedField| field_view(f)) == #[trigger] flatten_spec(*table, name_prefix@, *resolved_type, m),
{
    let ghost n = flatten_depth(*table, *resolved_type);
    let mut fields: Vec<FlattenedField> = Vec::new();
    let prefix = String::from_str(name_prefix);
    flatten_into(table, &prefix, resolved_type, &mut fields, Ghost(n));
    assert(fields@.map_values(|f: FlattenedField| field_view(f)) =~= flatten_spec(*table, name_prefix@, *resolved_type, n));
    assert forall|m: nat| bounded(*table, *resolved_type, m) implies
        fields@.map_values(|f: FlattenedField| field_view(f)) == #[trigger] flatten_spec(*table, name_prefix@, *resolved_type, m) by {
        lemma_flatten_any_bound(*table, name_prefix@, *resolved_type, n, m);
    }
    fields
}

/// Appends the primitive fields of `resolved_type`, named under `name_prefix`, to
/// `fields`: the entries already there stay as they were, in their order.
pub fn flatten_type_recursive(table: &StructTable, name_prefix: &String, resolved_type: &ResolvedType, fields: &mut Vec<FlattenedField>)
    requires
        table_wf(*table),
        type_in_table(*table, *resolved_type),
        exists|n: nat| bounded(*table, *resolved_type, n),
    ensures
        final(fields)@.map_values(|f: FlattenedField| field_view(f))
            == old(fields)@.map_values(|f: FlattenedField| field_view(f))
                + flatten_spec(*table, name_prefix@, *resolved_type, flatten_depth(*table, *resolved_type)),
        final(fields)@.len() >= old(fields)@.len(),
        forall|k: int| 0 <= k < old(fields)@.len() ==> field_view(#[trigger] final(fields)@[k]) == field_view(old(fields)@[k]),
{
    let ghost n = flatten_depth(*table, *resolved_type);
    let ghost before = fields@.map_values(|f: FlattenedField| field_view(f));
    flatten_into(table, name_prefix, resolved_type, fields, Ghost(n));
    let ghost after = fields@.map_values(|f: FlattenedField| field_view(f));
    assert(after.len() == fields@.len());
    assert(before.len() == old(fields)@.len());
    assert(after =~= before + flatten_spec(*table, name_prefix@, *resolved_type, n));
    assert forall|k: int| 0 <= k < old(fields)@.len() implies field_view(#[trigger] fields@[k]) == field_view(old(fields)@[k]) by {
        assert(after[k] == field_view(fields@[k]));
        assert(before[k] == field_view(old(fields)@[k]));
        assert(after[k] == (before + flatten_spec(*table, name_prefix@, *resolved_type, n))[k]);
    }
}

fn flatten_into(
    table: &StructTable,
    name_prefix: &String,
    resolved_type: &ResolvedType,
    fields: &mut Vec<FlattenedField>,
    Ghost(n): Ghost<nat>,
)
    requires
        table_wf(*table),
        type_in_table(*table, *resolved_type),
        bounded(*table, *resolved_type, n),
    ensures
        final(fields)@.map_values(|f: FlattenedField| field_view(f))
            == old(fields)@.map_values(|f: FlattenedField| field_view(f))
                + flatten_spec(*table, name_prefix@, *resolved_type, n),
    decreases n, ty_size(*resolved_type), 1nat,
{
    let ghost before = fields@.map_values(|f: FlattenedField| field_view(f));
    match resolved_type {
        ResolvedType::Reference { inner, .. } => {
            flatten_into(table, name_prefix, inner, fields, Ghost(n));
        },
        ResolvedType::Array { element_type, size, .. } => {
            let mut i: usize = 0;
            while i < *size
                invariant
                    table_wf(*table),
                    type_in_table(*table, **element_type),
                    bounded(*table, **element_type, n),
                    i <= *size,
                    *resolved_type == (ResolvedType::Array { element_type: *element_type, size: *size, span: type_span(*resolved_type) }),
                    fields@.map_values(|f: FlattenedField| field_view(f))
                        + flatten_elements(*table, name_prefix@, **element_type, *size as nat, i as nat, n)
                        == before + flatten_spec(*table, name_prefix@, *resolved_type, n),
                decreases *size - i,
            {
                let mut indexed = name_prefix.clone();
                push_char(&mut indexed, '[');
                append_u64(&mut indexed, i as u64);
                push_char(&mut indexed, ']');
                assert(indexed@ =~= index_path(name_prefix@, i as nat));
                let ghost mid = fields@.map_values(|f: FlattenedField| field_view(f));
                flatten_into(table, &indexed, element_type, fields, Ghost(n));
                assert(flatten_elements(*table, name_prefix@, **element_type, *size as nat, i as nat, n)
                    == flatten_spec(*table, index_path(name_prefix@, i as nat), **element_type, n)
                        + flatten_elements(*table, name_prefix@, **element_type, *size as nat, (i + 1) as nat, n));
                assert(fields@.map_values(|f: FlattenedField| field_view(f))
                    + flatten_elements(*table, name_prefix@, **element_type, *size as nat, (i + 1) as nat, n)
                    =~= mid + flatten_elements(*table, name_prefix@, **element_type, *size as nat, i as nat, n));
                i = i + 1;
            }
            assert(flatten_elements(*table, name_prefix@, **element_type, *size as nat, *size as nat, n) =~= Seq::empty());
            assert(fields@.map_values(|f: FlattenedField| field_view(f))
                =~= before + flatten_spec(*table, name_prefix@, *resolved_type, n));
        },
        ResolvedType::UserDefined { definition, .. } => {
            let defs_fields = &table.defs[*definition].fields;
            let ghost m = (n - 1) as nat;
            let mut i: usize = 0;
            while i < defs_fields.len()
                invariant
                    table_wf(*table),
                    *definition < table.defs@.len(),
                    n > 0,
                    m == n - 1,
                    defs_fields@ == table.defs@[*definition as int].fields@,
                    fields_bounded(*table, defs_fields@, 0, m),
                    i <= defs_fields@.len(),
                    resolved_type is UserDefined,
                    resolved_type->definition == *definition,
                    fields@.map_values(|f: FlattenedField| field_view(f))
                        + flatten_fields(*table, name_prefix@, defs_fields@, i as int, m)
                        == before + flatten_spec(*table, name_prefix@, *resolved_type, n),
                decreases defs_fields.len() - i,
            {
                let field = &defs_fields[i];
                let qualified: String = if name_prefix.as_str().is_empty() {
                    field.name.clone()
                } else {
                    let mut q = name_prefix.clone();
                    push_char(&mut q, '.');
                    append_str(&mut q, field.name.as_str());
                    q
                };
                assert(qualified@ =~= field_path(name_prefix@, field.name@));
                proof {
                    lemma_fields_bounded_each(*table, defs_fields@, 0, m, i as int);
                    assert(type_in_table(*table, table.defs@[*definition as int].fields@[i as int].field_type));
                }
                let ghost mid = fields@.map_values(|f: FlattenedField| field_view(f));
                flatten_into(table, &qualified, &field.field_type, fields, Ghost(m));
                assert(fields@.map_values(|f: FlattenedField| field_view(f))
                    + flatten_fields(*table, name_prefix@, defs_fields@, i + 1, m)
                    =~= mid + flatten_fields(*table, name_prefix@, defs_fields@, i as int, m));
                i = i + 1;
            }
            assert(fields@.map_values(|f: FlattenedField| field_view(f))
                =~= before + flatten_spec(*table, name_prefix@, *resolved_type, n));
        },
        _ => {
            let full_name = name_prefix.clone();
            let prim = copy_type(resolved_type);
            let span = match resolved_type {
                ResolvedType::Bool { span } => *span,
                ResolvedType::I32 { span } => *span,
                ResolvedType::F64 { span } => *span,
                ResolvedType::Real { span } => *span,
                ResolvedType::Algebraic { span } => *span,
                ResolvedType::Reference { span, .. } => *span,
                ResolvedType::Array { span, .. } => *span,
                ResolvedType::UserDefined { span, .. } => *span,
            };
            fields.push(FlattenedField::new(full_name, prim, span));
            assert(fields@.map_values(|f: FlattenedField| field_view(f))
                =~= before + flatten_spec(*table, name_prefix@, *resolved_type, n));
        },
    }
}

/// An array of a primitive element type flattens to one entry per element, in index
/// order: element `k` is named `prefix[k]` and has the element's type.
pub proof fn lemma_flatten_primitive_elements(table: StructTable, prefix: Seq<char>, element: ResolvedType, size: nat, i: nat, n: nat)
    requires
        is_primitive(element),
        i <= size,
    ensures
        flatten_elements(table, prefix, element, size, i, n).len() == size - i,
        forall|k: int| 0 <= k < size - i ==> #[trigger] flatten_elements(table, prefix, element, size, i, n)[k]
            == (index_path(prefix, (i + k) as nat), element, type_span(element)),
    decreases size - i,
{
    if i < size {
        lemma_flatten_primitive_elements(table, prefix, element, size, i + 1, n);
        let head = flatten_spec(table, index_path(prefix, i), element, n);
        assert(head == seq![(index_path(prefix, i), element, type_span(element))]);
        let rest = flatten_elements(table, prefix, element, size, i + 1, n);
        assert forall|k: int| 0 <= k < size - i implies #[trigger] flatten_elements(table, prefix, element, size, i, n)[k]
            == (index_path(prefix, (i + k) as nat), element, type_span(element)) by {
            if k > 0 {
                assert((head + rest)[k] == rest[k - 1]);
                assert((i + 1 + (k - 1)) as nat == (i + k) as nat);
            }
        }
    }
}

} // verus!
