//! The solver's variables as a tree that mirrors their types.
//!
//! A variable of primitive type is a leaf that holds its Z3 constant; a struct is a
//! branch whose children are its fields, by name; an array is a branch whose children
//! are its elements, by index. A path (`line.start.x`, `points[0].y`) leads from a
//! root variable down to one of its parts. A reference variable can be recorded as an
//! alias of another path; lookups follow aliases to their target. Constant
//! expressions (array indices) are evaluated with machine integer arithmetic, taking
//! variables from the last solution.

use vstd::prelude::*;
use z3::Model;
use crate::solver::path::{PathComponent, VariablePath, ComponentView, component_view, path_view,
    field_names_ok, lemma_path_name_no_nul};
use crate::text::{same_text, append_str, starts_with_text, contains_text, occurs_at};
use crate::hir::{ResolvedExpr, ResolvedExprKind, ResolvedType, FieldDefinition, StructTable, table_wf, type_in_table, bounded,
    fields_bounded, ty_size, fields_size};
use crate::solver::recursive_struct_detector::lemma_fields_bounded_each;
use crate::solver::z3_api::{IntTerm, RealTerm, BoolTerm, TermModel, TermSolver, CheckOutcome, solver_assert, solver_check, int_const, real_const, bool_const, solver_model, eval_int, eval_real, eval_bool,
    int_value, real_value, bool_value, real_text, bool_text};
use crate::solver::struct_flattener::flatten_depth;
use crate::solver::z3_bridge::{kind_name, kind_label};
use vstd::arithmetic::power::pow;

verus! {

// ============================================================================
// The variable tree
// ============================================================================

/// A Z3 constant of primitive sort: a leaf of the variable tree.
pub enum Z3Primitive {
    Int(IntTerm),
    Real(RealTerm),
    Bool(BoolTerm),
}

/// How the constant of a leaf was built.
pub open spec fn primitive_term(p: Z3Primitive) -> TermModel {
    match p {
        Z3Primitive::Int(t) => t.model(),
        Z3Primitive::Real(t) => t.model(),
        Z3Primitive::Bool(t) => t.model(),
    }
}

/// A node of the variable tree.
#[allow(inconsistent_fields)]
pub enum VariableNode<'src> {
    /// A variable of primitive type, with its Z3 constant.
    Primitive { z3_var: Z3Primitive },
    /// A struct variable: one child per field, by name.
    Struct { children: Vec<(&'src str, VariableNode<'src>)> },
    /// An array variable: one child per element.
    Array { children: Vec<VariableNode<'src>> },
}

/// The content of a variable tree: leaves with their constants, struct children by
/// name, array children in order.
pub enum NodeModel {
    Leaf(Z3Primitive),
    Struct(Seq<(Seq<char>, NodeModel)>),
    Array(Seq<NodeModel>),
}

/// The content of a node.
pub open spec fn node_model(n: VariableNode) -> NodeModel
    decreases n, 0nat,
{
    match n {
        VariableNode::Primitive { z3_var } => NodeModel::Leaf(z3_var),
        VariableNode::Struct { children } => NodeModel::Struct(named_models(children@, 0)),
        VariableNode::Array { children } => NodeModel::Array(node_models(children@, 0)),
    }
}

/// The contents of the named children `cs[i..]`.
pub open spec fn named_models(cs: Seq<(&str, VariableNode)>, i: int) -> Seq<(Seq<char>, NodeModel)>
    decreases cs, cs.len() - i,
{
    if i < 0 || i >= cs.len() {
        Seq::empty()
    } else {
        seq![(cs[i].0@, node_model(cs[i].1))] + named_models(cs, i + 1)
    }
}

/// The contents of the children `cs[i..]`.
pub open spec fn node_models(cs: Seq<VariableNode>, i: int) -> Seq<NodeModel>
    decreases cs, cs.len() - i,
{
    if i < 0 || i >= cs.len() {
        Seq::empty()
    } else {
        seq![node_model(cs[i])] + node_models(cs, i + 1)
    }
}

/// [`named_models`] child by child.
pub proof fn lemma_named_models(cs: Seq<(&str, VariableNode)>, i: int)
    requires
        0 <= i <= cs.len(),
    ensures
        named_models(cs, i).len() == cs.len() - i,
        forall|k: int| 0 <= k < cs.len() - i ==>
            #[trigger] named_models(cs, i)[k] == (cs[i + k].0@, node_model(cs[i + k].1)),
    decreases cs.len() - i,
{
    if i < cs.len() {
        lemma_named_models(cs, i + 1);
        assert forall|k: int| 0 <= k < cs.len() - i implies
            #[trigger] named_models(cs, i)[k] == (cs[i + k].0@, node_model(cs[i + k].1)) by {
            if k > 0 {
                assert(named_models(cs, i)[k] == named_models(cs, i + 1)[k - 1]);
            }
        }
    }
}

/// [`node_models`] child by child.
pub proof fn lemma_node_models(cs: Seq<VariableNode>, i: int)
    requires
        0 <= i <= cs.len(),
    ensures
        node_models(cs, i).len() == cs.len() - i,
        forall|k: int| 0 <= k < cs.len() - i ==> #[trigger] node_models(cs, i)[k] == node_model(cs[i + k]),
    decreases cs.len() - i,
{
    if i < cs.len() {
        lemma_node_models(cs, i + 1);
        assert forall|k: int| 0 <= k < cs.len() - i implies #[trigger] node_models(cs, i)[k] == node_model(cs[i + k]) by {
            if k > 0 {
                assert(node_models(cs, i)[k] == node_models(cs, i + 1)[k - 1]);
            }
        }
    }
}

/// The position of the first entry with key `k` at or after `i`.
pub open spec fn key_index<K, V>(s: Seq<(K, V)>, k: K, i: int) -> Option<int>
    decreases s.len() - i,
{
    if i < 0 || i >= s.len() {
        None
    } else if s[i].0 == k {
        Some(i)
    } else {
        key_index(s, k, i + 1)
    }
}

/// The position found holds the key and no earlier position from `i` does.
pub proof fn lemma_key_index<K, V>(s: Seq<(K, V)>, k: K, i: int)
    requires
        0 <= i,
    ensures
        match key_index(s, k, i) {
            Some(j) => i <= j < s.len() && s[j].0 == k
                && forall|x: int| i <= x < j ==> s[x].0 != k,
            None => forall|x: int| i <= x < s.len() ==> s[x].0 != k,
        },
    decreases s.len() - i,
{
    if i < s.len() && s[i].0 != k {
        lemma_key_index(s, k, i + 1);
    }
}

/// The position of an entry depends on the keys alone.
pub proof fn lemma_key_index_keys<K, V>(s: Seq<(K, V)>, t: Seq<(K, V)>, k: K, i: int)
    requires
        0 <= i,
        s.len() == t.len(),
        forall|x: int| 0 <= x < s.len() ==> #[trigger] s[x].0 == t[x].0,
    ensures
        key_index(s, k, i) == key_index(t, k, i),
    decreases s.len() - i,
{
    if i < s.len() {
        assert(s[i].0 == t[i].0);
        lemma_key_index_keys(s, t, k, i + 1);
    }
}

/// The value of the first entry with key `k`.
pub open spec fn key_lookup<K, V>(s: Seq<(K, V)>, k: K) -> Option<V> {
    match key_index(s, k, 0) {
        Some(j) => Some(s[j].1),
        None => None,
    }
}

/// The entries after storing `v` under `k`: the first entry of that key is replaced,
/// else one is added at the end.
pub open spec fn key_insert<K, V>(s: Seq<(K, V)>, k: K, v: V) -> Seq<(K, V)> {
    match key_index(s, k, 0) {
        Some(j) => s.update(j, (k, v)),
        None => s.push((k, v)),
    }
}

/// Storing a value under a key makes the key look up to it and leaves the lookup of
/// every other key as it was.
pub proof fn lemma_key_insert_lookup<K, V>(s: Seq<(K, V)>, k: K, v: V, other: K)
    ensures
        key_lookup(key_insert(s, k, v), k) == Some(v),
        other != k ==> key_lookup(key_insert(s, k, v), other) == key_lookup(s, other),
{
    let w = key_insert(s, k, v);
    lemma_key_index(s, k, 0);
    lemma_key_index(w, k, 0);
    lemma_key_index(s, other, 0);
    lemma_key_index(w, other, 0);
    assert(forall|x: int| 0 <= x < s.len() && s[x].0 != k ==> w[x] == s[x]);
    match key_index(s, k, 0) {
        Some(j) => {
            assert(w[j].0 == k);
        },
        None => {
            assert(w[s.len() as int].0 == k);
        },
    }
    if other != k {
        match key_index(s, other, 0) {
            Some(j) => {
                assert(w[j] == s[j]);
            },
            None => {
                assert forall|x: int| 0 <= x < w.len() implies w[x].0 != other by {
                    if x < s.len() && s[x].0 != k {
                        assert(w[x] == s[x]);
                    }
                }
            },
        }
    }
}

/// The part of the tree `m` that the path `path` leads to, if the path fits the tree:
/// a field step enters the struct child of that name, an index step the array element.
pub open spec fn model_at(m: NodeModel, path: Seq<ComponentView>) -> Option<NodeModel>
    decreases path.len(),
{
    if path.len() == 0 {
        Some(m)
    } else {
        match (m, path[0]) {
            (NodeModel::Struct(cs), ComponentView::Field(f)) => match key_index(cs, f, 0) {
                Some(j) => model_at(cs[j].1, path.drop_first()),
                None => None,
            },
            (NodeModel::Array(xs), ComponentView::Index(k)) => if k < xs.len() {
                model_at(xs[k as int], path.drop_first())
            } else {
                None
            },
            _ => None,
        }
    }
}

/// The tree `m` with the part that `path` leads to replaced by `new`; the tree itself
/// where the path does not fit it.
pub open spec fn replace_model(m: NodeModel, path: Seq<ComponentView>, new: NodeModel) -> NodeModel
    decreases path.len(),
{
    if path.len() == 0 {
        new
    } else {
        match (m, path[0]) {
            (NodeModel::Struct(cs), ComponentView::Field(f)) => match key_index(cs, f, 0) {
                Some(j) => NodeModel::Struct(cs.update(j, (cs[j].0, replace_model(cs[j].1, path.drop_first(), new)))),
                None => m,
            },
            (NodeModel::Array(xs), ComponentView::Index(k)) => if k < xs.len() {
                NodeModel::Array(xs.update(k as int, replace_model(xs[k as int], path.drop_first(), new)))
            } else {
                m
            },
            _ => m,
        }
    }
}

/// Reading a part of the tree after replacing it gives the replacement back.
pub proof fn lemma_read_after_replace(m: NodeModel, path: Seq<ComponentView>, new: NodeModel)
    requires
        model_at(m, path) is Some,
    ensures
        model_at(replace_model(m, path, new), path) == Some(new),
    decreases path.len(),
{
    if path.len() > 0 {
        match (m, path[0]) {
            (NodeModel::Struct(cs), ComponentView::Field(f)) => {
                let j = key_index(cs, f, 0)->0;
                lemma_key_index(cs, f, 0);
                let cs2 = cs.update(j, (cs[j].0, replace_model(cs[j].1, path.drop_first(), new)));
                lemma_key_index_keys(cs, cs2, f, 0);
                lemma_read_after_replace(cs[j].1, path.drop_first(), new);
            },
            (NodeModel::Array(xs), ComponentView::Index(k)) => {
                lemma_read_after_replace(xs[k as int], path.drop_first(), new);
            },
            _ => {},
        }
    }
}

proof fn lemma_named_models_update<'a>(cs: Seq<(&'a str, VariableNode<'a>)>, j: int, e: (&'a str, VariableNode<'a>))
    requires
        0 <= j < cs.len(),
    ensures
        named_models(cs.update(j, e), 0) == named_models(cs, 0).update(j, (e.0@, node_model(e.1))),
{
    lemma_named_models(cs, 0);
    lemma_named_models(cs.update(j, e), 0);
    assert(named_models(cs.update(j, e), 0) =~= named_models(cs, 0).update(j, (e.0@, node_model(e.1))));
}

proof fn lemma_node_models_update<'a>(cs: Seq<VariableNode<'a>>, j: int, e: VariableNode<'a>)
    requires
        0 <= j < cs.len(),
    ensures
        node_models(cs.update(j, e), 0) == node_models(cs, 0).update(j, node_model(e)),
{
    lemma_node_models(cs, 0);
    lemma_node_models(cs.update(j, e), 0);
    assert(node_models(cs.update(j, e), 0) =~= node_models(cs, 0).update(j, node_model(e)));
}

/// The position of the first child named `name`.
fn find_child<'src>(children: &Vec<(&'src str, VariableNode<'src>)>, name: &str) -> (r: Option<usize>)
    ensures
        match r {
            Some(j) => key_index(named_models(children@, 0), name@, 0) == Some(j as int),
            None => key_index(named_models(children@, 0), name@, 0) is None,
        },
{
    let ghost cs = named_models(children@, 0);
    proof {
        lemma_named_models(children@, 0);
        lemma_key_index(cs, name@, 0);
    }
    let mut j: usize = 0;
    while j < children.len()
        invariant
            j <= children@.len(),
            cs == named_models(children@, 0),
            cs.len() == children@.len(),
            forall|k: int| 0 <= k < children@.len() ==> #[trigger] cs[k] == (children@[k].0@, node_model(children@[k].1)),
            forall|k: int| 0 <= k < j ==> cs[k].0 != name@,
        decreases children.len() - j,
    {
        if same_text(children[j].0, name) {
            proof {
                assert(cs[j as int].0 == name@);
                lemma_key_index(cs, name@, 0);
                match key_index(cs, name@, 0) {
                    Some(x) => {
                        assert(x == j);
                    },
                    None => {
                        assert(false);
                    },
                }
            }
            return Some(j);
        }
        j = j + 1;
    }
    proof {
        lemma_key_index(cs, name@, 0);
        match key_index(cs, name@, 0) {
            Some(x) => {
                assert(cs[x].0 == name@);
            },
            None => {},
        }
    }
    None
}

impl<'src> VariableNode<'src> {
    /// The node that `path` leads to from this node, if the path fits the tree.
    pub fn get_at_path(&self, path: &[PathComponent<'src>]) -> (r: Option<&VariableNode<'src>>)
        ensures
            match model_at(node_model(*self), path_view(path@)) {
                Some(m) => r matches Some(n) && node_model(*n) == m,
                None => r is None,
            },
    {
        proof {
            assert(path_view(path@).skip(0) =~= path_view(path@));
        }
        self.get_from(path, 0)
    }

    #[verifier::loop_isolation(false)]
    fn get_from(&self, path: &[PathComponent<'src>], start: usize) -> (r: Option<&VariableNode<'src>>)
        requires
            start <= path@.len(),
        ensures
            match model_at(node_model(*self), path_view(path@).skip(start as int)) {
                Some(m) => r matches Some(n) && node_model(*n) == m,
                None => r is None,
            },
        decreases path@.len() - start,
    {
        let ghost rest = path_view(path@).skip(start as int);
        if start == path.len() {
            assert(rest.len() == 0);
            return Some(self);
        }
        proof {
            assert(rest[0] == component_view(path@[start as int]));
            assert(rest.drop_first() =~= path_view(path@).skip(start + 1));
        }
        match (self, path[start]) {
            (VariableNode::Struct { children }, PathComponent::Field(field)) => {
                let ghost cs = named_models(children@, 0);
                proof {
                    lemma_named_models(children@, 0);
                    lemma_key_index(cs, field@, 0);
                }
                let mut j: usize = 0;
                while j < children.len()
                    invariant
                        start < path.len(),
                        j <= children@.len(),
                        cs == named_models(children@, 0),
                        cs.len() == children@.len(),
                        forall|k: int| 0 <= k < children@.len() ==> #[trigger] cs[k] == (children@[k].0@, node_model(children@[k].1)),
                        forall|k: int| 0 <= k < j ==> cs[k].0 != field@,
                    decreases children.len() - j,
                {
                    if same_text(children[j].0, field) {
                        proof {
                            assert(cs[j as int].0 == field@);
                            lemma_key_index(cs, field@, 0);
                            match key_index(cs, field@, 0) {
                                Some(x) => {
                                    assert(x == j);
                                },
                                None => {
                                    assert(false);
                                },
                            }
                        }
                        return children[j].1.get_from(path, start + 1);
                    }
                    j = j + 1;
                }
                proof {
                    match key_index(cs, field@, 0) {
                        Some(x) => {
                            assert(cs[x].0 == field@);
                        },
                        None => {},
                    }
                }
                None
            },
            (VariableNode::Array { children }, PathComponent::Index(idx)) => {
                proof {
                    lemma_node_models(children@, 0);
                }
                if idx < children.len() {
                    children[idx].get_from(path, start + 1)
                } else {
                    None
                }
            },
            _ => {
                proof {
                    match (node_model(*self), rest[0]) {
                        (NodeModel::Struct(cs), ComponentView::Field(f)) => {
                            assert(self is Struct);
                            assert(path@[start as int] is Field);
                        },
                        (NodeModel::Array(xs), ComponentView::Index(k)) => {
                            assert(self is Array);
                            assert(path@[start as int] is Index);
                        },
                        _ => {},
                    }
                }
                None
            },
        }
    }

    /// The node that `path` leads to from this node, if the path fits the tree, to be
    /// changed in place: what it is left holding replaces that part of this tree.
    pub fn get_at_path_mut(&mut self, path: &[PathComponent<'src>]) -> (r: Option<&mut VariableNode<'src>>)
        ensures
            match model_at(node_model(*old(self)), path_view(path@)) {
                Some(m) => r matches Some(n) && node_model(*n) == m
                    && node_model(*final(self)) == replace_model(node_model(*old(self)), path_view(path@), node_model(*final(n))),
                None => r is None && node_model(*final(self)) == node_model(*old(self)),
            },
    {
        proof {
            assert(path_view(path@).skip(0) =~= path_view(path@));
        }
        self.get_mut_from(path, 0)
    }

    #[verifier::loop_isolation(false)]
    fn get_mut_from(&mut self, path: &[PathComponent<'src>], start: usize) -> (r: Option<&mut VariableNode<'src>>)
        requires
            start <= path@.len(),
        ensures
            match model_at(node_model(*old(self)), path_view(path@).skip(start as int)) {
                Some(m) => r matches Some(n) && node_model(*n) == m
                    && node_model(*final(self)) == replace_model(node_model(*old(self)), path_view(path@).skip(start as int), node_model(*final(n))),
                None => r is None && node_model(*final(self)) == node_model(*old(self)),
            },
        decreases path@.len() - start,
    {
        let ghost rest = path_view(path@).skip(start as int);
        if start == path.len() {
            assert(rest.len() == 0);
            return Some(self);
        }
        proof {
            assert(rest[0] == component_view(path@[start as int]));
            assert(rest.drop_first() =~= path_view(path@).skip(start + 1));
        }
        let found: Option<usize> = match (&*self, path[start]) {
            (VariableNode::Struct { children }, PathComponent::Field(field)) => {
                proof {
                    lemma_named_models(children@, 0);
                    lemma_key_index(named_models(children@, 0), field@, 0);
                }
                let r = find_child(children, field);
                proof {
                    assert(rest.len() > 0);
                    assert(rest[0] == ComponentView::Field(field@));
                    assert(node_model(*self) == NodeModel::Struct(named_models(children@, 0)));
                    if let Some(j) = r {
                        assert(key_index(named_models(children@, 0), field@, 0) == Some(j as int));
                        assert(model_at(node_model(*self), rest)
                            == model_at(named_models(children@, 0)[j as int].1, rest.drop_first()));
                    }
                }
                r
            },
            (VariableNode::Array { children }, PathComponent::Index(idx)) => {
                proof {
                    lemma_node_models(children@, 0);
                }
                if idx < children.len() { Some(idx) } else { None }
            },
            _ => None,
        };
        proof {
            if let Some(j) = found {
                match node_model(*self) {
                    NodeModel::Struct(cs) => {
                        assert(j < cs.len());
                        assert(model_at(node_model(*self), rest) == model_at(cs[j as int].1, rest.drop_first()));
                    },
                    NodeModel::Array(xs) => {
                        assert(j < xs.len());
                        assert(model_at(node_model(*self), rest) == model_at(xs[j as int], rest.drop_first()));
                    },
                    _ => {
                        assert(false);
                    },
                }
            }
        }
        let j = match found {
            Some(j) => j,
            None => {
                proof {
                    match (node_model(*self), rest[0]) {
                        (NodeModel::Struct(cs), ComponentView::Field(f)) => {
                            assert(*self is Struct);
                            assert(path@[start as int] is Field);
                        },
                        (NodeModel::Array(xs), ComponentView::Index(k)) => {
                            assert(*self is Array);
                            assert(path@[start as int] is Index);
                            lemma_node_models((*self)->Array_children@, 0);
                        },
                        _ => {},
                    }
                }
                return None;
            },
        };
        match self {
            VariableNode::Struct { children } => {
                let ghost old_children = children@;
                let ghost cs = named_models(children@, 0);
                proof {
                    lemma_named_models(old_children, 0);
                    assert forall|e: (&'src str, VariableNode<'src>)| #[trigger] old_children.update(j as int, e) == old_children.update(j as int, e) implies
                        named_models(old_children.update(j as int, e), 0) == cs.update(j as int, (e.0@, node_model(e.1))) by {
                        lemma_named_models_update(old_children, j as int, e);
                    }
                    assert(cs.update(j as int, cs[j as int]) =~= cs);
                }
                let entry = &mut children[j];
                entry.1.get_mut_from(path, start + 1)
            },
            VariableNode::Array { children } => {
                let ghost old_children = children@;
                proof {
                    lemma_node_models(children@, 0);
                    assert forall|e: VariableNode<'src>| #[trigger] old_children.update(j as int, e) == old_children.update(j as int, e) implies
                        node_models(old_children.update(j as int, e), 0) == node_models(old_children, 0).update(j as int, node_model(e)) by {
                        lemma_node_models_update(old_children, j as int, e);
                    }
                    assert(node_models(old_children, 0).update(j as int, node_models(old_children, 0)[j as int])
                        =~= node_models(old_children, 0));
                }
                children[j].get_mut_from(path, start + 1)
            },
            VariableNode::Primitive { .. } => None,
        }
    }

    /// The Z3 constant of a primitive node.
    pub fn as_primitive(&self) -> (r: Option<&Z3Primitive>)
        ensures
            match node_model(*self) {
                NodeModel::Leaf(p) => r matches Some(x) && *x == p,
                _ => r is None,
            },
    {
        match self {
            VariableNode::Primitive { z3_var } => Some(z3_var),
            _ => None,
        }
    }
}


// ============================================================================
// Values, solutions and errors
// ============================================================================

/// The value of a solved variable.
#[derive(Debug, Clone, Copy, PartialEq, Eq, Structural)]
pub enum Value {
    Int(i64),
    /// A real value as the fraction `numerator / denominator`; the denominator is not zero.
    Real { numerator: i64, denominator: i64 },
    Bool(bool),
    /// The constraints do not fix the variable's value.
    UnderConstrained,
}

/// `v` clamped to the `i32` range.
pub open spec fn clamp_i32(v: i64) -> i64 {
    if v < -2147483648 { -2147483648i64 } else if v > 2147483647 { 2147483647i64 } else { v }
}

/// The solved value of an integer result `v` of a rune block whose declared type
/// is `ty`: for an `i32` it is clamped to the `i32` range; another type takes no
/// integer result (`None`).
pub fn int_value_for(v: i64, ty: &ResolvedType) -> (r: Option<Value>)
    ensures
        ty is I32 ==> r == Some(Value::Int(clamp_i32(v))),
        !(ty is I32) ==> r is None,
{
    match ty {
        ResolvedType::I32 { .. } => {
            if v < -2147483648 {
                Some(Value::Int(-2147483648))
            } else if v > 2147483647 {
                Some(Value::Int(2147483647))
            } else {
                Some(Value::Int(v))
            }
        },
        _ => None,
    }
}

/// The values found for the variables, by path.
#[derive(Debug)]
pub struct Solution<'src> {
    pub assignments: Vec<(VariablePath<'src>, Value)>,
}

/// The assignments of a solution by path.
pub open spec fn assignments_model<'a>(a: Seq<(VariablePath<'a>, Value)>) -> Seq<(Seq<ComponentView>, Value)> {
    a.map_values(|e: (VariablePath<'a>, Value)| (path_view(e.0.components@), e.1))
}

impl<'src> Solution<'src> {
    /// A solution with no assignment.
    pub fn new() -> (s: Solution<'src>)
        ensures
            s.assignments@.len() == 0,
    {
        Solution { assignments: Vec::new() }
    }

    /// The number of variables the solution fixes (those not under-constrained).
    pub fn resolved_count(&self) -> (n: usize)
        ensures
            n == resolved_in(assignments_model(self.assignments@)),
    {
        let ghost a = assignments_model(self.assignments@);
        let mut n: usize = 0;
        let mut i: usize = 0;
        while i < self.assignments.len()
            invariant
                i <= self.assignments@.len(),
                a == assignments_model(self.assignments@),
                n == resolved_in(a.take(i as int)),
                n <= i,
            decreases self.assignments.len() - i,
        {
            assert(a.take(i + 1).drop_last() =~= a.take(i as int));
            assert(a[i as int].1 == self.assignments@[i as int].1);
            if !matches!(self.assignments[i].1, Value::UnderConstrained) {
                n = n + 1;
            }
            i = i + 1;
        }
        assert(a.take(a.len() as int) =~= a);
        n
    }

    /// A copy of the solution.
    pub fn duplicate(&self) -> (s: Solution<'src>)
        ensures
            assignments_model(s.assignments@) == assignments_model(self.assignments@),
    {
        let mut assignments: Vec<(VariablePath<'src>, Value)> = Vec::new();
        let mut i: usize = 0;
        while i < self.assignments.len()
            invariant
                i <= self.assignments@.len(),
                assignments_model(assignments@) == assignments_model(self.assignments@).take(i as int),
            decreases self.assignments.len() - i,
        {
            let ghost before = assignments_model(assignments@);
            assignments.push((self.assignments[i].0.duplicate(), self.assignments[i].1));
            assert(assignments_model(assignments@) =~= before.push(assignments_model(self.assignments@)[i as int]));
            assert(assignments_model(self.assignments@).take(i + 1) =~= assignments_model(self.assignments@).take(i as int).push(assignments_model(self.assignments@)[i as int]));
            i = i + 1;
        }
        assert(assignments_model(self.assignments@).take(self.assignments@.len() as int) =~= assignments_model(self.assignments@));
        Solution { assignments }
    }
}

/// The number of assignments of `a` that fix a value.
pub open spec fn resolved_in(a: Seq<(Seq<ComponentView>, Value)>) -> nat
    decreases a.len(),
{
    if a.len() == 0 {
        0
    } else {
        resolved_in(a.drop_last()) + if a.last().1 is UnderConstrained { 0nat } else { 1nat }
    }
}

/// A constraint that waits for values of other variables.
#[derive(Debug)]
pub struct DeferredConstraint<'src> {
    /// The variables it waits for.
    pub dependencies: Vec<&'src str>,
    /// What it is, for reports.
    pub description: String,
}

/// Errors of the solver context.
#[derive(Debug)]
pub enum SolverError {
    /// No variable exists at the path named.
    UndefinedVariable(String),
    /// The request does not fit the variables' structure.
    ContextError(String),
    /// A variable of this type cannot be given to the solver.
    UnsupportedType(String),
    /// A primitive variable was asked of a type that is not primitive.
    NotAPrimitiveType,
    /// The model could not give a variable's value.
    ModelEvaluationError(String),
    /// An expression of a kind or value that the solver cannot take.
    UnsupportedExpression(String),
    /// A statement of a kind that the solver cannot take where it stands.
    UnsupportedStatement(String),
    /// The solver found the constraints unsatisfiable.
    Unsatisfiable,
    /// The solver could not decide the constraints.
    Unknown,
}

/// The content of a solver error.
pub enum SolverErrorModel {
    UndefinedVariable(Seq<char>),
    ContextError(Seq<char>),
    UnsupportedType(Seq<char>),
    NotAPrimitiveType,
    ModelEvaluationError(Seq<char>),
    UnsupportedExpression(Seq<char>),
    UnsupportedStatement(Seq<char>),
    Unsatisfiable,
    Unknown,
}

impl View for SolverError {
    type V = SolverErrorModel;

    open spec fn view(&self) -> SolverErrorModel {
        match self {
            SolverError::UndefinedVariable(s) => SolverErrorModel::UndefinedVariable(s@),
            SolverError::ContextError(s) => SolverErrorModel::ContextError(s@),
            SolverError::UnsupportedType(s) => SolverErrorModel::UnsupportedType(s@),
            SolverError::NotAPrimitiveType => SolverErrorModel::NotAPrimitiveType,
            SolverError::ModelEvaluationError(s) => SolverErrorModel::ModelEvaluationError(s@),
            SolverError::UnsupportedExpression(s) => SolverErrorModel::UnsupportedExpression(s@),
            SolverError::UnsupportedStatement(s) => SolverErrorModel::UnsupportedStatement(s@),
            SolverError::Unsatisfiable => SolverErrorModel::Unsatisfiable,
            SolverError::Unknown => SolverErrorModel::Unknown,
        }
    }
}

// ============================================================================
// Aliases
// ============================================================================

/// The path reached from `p` by following aliases, taking at most `fuel` steps;
/// `None` when the steps run out before a path that is no alias.
pub open spec fn alias_walk(aliases: Seq<(Seq<ComponentView>, Seq<ComponentView>)>, p: Seq<ComponentView>, fuel: nat) -> Option<Seq<ComponentView>>
    decreases fuel,
{
    match key_lookup(aliases, p) {
        None => Some(p),
        Some(t) => if fuel == 0 { None } else { alias_walk(aliases, t, (fuel - 1) as nat) },
    }
}

/// The path that `p` stands for: aliases are followed until a path that is no alias;
/// a chain of aliases that runs in a circle (it cannot end within as many steps as
/// there are aliases) gives `p` itself.
pub open spec fn resolved(aliases: Seq<(Seq<ComponentView>, Seq<ComponentView>)>, p: Seq<ComponentView>) -> Seq<ComponentView> {
    match alias_walk(aliases, p, aliases.len()) {
        Some(q) => q,
        None => p,
    }
}

proof fn lemma_alias_walk_end(aliases: Seq<(Seq<ComponentView>, Seq<ComponentView>)>, p: Seq<ComponentView>, fuel: nat)
    ensures
        alias_walk(aliases, p, fuel) matches Some(q) ==> key_lookup(aliases, q) is None,
    decreases fuel,
{
    if key_lookup(aliases, p) is Some && fuel > 0 {
        lemma_alias_walk_end(aliases, key_lookup(aliases, p)->0, (fuel - 1) as nat);
    }
}

/// Resolving a path ends at a path that is no alias, unless the aliases run in a
/// circle, in which case the path itself is kept; and resolving again changes nothing.
pub proof fn lemma_resolved_is_final(aliases: Seq<(Seq<ComponentView>, Seq<ComponentView>)>, p: Seq<ComponentView>)
    ensures
        key_lookup(aliases, resolved(aliases, p)) is None || resolved(aliases, p) == p,
        resolved(aliases, resolved(aliases, p)) == resolved(aliases, p),
{
    lemma_alias_walk_end(aliases, p, aliases.len());
    let q = resolved(aliases, p);
    if key_lookup(aliases, q) is None {
        assert(alias_walk(aliases, q, aliases.len()) == Some(q));
    } else {
        assert(q == p);
    }
}

/// The aliases of a context as plain values.
pub open spec fn aliases_model<'a>(a: Seq<(VariablePath<'a>, VariablePath<'a>)>) -> Seq<(Seq<ComponentView>, Seq<ComponentView>)> {
    a.map_values(|e: (VariablePath<'a>, VariablePath<'a>)| (path_view(e.0.components@), path_view(e.1.components@)))
}

// ============================================================================
// The solver context
// ============================================================================

/// The solver's state: the Z3 solver, the variable trees by root name, the aliases of
/// reference variables, the return expressions of functions, and the progress of
/// solving.
pub struct SolverContext<'src> {
    /// Z3 context.
    pub z3_ctx: z3::Context,
    /// Z3 solver; assertions accumulate in it.
    pub z3_solver: TermSolver,
    table: &'src StructTable,
    variables: Vec<(&'src str, VariableNode<'src>)>,
    alias_map: Vec<(VariablePath<'src>, VariablePath<'src>)>,
    function_return_exprs: Vec<(&'src str, &'src ResolvedExpr)>,
    deferred_constraints: Vec<DeferredConstraint<'src>>,
    current_solution: Option<Solution<'src>>,
    /// Counter for naming the variables that scoped `let`s declare.
    pub scoped_let_counter: usize,
}

impl<'src> SolverContext<'src> {
    /// The struct definitions that the types of the variables refer to.
    pub closed spec fn struct_table(&self) -> StructTable {
        *self.table
    }

    /// The counter for naming scoped variables.
    pub closed spec fn let_counter(&self) -> usize {
        self.scoped_let_counter
    }

    /// The root variables, by name, with their trees.
    pub closed spec fn vars(&self) -> Seq<(Seq<char>, NodeModel)> {
        named_models(self.variables@, 0)
    }

    /// The aliases, alias path first.
    pub closed spec fn aliases(&self) -> Seq<(Seq<ComponentView>, Seq<ComponentView>)> {
        aliases_model(self.alias_map@)
    }

    /// The registered function return expressions, by function name.
    pub closed spec fn function_returns(&self) -> Seq<(Seq<char>, ResolvedExpr)> {
        self.function_return_exprs@.map_values(|e: (&'src str, &'src ResolvedExpr)| (e.0@, *e.1))
    }

    /// The constraints deferred so far.
    pub closed spec fn deferred(&self) -> Seq<DeferredConstraint<'src>> {
        self.deferred_constraints@
    }

    /// The solution of the last solve, if any.
    pub closed spec fn solution(&self) -> Option<Solution<'src>> {
        self.current_solution
    }

    /// The terms that the library asserted to the solver, in order.
    pub closed spec fn asserted(&self) -> Seq<TermModel> {
        self.z3_solver.asserted()
    }

    /// Forgets the deferred constraints, returning how many there were; nothing
    /// else changes.
    pub fn take_deferred_count(&mut self) -> (n: usize)
        ensures
            n == old(self).deferred().len(),
            final(self).deferred().len() == 0,
            final(self).asserted() == old(self).asserted(),
            final(self).vars() == old(self).vars(),
            final(self).aliases() == old(self).aliases(),
            final(self).solution() == old(self).solution(),
            final(self).function_returns() == old(self).function_returns(),
            final(self).struct_table() == old(self).struct_table(),
            final(self).let_counter() == old(self).let_counter(),
    {
        let n = self.deferred_constraints.len();
        self.deferred_constraints = Vec::new();
        n
    }

    /// The descriptions of the deferred constraints.
    pub fn deferred_descriptions(&self) -> (d: Vec<String>)
        ensures
            d@.len() == self.deferred().len(),
            forall|k: int| 0 <= k < d@.len() ==> #[trigger] d@[k]@ == self.deferred()[k].description@,
    {
        let mut d: Vec<String> = Vec::new();
        let mut i: usize = 0;
        while i < self.deferred_constraints.len()
            invariant
                i <= self.deferred_constraints@.len(),
                d@.len() == i,
                forall|k: int| 0 <= k < i ==> #[trigger] d@[k]@ == self.deferred_constraints@[k].description@,
            decreases self.deferred_constraints.len() - i,
        {
            d.push(self.deferred_constraints[i].description.clone());
            i = i + 1;
        }
        d
    }

    /// Records `s` as the solution of the last solve; nothing else changes.
    pub fn set_solution(&mut self, s: Solution<'src>)
        ensures
            final(self).solution() == Some(s),
            final(self).asserted() == old(self).asserted(),
            final(self).vars() == old(self).vars(),
            final(self).aliases() == old(self).aliases(),
            final(self).deferred() == old(self).deferred(),
            final(self).function_returns() == old(self).function_returns(),
            final(self).struct_table() == old(self).struct_table(),
            final(self).let_counter() == old(self).let_counter(),
    {
        self.current_solution = Some(s);
    }

    /// Checks the solver; the answer is the solver's.
    pub fn check(&self) -> CheckOutcome {
        solver_check(self.z3_solver.raw())
    }

    /// Asserts `b` to the solver; nothing else changes.
    pub fn assert_term(&mut self, b: &BoolTerm)
        ensures
            final(self).asserted() == old(self).asserted().push(b.model()),
            final(self).vars() == old(self).vars(),
            final(self).aliases() == old(self).aliases(),
            final(self).solution() == old(self).solution(),
            final(self).function_returns() == old(self).function_returns(),
            final(self).deferred() == old(self).deferred(),
            final(self).struct_table() == old(self).struct_table(),
            final(self).let_counter() == old(self).let_counter(),
    {
        solver_assert(&mut self.z3_solver, b);
    }

    /// Creates a context with no variable, alias, function or solution.
    pub fn new(z3_ctx: z3::Context, z3_solver: z3::Solver, table: &'src StructTable) -> (c: SolverContext<'src>)
        ensures
            c.vars().len() == 0,
            c.aliases().len() == 0,
            c.function_returns().len() == 0,
            c.deferred().len() == 0,
            c.solution() is None,
            c.struct_table() == *table,
            c.let_counter() == 0,
            c.asserted() == Seq::<TermModel>::empty(),
    {
        let c = SolverContext {
            z3_ctx,
            z3_solver: TermSolver::adopt(z3_solver),
            table,
            variables: Vec::new(),
            alias_map: Vec::new(),
            function_return_exprs: Vec::new(),
            deferred_constraints: Vec::new(),
            current_solution: None,
            scoped_let_counter: 0,
        };
        proof {
            lemma_named_models(c.variables@, 0);
        }
        c
    }

    /// Registers `return_expr` as the return expression of the function `function_name`,
    /// replacing an earlier one.
    pub fn register_function_return(&mut self, function_name: &'src str, return_expr: &'src ResolvedExpr)
        ensures
            final(self).function_returns() == key_insert(old(self).function_returns(), function_name@, *return_expr),
            final(self).vars() == old(self).vars(),
            final(self).aliases() == old(self).aliases(),
    {
        let ghost fr = self.function_returns();
        proof {
            lemma_key_index(fr, function_name@, 0);
        }
        let mut i: usize = 0;
        while i < self.function_return_exprs.len()
            invariant
                i <= self.function_return_exprs@.len(),
                fr == self.function_returns(),
                fr.len() == self.function_return_exprs@.len(),
                forall|k: int| 0 <= k < i ==> fr[k].0 != function_name@,
                self.variables == old(self).variables,
                self.alias_map == old(self).alias_map,
                self.function_return_exprs == old(self).function_return_exprs,
            decreases self.function_return_exprs.len() - i,
        {
            assert(fr[i as int] == (self.function_return_exprs@[i as int].0@, *self.function_return_exprs@[i as int].1));
            if same_text(self.function_return_exprs[i].0, function_name) {
                proof {
                    lemma_key_index(fr, function_name@, 0);
                    match key_index(fr, function_name@, 0) {
                        Some(x) => { assert(x == i); },
                        None => { assert(false); },
                    }
                }
                self.function_return_exprs.set(i, (function_name, return_expr));
                assert(self.function_returns() =~= key_insert(fr, function_name@, *return_expr));
                return;
            }
            i = i + 1;
        }
        proof {
            lemma_key_index(fr, function_name@, 0);
            if let Some(x) = key_index(fr, function_name@, 0) {
                assert(fr[x].0 == function_name@);
            }
        }
        self.function_return_exprs.push((function_name, return_expr));
        assert(self.function_returns() =~= key_insert(fr, function_name@, *return_expr));
    }

    /// The return expression registered for the function `function_name`.
    pub fn get_function_return(&self, function_name: &str) -> (r: Option<&'src ResolvedExpr>)
        ensures
            match key_lookup(self.function_returns(), function_name@) {
                Some(e) => r matches Some(x) && *x == e,
                None => r is None,
            },
    {
        let ghost fr = self.function_returns();
        let mut i: usize = 0;
        while i < self.function_return_exprs.len()
            invariant
                i <= self.function_return_exprs@.len(),
                fr == self.function_returns(),
                fr.len() == self.function_return_exprs@.len(),
                forall|k: int| 0 <= k < i ==> fr[k].0 != function_name@,
            decreases self.function_return_exprs.len() - i,
        {
            assert(fr[i as int] == (self.function_return_exprs@[i as int].0@, *self.function_return_exprs@[i as int].1));
            if same_text(self.function_return_exprs[i].0, function_name) {
                proof {
                    lemma_key_index(fr, function_name@, 0);
                    match key_index(fr, function_name@, 0) {
                        Some(x) => { assert(x == i); },
                        None => { assert(false); },
                    }
                }
                return Some(self.function_return_exprs[i].1);
            }
            i = i + 1;
        }
        proof {
            lemma_key_index(fr, function_name@, 0);
            if let Some(x) = key_index(fr, function_name@, 0) {
                assert(fr[x].0 == function_name@);
            }
        }
        None
    }

    /// Records that `alias` stands for `target`, replacing an earlier target of `alias`.
    pub fn register_alias(&mut self, alias: VariablePath<'src>, target: VariablePath<'src>)
        ensures
            final(self).aliases() == key_insert(old(self).aliases(),
                path_view(alias.components@), path_view(target.components@)),
            final(self).vars() == old(self).vars(),
            final(self).function_returns() == old(self).function_returns(),
            final(self).solution() == old(self).solution(),
            final(self).asserted() == old(self).asserted(),
            final(self).struct_table() == old(self).struct_table(),
    {
        let ghost al = self.aliases();
        let ghost key = path_view(alias.components@);
        let ghost val = path_view(target.components@);
        match self.alias_index(&alias) {
            Some(i) => {
                proof {
                    lemma_key_index(al, key, 0);
                }
                self.alias_map.set(i, (alias, target));
                assert(self.aliases() =~= key_insert(al, key, val));
            },
            None => {
                self.alias_map.push((alias, target));
                assert(self.aliases() =~= key_insert(al, key, val));
            },
        }
    }

    /// The position of the first alias entry for `path`.
    fn alias_index(&self, path: &VariablePath<'src>) -> (r: Option<usize>)
        ensures
            match r {
                Some(i) => key_index(self.aliases(), path_view(path.components@), 0) == Some(i as int),
                None => key_index(self.aliases(), path_view(path.components@), 0) is None,
            },
    {
        let ghost al = self.aliases();
        let ghost key = path_view(path.components@);
        proof {
            lemma_key_index(al, key, 0);
        }
        let mut i: usize = 0;
        while i < self.alias_map.len()
            invariant
                i <= self.alias_map@.len(),
                al == self.aliases(),
                key == path_view(path.components@),
                al.len() == self.alias_map@.len(),
                forall|k: int| 0 <= k < i ==> al[k].0 != key,
            decreases self.alias_map.len() - i,
        {
            assert(al[i as int].0 == path_view(self.alias_map@[i as int].0.components@));
            if self.alias_map[i].0.same_path(path) {
                proof {
                    lemma_key_index(al, key, 0);
                    match key_index(al, key, 0) {
                        Some(x) => { assert(x == i); },
                        None => { assert(false); },
                    }
                }
                return Some(i);
            }
            i = i + 1;
        }
        proof {
            lemma_key_index(al, key, 0);
            if let Some(x) = key_index(al, key, 0) {
                assert(al[x].0 == key);
            }
        }
        None
    }

    /// The path that `path` stands for: aliases are followed (`r1` to `r2` to `x`)
    /// until a path that is no alias; when the aliases run in a circle, `path` itself.
    pub fn resolve_alias(&self, path: &VariablePath<'src>) -> (r: VariablePath<'src>)
        ensures
            path_view(r.components@) == resolved(self.aliases(), path_view(path.components@)),
    {
        let ghost al = self.aliases();
        let ghost p = path_view(path.components@);
        let n = self.alias_map.len();
        let mut current = path.duplicate();
        let mut steps: usize = 0;
        loop
            invariant
                al == self.aliases(),
                p == path_view(path.components@),
                n == al.len(),
                steps <= n,
                alias_walk(al, p, n as nat) == alias_walk(al, path_view(current.components@), (n - steps) as nat),
            decreases n - steps,
        {
            let ghost c = path_view(current.components@);
            match self.alias_index(&current) {
                None => {
                    return current;
                },
                Some(i) => {
                    if steps == n {
                        return path.duplicate();
                    }
                    proof {
                        lemma_key_index(al, c, 0);
                        assert(key_lookup(al, c) == Some(al[i as int].1));
                    }
                    current = self.alias_map[i].1.duplicate();
                    steps = steps + 1;
                },
            }
        }
    }

    /// The node at `path`, after following aliases: the root is the variable named by
    /// the path's first component, which must be a field.
    pub fn get_variable(&self, path: &VariablePath<'src>) -> (r: Option<&VariableNode<'src>>)
        ensures
            match variable_at(self.vars(), self.aliases(), path_view(path.components@)) {
                Some(m) => r matches Some(n) && node_model(*n) == m,
                None => r is None,
            },
    {
        if path.is_empty() {
            return None;
        }
        let resolved_path = self.resolve_alias(path);
        let ghost q = path_view(resolved_path.components@);
        let components = resolved_path.components();
        if components.len() == 0 {
            return None;
        }
        proof {
            assert(q[0] == component_view(components@[0]));
            assert(q.drop_first() =~= q.skip(1));
        }
        let root_name = match components[0] {
            PathComponent::Field(name) => name,
            PathComponent::Index(_) => {
                return None;
            },
        };
        proof {
            lemma_named_models(self.variables@, 0);
        }
        match find_child(&self.variables, root_name) {
            Some(j) => {
                proof {
                    lemma_key_index(self.vars(), root_name@, 0);
                    assert(path_view(components@).skip(1) =~= q.drop_first());
                }
                self.variables[j].1.get_from(components, 1)
            },
            None => None,
        }
    }

    /// Defers a constraint until values of `dependencies` are known.
    pub fn defer_constraint(&mut self, dependencies: Vec<&'src str>, description: String)
        ensures
            final(self).deferred() == old(self).deferred().push(DeferredConstraint { dependencies, description }),
            final(self).vars() == old(self).vars(),
            final(self).aliases() == old(self).aliases(),
    {
        self.deferred_constraints.push(DeferredConstraint { dependencies, description });
    }

    /// The solution of the last solve, if any.
    pub fn get_current_solution(&self) -> (r: Option<&Solution<'src>>)
        ensures
            match self.solution() {
                Some(s) => r matches Some(x) && *x == s,
                None => r is None,
            },
    {
        match &self.current_solution {
            Some(s) => Some(s),
            None => None,
        }
    }

    /// The value of the root variable `var` in the solution of the last solve.
    pub fn get_variable_value(&self, var: &'src str) -> (r: Option<&Value>)
        ensures
            match self.solution() {
                Some(s) => match key_lookup(assignments_model(s.assignments@), seq![ComponentView::Field(var@)]) {
                    Some(v) => r matches Some(x) && *x == v,
                    None => r is None,
                },
                None => r is None,
            },
    {
        let path = VariablePath::from_name(var);
        proof {
            assert(path_view(path.components@) =~= seq![ComponentView::Field(var@)]);
        }
        match &self.current_solution {
            Some(sol) => solution_value(&sol.assignments, &path),
            None => None,
        }
    }
}

/// The node at `path` among the root variables `vars`, after following aliases; no
/// node for an empty path.
pub open spec fn variable_at(vars: Seq<(Seq<char>, NodeModel)>, aliases: Seq<(Seq<ComponentView>, Seq<ComponentView>)>, path: Seq<ComponentView>) -> Option<NodeModel> {
    if path.len() == 0 || resolved(aliases, path).len() == 0 {
        None
    } else {
        model_at(NodeModel::Struct(vars), resolved(aliases, path))
    }
}

/// The value of the first assignment to `path`.
fn solution_value<'a, 'src>(assignments: &'a Vec<(VariablePath<'src>, Value)>, path: &VariablePath<'src>) -> (r: Option<&'a Value>)
    ensures
        match key_lookup(assignments_model(assignments@), path_view(path.components@)) {
            Some(v) => r matches Some(x) && *x == v,
            None => r is None,
        },
{
    let ghost am = assignments_model(assignments@);
    let ghost key = path_view(path.components@);
    let mut i: usize = 0;
    while i < assignments.len()
        invariant
            i <= assignments@.len(),
            am == assignments_model(assignments@),
            key == path_view(path.components@),
            am.len() == assignments@.len(),
            forall|k: int| 0 <= k < i ==> am[k].0 != key,
        decreases assignments.len() - i,
    {
        assert(am[i as int] == (path_view(assignments@[i as int].0.components@), assignments@[i as int].1));
        if assignments[i].0.same_path(path) {
            proof {
                lemma_key_index(am, key, 0);
                match key_index(am, key, 0) {
                    Some(x) => { assert(x == i); },
                    None => { assert(false); },
                }
            }
            return Some(&assignments[i].1);
        }
        i = i + 1;
    }
    proof {
        lemma_key_index(am, key, 0);
        if let Some(x) = key_index(am, key, 0) {
            assert(am[x].0 == key);
        }
    }
    None
}

// ============================================================================
// Building variable trees
// ============================================================================

/// No field name of any struct definition contains a NUL character.
pub open spec fn table_names_ok(table: StructTable) -> bool {
    forall|d: int, f: int| 0 <= d < table.defs@.len() && 0 <= f < table.defs@[d].fields@.len()
        ==> !(#[trigger] table.defs@[d].fields@[f]).name@.contains('\0')
}

/// The name of a type that no variable tree can be built for.
pub open spec fn unsupported_name(ty: ResolvedType) -> Option<Seq<char>> {
    match ty {
        ResolvedType::Real { .. } => Some("Real"@),
        ResolvedType::Algebraic { .. } => Some("Algebraic"@),
        _ => None,
    }
}

/// The first type within `ty` that no variable tree can be built for (fields in
/// order, the element type of a non-empty array), expanding `n` struct levels.
pub open spec fn tree_error(table: StructTable, ty: ResolvedType, n: nat) -> Option<Seq<char>>
    decreases n, ty_size(ty), 0nat,
{
    match ty {
        ResolvedType::Reference { inner, .. } => tree_error(table, *inner, n),
        ResolvedType::Array { element_type, size, .. } =>
            if size == 0 { None } else { tree_error(table, *element_type, n) },
        ResolvedType::UserDefined { definition, .. } =>
            if n == 0 || definition >= table.defs@.len() {
                None
            } else {
                fields_tree_error(table, table.defs@[definition as int].fields@, 0, (n - 1) as nat)
            },
        _ => unsupported_name(ty),
    }
}

/// [`tree_error`] for the first failing field of `fields[i..]`.
pub open spec fn fields_tree_error(table: StructTable, fields: Seq<FieldDefinition>, i: int, n: nat) -> Option<Seq<char>>
    decreases n, fields_size(fields, i), 0nat,
{
    if i < 0 || i >= fields.len() {
        None
    } else {
        match tree_error(table, fields[i].field_type, n) {
            Some(e) => Some(e),
            None => fields_tree_error(table, fields, i + 1, n),
        }
    }
}

/// The children of a struct node after its first `k` fields have been added, the
/// field named `fields[j].name` with the tree `ms[j]`; a later field of the same name
/// replaces an earlier one in place.
pub open spec fn inserted_fields(fields: Seq<FieldDefinition>, ms: Seq<NodeModel>, k: int) -> Seq<(Seq<char>, NodeModel)>
    decreases k,
{
    if k <= 0 {
        Seq::empty()
    } else {
        key_insert(inserted_fields(fields, ms, k - 1), fields[k - 1].name@, ms[k - 1])
    }
}

/// `m` is a tree built for a variable of type `ty`: an `i32` is an integer leaf, an
/// `f64` a real leaf, a `bool` a boolean leaf; a reference is the tree of its target
/// type; an array has one tree per element; a struct has one child per field, named
/// by the field.
pub open spec fn tree_of(table: StructTable, ty: ResolvedType, m: NodeModel, n: nat) -> bool
    decreases n, ty_size(ty),
{
    match ty {
        ResolvedType::I32 { .. } => m matches NodeModel::Leaf(Z3Primitive::Int(_)),
        ResolvedType::F64 { .. } => m matches NodeModel::Leaf(Z3Primitive::Real(_)),
        ResolvedType::Bool { .. } => m matches NodeModel::Leaf(Z3Primitive::Bool(_)),
        ResolvedType::Reference { inner, .. } => tree_of(table, *inner, m, n),
        ResolvedType::Array { element_type, size, .. } => match m {
            NodeModel::Array(xs) => xs.len() == size
                && forall|i: int| 0 <= i < xs.len() ==> tree_of(table, *element_type, #[trigger] xs[i], n),
            _ => false,
        },
        ResolvedType::UserDefined { definition, .. } => match m {
            NodeModel::Struct(cs) => {
                &&& n > 0
                &&& definition < table.defs@.len()
                &&& exists|ms: Seq<NodeModel>| {
                    &&& ms.len() == table.defs@[definition as int].fields@.len()
                    &&& forall|i: int| 0 <= i < ms.len()
                        ==> tree_of(table, table.defs@[definition as int].fields@[i].field_type, #[trigger] ms[i], (n - 1) as nat)
                    &&& cs == inserted_fields(table.defs@[definition as int].fields@, ms, ms.len() as int)
                }
            },
            _ => false,
        },
        _ => false,
    }
}

/// Adds `node` under `name`, replacing the first child of that name.
fn insert_child<'src>(children: &mut Vec<(&'src str, VariableNode<'src>)>, name: &'src str, node: VariableNode<'src>)
    ensures
        named_models(final(children)@, 0) == key_insert(named_models(old(children)@, 0), name@, node_model(node)),
{
    let ghost cs = named_models(children@, 0);
    proof {
        lemma_named_models(children@, 0);
    }
    match find_child(children, name) {
        Some(j) => {
            proof {
                lemma_key_index(cs, name@, 0);
                lemma_named_models_update(children@, j as int, (name, node));
            }
            children.set(j, (name, node));
        },
        None => {
            children.push((name, node));
            proof {
                lemma_named_models(children@, 0);
                assert(named_models(children@, 0) =~= cs.push((name@, node_model(node))));
            }
        },
    }
}

impl<'src> SolverContext<'src> {
    /// The Z3 constant for the primitive variable at `path`, named by the path.
    fn create_z3_primitive(&self, path: &VariablePath<'src>, typ: &ResolvedType) -> (r: Result<Z3Primitive, SolverError>)
        requires
            field_names_ok(path.components@),
        ensures
            match typ {
                ResolvedType::I32 { .. } => r matches Ok(Z3Primitive::Int(_)),
                ResolvedType::F64 { .. } => r matches Ok(Z3Primitive::Real(_)),
                ResolvedType::Bool { .. } => r matches Ok(Z3Primitive::Bool(_)),
                _ => r matches Err(e) && e@ == SolverErrorModel::NotAPrimitiveType,
            },
    {
        let name = path.to_z3_name();
        proof {
            lemma_path_name_no_nul(path.components@);
        }
        match typ {
            ResolvedType::I32 { .. } => Ok(Z3Primitive::Int(int_const(name.as_str()))),
            ResolvedType::F64 { .. } => Ok(Z3Primitive::Real(real_const(name.as_str()))),
            ResolvedType::Bool { .. } => Ok(Z3Primitive::Bool(bool_const(name.as_str()))),
            _ => Err(SolverError::NotAPrimitiveType),
        }
    }

    /// The tree for a variable of type `typ` at `path`, one Z3 constant per primitive
    /// part, each named by its path.
    fn build_variable_tree(&self, path: &VariablePath<'src>, typ: &'src ResolvedType, Ghost(n): Ghost<nat>)
        -> (r: Result<VariableNode<'src>, SolverError>)
        requires
            table_wf(*self.table),
            table_names_ok(*self.table),
            type_in_table(*self.table, *typ),
            bounded(*self.table, *typ, n),
            field_names_ok(path.components@),
        ensures
            match tree_error(*self.table, *typ, n) {
                Some(k) => r matches Err(e) && e@ == SolverErrorModel::UnsupportedType(k),
                None => r matches Ok(node) && tree_of(*self.table, *typ, node_model(node), n),
            },
        decreases n, ty_size(*typ),
    {
        let table: &'src StructTable = self.table;
        match typ {
            ResolvedType::I32 { .. } | ResolvedType::F64 { .. } | ResolvedType::Bool { .. } => {
                match self.create_z3_primitive(path, typ) {
                    Ok(z3_var) => Ok(VariableNode::Primitive { z3_var }),
                    Err(e) => Err(e),
                }
            },
            ResolvedType::UserDefined { definition, .. } => {
                let fields: &'src Vec<FieldDefinition> = &table.defs[*definition].fields;
                let ghost m = (n - 1) as nat;
                let mut children: Vec<(&'src str, VariableNode<'src>)> = Vec::new();
                let ghost mut ms: Seq<NodeModel> = Seq::empty();
                let mut i: usize = 0;
                proof {
                    lemma_named_models(children@, 0);
                }
                while i < fields.len()
                    invariant
                        table_wf(*table),
                        table_names_ok(*table),
                        table == self.table,
                        *definition < table.defs@.len(),
                        n > 0,
                        m == n - 1,
                        fields@ == table.defs@[*definition as int].fields@,
                        fields_bounded(*table, fields@, 0, m),
                        field_names_ok(path.components@),
                        i <= fields@.len(),
                        ms.len() == i,
                        fields_tree_error(*table, fields@, 0, m) == fields_tree_error(*table, fields@, i as int, m),
                        tree_error(*table, *typ, n) == fields_tree_error(*table, fields@, 0, m),
                        forall|k: int| 0 <= k < i ==> tree_of(*table, fields@[k].field_type, #[trigger] ms[k], m),
                        named_models(children@, 0) == inserted_fields(fields@, ms, i as int),
                    decreases fields.len() - i,
                {
                    let field: &'src FieldDefinition = &fields[i];
                    proof {
                        lemma_fields_bounded_each(*table, fields@, 0, m, i as int);
                        assert(type_in_table(*table, table.defs@[*definition as int].fields@[i as int].field_type));
                        assert(!table.defs@[*definition as int].fields@[i as int].name@.contains('\0'));
                    }
                    let child_path = path.with_field(field.name.as_str());
                    proof {
                        assert forall|k: int| 0 <= k < child_path.components@.len() implies
                            (#[trigger] child_path.components@[k] matches PathComponent::Field(nm) ==> !nm@.contains('\0')) by {
                            if k < path.components@.len() {
                                assert(child_path.components@[k] == path.components@[k]);
                            }
                        }
                    }
                    let child = match self.build_variable_tree(&child_path, &field.field_type, Ghost(m)) {
                        Ok(c) => c,
                        Err(e) => {
                            return Err(e);
                        },
                    };
                    let ghost before_ms = ms;
                    insert_child(&mut children, field.name.as_str(), child);
                    proof {
                        ms = ms.push(node_model(child));
                        assert(inserted_fields(fields@, ms, i + 1)
                            == key_insert(inserted_fields(fields@, ms, i as int), fields@[i as int].name@, ms[i as int]));
                        lemma_inserted_fields_prefix(fields@, before_ms, ms, i as int);
                        assert forall|k: int| 0 <= k < i + 1 implies tree_of(*table, fields@[k].field_type, #[trigger] ms[k], m) by {
                            if k < i {
                                assert(ms[k] == before_ms[k]);
                            }
                        }
                    }
                    i = i + 1;
                }
                let node = VariableNode::Struct { children };
                proof {
                    assert(fields_tree_error(*table, fields@, i as int, m) is None);
                    assert(ms.len() == table.defs@[*definition as int].fields@.len());
                }
                Ok(node)
            },
            ResolvedType::Array { element_type, size, .. } => {
                let mut children: Vec<VariableNode<'src>> = Vec::new();
                let mut i: usize = 0;
                proof {
                    lemma_node_models(children@, 0);
                }
                while i < *size
                    invariant
                        table_wf(*table),
                        table_names_ok(*table),
                        table == self.table,
                        type_in_table(*table, **element_type),
                        bounded(*table, **element_type, n),
                        field_names_ok(path.components@),
                        i <= *size,
                        children@.len() == i,
                        i > 0 ==> tree_error(*table, **element_type, n) is None,
                        *size > 0 ==> tree_error(*table, *typ, n) == tree_error(*table, **element_type, n),
                        ty_size(**element_type) < ty_size(*typ),
                        forall|k: int| 0 <= k < i ==> tree_of(*table, **element_type, #[trigger] node_model(children@[k]), n),
                    decreases *size - i,
                {
                    let child_path = path.with_index(i);
                    proof {
                        assert forall|k: int| 0 <= k < child_path.components@.len() implies
                            (#[trigger] child_path.components@[k] matches PathComponent::Field(nm) ==> !nm@.contains('\0')) by {
                            if k < path.components@.len() {
                                assert(child_path.components@[k] == path.components@[k]);
                            }
                        }
                    }
                    let child = match self.build_variable_tree(&child_path, element_type, Ghost(n)) {
                        Ok(c) => c,
                        Err(e) => {
                            return Err(e);
                        },
                    };
                    let ghost before = children@;
                    children.push(child);
                    proof {
                        assert forall|k: int| 0 <= k < i + 1 implies tree_of(*table, **element_type, #[trigger] node_model(children@[k]), n) by {
                            if k < i {
                                assert(children@[k] == before[k]);
                            }
                        }
                    }
                    i = i + 1;
                }
                let node = VariableNode::Array { children };
                proof {
                    lemma_node_models(children@, 0);
                    let xs = node_models(children@, 0);
                    assert forall|k: int| 0 <= k < xs.len() implies tree_of(*table, **element_type, #[trigger] xs[k], n) by {
                        assert(xs[k] == node_model(children@[k]));
                    }
                }
                Ok(node)
            },
            ResolvedType::Reference { inner, .. } => self.build_variable_tree(path, inner, Ghost(n)),
            ResolvedType::Real { .. } => Err(SolverError::UnsupportedType(String::from_str("Real"))),
            ResolvedType::Algebraic { .. } => Err(SolverError::UnsupportedType(String::from_str("Algebraic"))),
        }
    }
}

proof fn lemma_inserted_fields_prefix(fields: Seq<FieldDefinition>, ms: Seq<NodeModel>, ms2: Seq<NodeModel>, k: int)
    requires
        0 <= k <= ms.len(),
        ms.len() <= ms2.len(),
        forall|x: int| 0 <= x < k ==> ms[x] == ms2[x],
    ensures
        inserted_fields(fields, ms, k) == inserted_fields(fields, ms2, k),
    decreases k,
{
    if k > 0 {
        lemma_inserted_fields_prefix(fields, ms, ms2, k - 1);
    }
}

// ============================================================================
// Declaring variables
// ============================================================================

/// Replacing a part of the tree by what is already there leaves the tree as it is.
pub proof fn lemma_replace_same(m: NodeModel, path: Seq<ComponentView>)
    requires
        model_at(m, path) is Some,
    ensures
        replace_model(m, path, model_at(m, path)->0) == m,
    decreases path.len(),
{
    if path.len() > 0 {
        match (m, path[0]) {
            (NodeModel::Struct(cs), ComponentView::Field(f)) => {
                let j = key_index(cs, f, 0)->0;
                lemma_key_index(cs, f, 0);
                lemma_replace_same(cs[j].1, path.drop_first());
                assert(cs.update(j, (cs[j].0, cs[j].1)) =~= cs);
            },
            (NodeModel::Array(xs), ComponentView::Index(k)) => {
                lemma_replace_same(xs[k as int], path.drop_first());
                assert(xs.update(k as int, xs[k as int]) =~= xs);
            },
            _ => {},
        }
    }
}

/// The root variables after declaring a variable with tree `m` at `path`, and the
/// error that refused it, if any. A path of one field declares a root variable
/// (replacing one of the same name); a longer path adds (or replaces) a field of the
/// struct variable that the rest of the path leads to.
pub open spec fn declare_spec(vars: Seq<(Seq<char>, NodeModel)>, path: Seq<ComponentView>, m: NodeModel) -> (Seq<(Seq<char>, NodeModel)>, Option<SolverErrorModel>) {
    if path.len() == 1 {
        match path[0] {
            ComponentView::Field(name) => (key_insert(vars, name, m), None),
            ComponentView::Index(_) => (vars, Some(SolverErrorModel::ContextError("Invalid path for variable declaration"@))),
        }
    } else {
        let parent = path.take(path.len() - 1);
        match path.last() {
            ComponentView::Index(_) => (vars, Some(SolverErrorModel::ContextError("Last component must be a field name"@))),
            ComponentView::Field(field) => match parent[0] {
                ComponentView::Index(_) => (vars, Some(SolverErrorModel::ContextError("Parent path must start with a field"@))),
                ComponentView::Field(root) => match key_index(vars, root, 0) {
                    None => (vars, Some(SolverErrorModel::UndefinedVariable(root))),
                    Some(j) => match model_at(vars[j].1, parent.drop_first()) {
                        None => (vars, Some(SolverErrorModel::UndefinedVariable("Parent path not found for variable declaration"@))),
                        Some(NodeModel::Struct(cs)) => (
                            vars.update(j, (root, replace_model(vars[j].1, parent.drop_first(), NodeModel::Struct(key_insert(cs, field, m))))),
                            None,
                        ),
                        Some(_) => (vars, Some(SolverErrorModel::ContextError("Cannot add field to non-struct variable"@))),
                    },
                },
            },
        }
    }
}

/// The error of an outcome, if any.
pub open spec fn solver_outcome(r: Result<(), SolverError>) -> Option<SolverErrorModel> {
    match r {
        Ok(()) => None,
        Err(e) => Some(e@),
    }
}

/// The first `k` components of a path.
fn path_prefix<'src>(components: &[PathComponent<'src>], k: usize) -> (r: Vec<PathComponent<'src>>)
    requires
        k <= components@.len(),
    ensures
        r@ == components@.take(k as int),
{
    let mut r: Vec<PathComponent<'src>> = Vec::new();
    let mut i: usize = 0;
    while i < k
        invariant
            i <= k,
            k <= components@.len(),
            r@ == components@.take(i as int),
        decreases k - i,
    {
        r.push(components[i]);
        assert(r@ =~= components@.take(i + 1));
        i = i + 1;
    }
    r
}

impl<'src> SolverContext<'src> {
    /// Declares a variable of type `typ` at `path`: its tree is built, one Z3 constant
    /// per primitive part, and placed as the root variable or struct field that the
    /// path names.
    pub fn declare_variable_at_path(&mut self, path: &VariablePath<'src>, typ: &'src ResolvedType) -> (r: Result<(), SolverError>)
        requires
            table_wf(old(self).struct_table()),
            table_names_ok(old(self).struct_table()),
            type_in_table(old(self).struct_table(), *typ),
            exists|n: nat| bounded(old(self).struct_table(), *typ, n),
            field_names_ok(path.components@),
            path.components@.len() > 0,
        ensures
            final(self).struct_table() == old(self).struct_table(),
            final(self).aliases() == old(self).aliases(),
            final(self).function_returns() == old(self).function_returns(),
            final(self).solution() == old(self).solution(),
            final(self).asserted() == old(self).asserted(),
            match tree_error(old(self).struct_table(), *typ, flatten_depth(old(self).struct_table(), *typ)) {
                Some(k) => r matches Err(e) && e@ == SolverErrorModel::UnsupportedType(k) && final(self).vars() == old(self).vars(),
                None => exists|m: NodeModel| {
                    &&& tree_of(old(self).struct_table(), *typ, m, flatten_depth(old(self).struct_table(), *typ))
                    &&& (final(self).vars(), solver_outcome(r)) == declare_spec(old(self).vars(), path_view(path.components@), m)
                },
            },
    {
        let ghost n = flatten_depth(*self.table, *typ);
        let ghost vars = self.vars();
        let ghost pv = path_view(path.components@);
        let node = match self.build_variable_tree(path, typ, Ghost(n)) {
            Ok(node) => node,
            Err(e) => {
                return Err(e);
            },
        };
        let ghost m = node_model(node);
        let components = path.components();
        proof {
            lemma_named_models(self.variables@, 0);
            assert(pv[0] == component_view(components@[0]));
            assert(pv.last() == component_view(components@[components@.len() - 1]));
        }
        if components.len() == 1 {
            match components[0] {
                PathComponent::Field(root_name) => {
                    insert_child(&mut self.variables, root_name, node);
                    proof {
                        assert(tree_of(*self.table, *typ, m, n));
                        assert(declare_spec(vars, pv, m) == (key_insert(vars, root_name@, m), None::<SolverErrorModel>));
                    }
                    return Ok(());
                },
                PathComponent::Index(_) => {
                    proof {
                        assert(tree_of(*self.table, *typ, m, n));
                        assert(declare_spec(vars, pv, m).0 == vars);
                    }
                    return Err(SolverError::ContextError(String::from_str("Invalid path for variable declaration")));
                },
            }
        }
        let last = components.len() - 1;
        let field_name = match components[last] {
            PathComponent::Field(name) => name,
            PathComponent::Index(_) => {
                proof {
                    assert(tree_of(*self.table, *typ, m, n));
                    assert(declare_spec(vars, pv, m).0 == vars);
                }
                return Err(SolverError::ContextError(String::from_str("Last component must be a field name")));
            },
        };
        let parent = path_prefix(components, last);
        let ghost pp = pv.take(pv.len() - 1);
        proof {
            assert(path_view(parent@) =~= pp);
            assert(pp[0] == component_view(parent@[0]));
            assert(path_view(parent@).skip(1) =~= pp.drop_first());
        }
        let root_name = match parent[0] {
            PathComponent::Field(name) => name,
            PathComponent::Index(_) => {
                return Err(SolverError::ContextError(String::from_str("Parent path must start with a field")));
            },
        };
        let j = match find_child(&self.variables, root_name) {
            Some(j) => j,
            None => {
                let e = SolverError::UndefinedVariable(String::from_str(root_name));
                proof {
                    assert(pv.len() >= 2);
                    assert(pp[0] == ComponentView::Field(root_name@));
                    assert(pv.last() == ComponentView::Field(field_name@));
                    assert(declare_spec(vars, pv, m) == (vars, Some(SolverErrorModel::UndefinedVariable(root_name@))));
                    assert(tree_of(*self.table, *typ, m, n));
                }
                return Err(e);
            },
        };
        let ghost old_vars = self.variables@;
        proof {
            lemma_key_index(vars, root_name@, 0);
            assert(vars[j as int] == (old_vars[j as int].0@, node_model(old_vars[j as int].1)));
            assert forall|e: (&'src str, VariableNode<'src>)| #[trigger] old_vars.update(j as int, e) == old_vars.update(j as int, e) implies
                named_models(old_vars.update(j as int, e), 0) == vars.update(j as int, (e.0@, node_model(e.1))) by {
                lemma_named_models_update(old_vars, j as int, e);
            }
            assert(vars.update(j as int, vars[j as int]) =~= vars);
        }
        let entry = &mut self.variables[j];
        match entry.1.get_mut_from(parent.as_slice(), 1) {
            None => Err(SolverError::UndefinedVariable(String::from_str("Parent path not found for variable declaration"))),
            Some(parent_node) => {
                proof {
                    lemma_replace_same(vars[j as int].1, pp.drop_first());
                }
                match parent_node {
                    VariableNode::Struct { children } => {
                        insert_child(children, field_name, node);
                        Ok(())
                    },
                    _ => Err(SolverError::ContextError(String::from_str("Cannot add field to non-struct variable"))),
                }
            },
        }
    }
}

/// Following a path one step further: the step is taken from where the path leads.
pub proof fn lemma_model_at_push(m: NodeModel, path: Seq<ComponentView>, c: ComponentView)
    ensures
        model_at(m, path.push(c)) == match model_at(m, path) {
            Some(x) => model_at(x, seq![c]),
            None => None,
        },
    decreases path.len(),
{
    let p2 = path.push(c);
    if path.len() == 0 {
        assert(p2 =~= seq![c]);
    } else {
        assert(p2[0] == path[0]);
        assert(p2.drop_first() =~= path.drop_first().push(c));
        match (m, path[0]) {
            (NodeModel::Struct(cs), ComponentView::Field(f)) => {
                if let Some(j) = key_index(cs, f, 0) {
                    lemma_key_index(cs, f, 0);
                    lemma_model_at_push(cs[j].1, path.drop_first(), c);
                }
            },
            (NodeModel::Array(xs), ComponentView::Index(k)) => {
                if k < xs.len() {
                    lemma_model_at_push(xs[k as int], path.drop_first(), c);
                }
            },
            _ => {},
        }
    }
}

/// Following the concatenation of two paths is following the first, then the second
/// from where the first leads; the empty path leads to the tree itself.
pub proof fn lemma_model_at_concat(m: NodeModel, p: Seq<ComponentView>, q: Seq<ComponentView>)
    ensures
        model_at(m, Seq::empty()) == Some(m),
        model_at(m, p + q) == match model_at(m, p) {
            Some(x) => model_at(x, q),
            None => None,
        },
    decreases p.len(),
{
    if p.len() == 0 {
        assert(p + q =~= q);
    } else {
        assert((p + q)[0] == p[0]);
        assert((p + q).drop_first() =~= p.drop_first() + q);
        match (m, p[0]) {
            (NodeModel::Struct(cs), ComponentView::Field(f)) => {
                if let Some(j) = key_index(cs, f, 0) {
                    lemma_model_at_concat(cs[j].1, p.drop_first(), q);
                }
            },
            (NodeModel::Array(xs), ComponentView::Index(k)) => {
                if k < xs.len() {
                    lemma_model_at_concat(xs[k as int], p.drop_first(), q);
                }
            },
            _ => {},
        }
    }
}

/// Looking up a path made of two parts through a node is looking up the first part,
/// then the second from where the first leads; the empty path leads to the node.
pub proof fn lemma_get_at_path_split(n: NodeModel, p: Seq<PathComponent>, q: Seq<PathComponent>)
    ensures
        model_at(n, path_view(Seq::empty())) == Some(n),
        model_at(n, path_view(p + q)) == match model_at(n, path_view(p)) {
            Some(x) => model_at(x, path_view(q)),
            None => None,
        },
{
    assert(path_view(Seq::<PathComponent>::empty()) =~= Seq::<ComponentView>::empty());
    assert(path_view(p + q) =~= path_view(p) + path_view(q));
    lemma_model_at_concat(n, path_view(p), path_view(q));
}

/// A declaration that is accepted can be read back: the path declared at leads to
/// the declared tree.
pub proof fn lemma_declare_then_read(vars: Seq<(Seq<char>, NodeModel)>, path: Seq<ComponentView>, m: NodeModel)
    requires
        path.len() > 0,
        declare_spec(vars, path, m).1 is None,
    ensures
        model_at(NodeModel::Struct(declare_spec(vars, path, m).0), path) == Some(m),
{
    let after = declare_spec(vars, path, m).0;
    if path.len() == 1 {
        let name = path[0]->Field_0;
        lemma_key_insert_lookup(vars, name, m, name);
        lemma_key_index(after, name, 0);
        assert(path.drop_first() =~= Seq::<ComponentView>::empty());
        assert(key_lookup(after, name) == Some(m));
        let j1 = key_index(after, name, 0)->0;
        assert(after[j1].1 == m);
        assert(model_at(after[j1].1, path.drop_first()) == Some(m));
    } else {
        let parent = path.take(path.len() - 1);
        let field = path.last()->Field_0;
        let root = parent[0]->Field_0;
        let j = key_index(vars, root, 0)->0;
        lemma_key_index(vars, root, 0);
        let rest = parent.drop_first();
        let cs = model_at(vars[j].1, rest)->0->Struct_0;
        let inserted = key_insert(cs, field, m);
        let r = replace_model(vars[j].1, rest, NodeModel::Struct(inserted));
        assert(after == vars.update(j, (root, r)));
        lemma_key_index_keys(vars, after, root, 0);
        assert(path[0] == parent[0]);
        assert(path.drop_first() =~= rest.push(ComponentView::Field(field)));
        lemma_model_at_push(r, rest, ComponentView::Field(field));
        lemma_read_after_replace(vars[j].1, rest, NodeModel::Struct(inserted));
        lemma_key_insert_lookup(cs, field, m, field);
        lemma_key_index(inserted, field, 0);
        let sp = seq![ComponentView::Field(field)];
        assert(sp[0] == ComponentView::Field(field));
        assert(sp.drop_first() =~= Seq::<ComponentView>::empty());
        let j2 = key_index(inserted, field, 0)->0;
        assert(inserted[j2].1 == m);
        assert(model_at(inserted[j2].1, sp.drop_first()) == Some(m));
        assert(model_at(NodeModel::Struct(inserted), sp) == Some(m));
        assert(model_at(r, rest) == Some(NodeModel::Struct(inserted)));
        assert(model_at(r, path.drop_first()) == Some(m));
        assert(after[j].1 == r);
        assert(key_index(after, root, 0) == Some(j));
        assert(path[0] == ComponentView::Field(root));
        assert(model_at(after[j].1, path.drop_first()) == Some(m));
    }
}

// ============================================================================
// Reading a solution out of a model
// ============================================================================

/// The primitive parts of the tree `m` at `prefix`, in order (struct children in
/// their order, array elements by index), each with its path and Z3 constant.
pub open spec fn leaf_entries(m: NodeModel, prefix: Seq<ComponentView>) -> Seq<(Seq<ComponentView>, Z3Primitive)>
    decreases m, 0nat,
{
    match m {
        NodeModel::Leaf(p) => seq![(prefix, p)],
        NodeModel::Struct(cs) => struct_leaves(cs, prefix, 0),
        NodeModel::Array(xs) => array_leaves(xs, prefix, 0),
    }
}

/// [`leaf_entries`] of the struct children `cs[i..]`.
pub open spec fn struct_leaves(cs: Seq<(Seq<char>, NodeModel)>, prefix: Seq<ComponentView>, i: int) -> Seq<(Seq<ComponentView>, Z3Primitive)>
    decreases cs, cs.len() - i,
{
    if i < 0 || i >= cs.len() {
        Seq::empty()
    } else {
        leaf_entries(cs[i].1, prefix.push(ComponentView::Field(cs[i].0))) + struct_leaves(cs, prefix, i + 1)
    }
}

/// [`leaf_entries`] of the array elements `xs[i..]`.
pub open spec fn array_leaves(xs: Seq<NodeModel>, prefix: Seq<ComponentView>, i: int) -> Seq<(Seq<ComponentView>, Z3Primitive)>
    decreases xs, xs.len() - i,
{
    if i < 0 || i >= xs.len() {
        Seq::empty()
    } else {
        leaf_entries(xs[i], prefix.push(ComponentView::Index(i as usize))) + array_leaves(xs, prefix, i + 1)
    }
}

/// A root variable that stands for solver internals: a shadow copy or a transformed view.
pub open spec fn internal_name(name: Seq<char>) -> bool {
    occurs_at(name, "__shadow_"@, 0) || exists|i: int| #[trigger] occurs_at(name, "__view"@, i)
}

/// [`leaf_entries`] of the root variables `vars[i..]` that are not internal.
pub open spec fn root_leaves(vars: Seq<(Seq<char>, NodeModel)>, i: int) -> Seq<(Seq<ComponentView>, Z3Primitive)>
    decreases vars.len() - i,
{
    if i < 0 || i >= vars.len() {
        Seq::empty()
    } else if internal_name(vars[i].0) {
        root_leaves(vars, i + 1)
    } else {
        leaf_entries(vars[i].1, seq![ComponentView::Field(vars[i].0)]) + root_leaves(vars, i + 1)
    }
}

/// `v` is a value that reading the constant `p` in a model can give: the model's
/// integer, fraction (of non-zero denominator) or boolean for a constant of that sort,
/// or under-constrained when the model leaves it open.
pub open spec fn possible_value(p: Z3Primitive, v: Value) -> bool {
    match p {
        Z3Primitive::Int(_) => v is Int || v is UnderConstrained,
        Z3Primitive::Real(_) => (v matches Value::Real { denominator, .. } && denominator != 0) || v is UnderConstrained,
        Z3Primitive::Bool(_) => v is Bool || v is UnderConstrained,
    }
}

/// The assignments after storing `vals[j]` at the path of `es[j]`, for the first `k`
/// entries in order.
pub open spec fn assign_all(a: Seq<(Seq<ComponentView>, Value)>, es: Seq<(Seq<ComponentView>, Z3Primitive)>, vals: Seq<Value>, k: int) -> Seq<(Seq<ComponentView>, Value)>
    decreases k,
{
    if k <= 0 {
        a
    } else {
        key_insert(assign_all(a, es, vals, k - 1), es[k - 1].0, vals[k - 1])
    }
}

/// `vals` holds one possible value per entry of `es`.
pub open spec fn readings(es: Seq<(Seq<ComponentView>, Z3Primitive)>, vals: Seq<Value>) -> bool {
    vals.len() == es.len() && forall|k: int| 0 <= k < es.len() ==> possible_value(#[trigger] es[k].1, vals[k])
}

/// `after` is `before` with a possible value stored for each entry of `es`, in order.
pub open spec fn assigned(before: Seq<(Seq<ComponentView>, Value)>, es: Seq<(Seq<ComponentView>, Z3Primitive)>, after: Seq<(Seq<ComponentView>, Value)>) -> bool {
    exists|vals: Seq<Value>| readings(es, vals) && after == assign_all(before, es, vals, es.len() as int)
}

proof fn lemma_assign_all_prefix(a: Seq<(Seq<ComponentView>, Value)>, es: Seq<(Seq<ComponentView>, Z3Primitive)>, es2: Seq<(Seq<ComponentView>, Z3Primitive)>,
    vals: Seq<Value>, vals2: Seq<Value>, k: int)
    requires
        0 <= k <= es.len(),
        k <= es2.len(),
        k <= vals.len(),
        k <= vals2.len(),
        forall|x: int| 0 <= x < k ==> #[trigger] es[x].0 == es2[x].0,
        forall|x: int| 0 <= x < k ==> #[trigger] vals[x] == vals2[x],
    ensures
        assign_all(a, es, vals, k) == assign_all(a, es2, vals2, k),
    decreases k,
{
    if k > 0 {
        lemma_assign_all_prefix(a, es, es2, vals, vals2, k - 1);
        assert(es[k - 1].0 == es2[k - 1].0);
        assert(vals[k - 1] == vals2[k - 1]);
    }
}

/// Storing the values of two runs of entries one after the other stores those of the
/// joined run.
proof fn lemma_assigned_concat(a: Seq<(Seq<ComponentView>, Value)>, es1: Seq<(Seq<ComponentView>, Z3Primitive)>, b: Seq<(Seq<ComponentView>, Value)>,
    es2: Seq<(Seq<ComponentView>, Z3Primitive)>, c: Seq<(Seq<ComponentView>, Value)>)
    requires
        assigned(a, es1, b),
        assigned(b, es2, c),
    ensures
        assigned(a, es1 + es2, c),
{
    let v1 = choose|vals: Seq<Value>| readings(es1, vals) && b == assign_all(a, es1, vals, es1.len() as int);
    let v2 = choose|vals: Seq<Value>| readings(es2, vals) && c == assign_all(b, es2, vals, es2.len() as int);
    let es = es1 + es2;
    let vs = v1 + v2;
    assert forall|k: int| 0 <= k < es.len() implies possible_value(#[trigger] es[k].1, vs[k]) by {
        if k < es1.len() {
            assert(es[k] == es1[k] && vs[k] == v1[k]);
        } else {
            assert(es[k] == es2[k - es1.len()] && vs[k] == v2[k - es1.len()]);
        }
    }
    assert forall|x: int| 0 <= x < es1.len() implies #[trigger] es1[x].0 == es[x].0 by {
        assert(es[x] == es1[x]);
    }
    assert forall|x: int| 0 <= x < es1.len() implies #[trigger] v1[x] == vs[x] by {
        assert(vs[x] == v1[x]);
    }
    lemma_assign_all_prefix(a, es1, es, v1, vs, es1.len() as int);
    lemma_assign_all_concat(a, es1, es2, v1, v2, es2.len() as int);
    assert(readings(es, vs));
    assert(c == assign_all(a, es, vs, es.len() as int));
}

proof fn lemma_assign_all_concat(a: Seq<(Seq<ComponentView>, Value)>, es1: Seq<(Seq<ComponentView>, Z3Primitive)>,
    es2: Seq<(Seq<ComponentView>, Z3Primitive)>, v1: Seq<Value>, v2: Seq<Value>, k: int)
    requires
        0 <= k <= es2.len(),
        v1.len() == es1.len(),
        v2.len() == es2.len(),
    ensures
        assign_all(a, es1 + es2, v1 + v2, es1.len() + k)
            == assign_all(assign_all(a, es1, v1, es1.len() as int), es2, v2, k),
    decreases k,
{
    if k == 0 {
        assert forall|x: int| 0 <= x < es1.len() implies #[trigger] es1[x].0 == (es1 + es2)[x].0 by {
            assert((es1 + es2)[x] == es1[x]);
        }
        assert forall|x: int| 0 <= x < es1.len() implies #[trigger] v1[x] == (v1 + v2)[x] by {
            assert((v1 + v2)[x] == v1[x]);
        }
        lemma_assign_all_prefix(a, es1, es1 + es2, v1, v1 + v2, es1.len() as int);
    } else {
        lemma_assign_all_concat(a, es1, es2, v1, v2, k - 1);
        assert((es1 + es2)[es1.len() + k - 1] == es2[k - 1]);
        assert((v1 + v2)[es1.len() + k - 1] == v2[k - 1]);
    }
}

proof fn lemma_assigned_nothing(a: Seq<(Seq<ComponentView>, Value)>)
    ensures
        assigned(a, Seq::empty(), a),
{
    assert(readings(Seq::empty(), Seq::<Value>::empty()));
    assert(assign_all(a, Seq::empty(), Seq::<Value>::empty(), 0) == a);
}

proof fn lemma_assigned_one(a: Seq<(Seq<ComponentView>, Value)>, path: Seq<ComponentView>, p: Z3Primitive, v: Value)
    requires
        possible_value(p, v),
    ensures
        assigned(a, seq![(path, p)], key_insert(a, path, v)),
{
    let es = seq![(path, p)];
    let vals = seq![v];
    assert(readings(es, vals));
    assert(assign_all(a, es, vals, 1) == key_insert(assign_all(a, es, vals, 0), es[0].0, vals[0]));
}

/// Stores `value` at `path`, replacing the value of an equal path.
fn assign<'src>(assignments: &mut Vec<(VariablePath<'src>, Value)>, path: VariablePath<'src>, value: Value)
    ensures
        assignments_model(final(assignments)@) == key_insert(assignments_model(old(assignments)@), path_view(path.components@), value),
{
    let ghost am = assignments_model(assignments@);
    let ghost key = path_view(path.components@);
    let mut i: usize = 0;
    while i < assignments.len()
        invariant
            i <= assignments@.len(),
            am == assignments_model(assignments@),
            am == assignments_model(old(assignments)@),
            key == path_view(path.components@),
            am.len() == assignments@.len(),
            forall|k: int| 0 <= k < i ==> am[k].0 != key,
        decreases assignments.len() - i,
    {
        assert(am[i as int] == (path_view(assignments@[i as int].0.components@), assignments@[i as int].1));
        if assignments[i].0.same_path(&path) {
            proof {
                lemma_key_index(am, key, 0);
                match key_index(am, key, 0) {
                    Some(x) => { assert(x == i); },
                    None => { assert(false); },
                }
            }
            assignments.set(i, (path, value));
            assert(assignments_model(assignments@) =~= key_insert(am, key, value));
            return;
        }
        i = i + 1;
    }
    proof {
        lemma_key_index(am, key, 0);
        if let Some(x) = key_index(am, key, 0) {
            assert(am[x].0 == key);
        }
    }
    assignments.push((path, value));
    assert(assignments_model(assignments@) =~= key_insert(am, key, value));
}

/// The message of a value that the model gives but that cannot be read: a real
/// fraction with a zero denominator, or a boolean term that is no literal; the term's
/// text follows.
pub open spec fn unreadable_value_message(p: Z3Primitive, m: Seq<char>) -> bool {
    match p {
        Z3Primitive::Int(_) => false,
        Z3Primitive::Real(_) => occurs_at(m, "Real value has invalid rational representation (division by zero): "@, 0),
        Z3Primitive::Bool(_) => occurs_at(m, "Boolean variable has unexpected value: "@, 0),
    }
}

/// Some primitive part of the tree `m` has a value that cannot be read, with message `msg`.
pub open spec fn unreadable_in(es: Seq<(Seq<ComponentView>, Z3Primitive)>, msg: Seq<char>) -> bool {
    exists|k: int| 0 <= k < es.len() && unreadable_value_message(#[trigger] es[k].1, msg)
}

proof fn lemma_unreadable_within(a: Seq<(Seq<ComponentView>, Z3Primitive)>, es: Seq<(Seq<ComponentView>, Z3Primitive)>,
    b: Seq<(Seq<ComponentView>, Z3Primitive)>, msg: Seq<char>)
    requires
        unreadable_in(es, msg),
    ensures
        unreadable_in(a + (es + b), msg),
{
    let k = choose|k: int| 0 <= k < es.len() && unreadable_value_message(#[trigger] es[k].1, msg);
    assert((a + (es + b))[a.len() + k] == es[k]);
}

proof fn lemma_prefix_occurs(prefix: Seq<char>, rest: Seq<char>)
    ensures
        occurs_at(prefix + rest, prefix, 0),
{
    assert((prefix + rest).subrange(0, prefix.len() as int) =~= prefix);
}

/// The value read from an integer constant. `evaluated` is `None` when the model
/// leaves the constant open, and otherwise holds the numeral's value when it fits
/// in an `i64`; every other outcome reads as under-constrained.
pub open spec fn int_reading_of(evaluated: Option<Option<i64>>) -> Value {
    match evaluated {
        Some(Some(x)) => Value::Int(x),
        _ => Value::UnderConstrained,
    }
}

/// The value read from a real constant, `None` when it cannot be read. `evaluated` is
/// `None` when the model leaves the constant open, and otherwise holds the numeral's
/// numerator and denominator when both fit in an `i64`. A zero denominator cannot be
/// read; a term that is no such numeral reads as under-constrained.
pub open spec fn real_reading_of(evaluated: Option<Option<(i64, i64)>>) -> Option<Value> {
    match evaluated {
        Some(Some((n, d))) => if d == 0 {
            None
        } else {
            Some(Value::Real { numerator: n, denominator: d })
        },
        _ => Some(Value::UnderConstrained),
    }
}

/// The value read from a boolean constant, `None` when it cannot be read. `evaluated`
/// is `None` when the model leaves the constant open, and otherwise holds the literal's
/// value when the term is `true` or `false`; any other term cannot be read.
pub open spec fn bool_reading_of(evaluated: Option<Option<bool>>) -> Option<Value> {
    match evaluated {
        Some(Some(b)) => Some(Value::Bool(b)),
        Some(None) => None,
        None => Some(Value::UnderConstrained),
    }
}

/// Reads an integer constant from what the model gave for it.
pub fn int_reading(evaluated: Option<Option<i64>>) -> (v: Value)
    ensures
        v == int_reading_of(evaluated),
{
    match evaluated {
        Some(Some(x)) => Value::Int(x),
        _ => Value::UnderConstrained,
    }
}

/// Reads a real constant from what the model gave for it; `None` when the fraction
/// has a zero denominator.
pub fn real_reading(evaluated: Option<Option<(i64, i64)>>) -> (v: Option<Value>)
    ensures
        v == real_reading_of(evaluated),
{
    match evaluated {
        Some(Some((n, d))) => if d == 0 {
            None
        } else {
            Some(Value::Real { numerator: n, denominator: d })
        },
        _ => Some(Value::UnderConstrained),
    }
}

/// Reads a boolean constant from what the model gave for it; `None` when the term is
/// no boolean literal.
pub fn bool_reading(evaluated: Option<Option<bool>>) -> (v: Option<Value>)
    ensures
        v == bool_reading_of(evaluated),
{
    match evaluated {
        Some(Some(b)) => Some(Value::Bool(b)),
        Some(None) => None,
        None => Some(Value::UnderConstrained),
    }
}

/// The message of a value that cannot be read: `prefix`, then `text`.
fn unreadable_message(prefix: &str, text: String) -> (m: String)
    ensures
        m@ == prefix@ + text@,
{
    let mut message = String::from_str(prefix);
    append_str(&mut message, text.as_str());
    message
}

/// The value that the model gives the constant `z3_var`, read without model completion.
fn evaluate_z3_primitive(z3_var: &Z3Primitive, model: &Model) -> (r: Result<Value, SolverError>)
    ensures
        match r {
            Ok(v) => possible_value(*z3_var, v),
            Err(e) => e@ matches SolverErrorModel::ModelEvaluationError(m) && unreadable_value_message(*z3_var, m),
        },
{
    match z3_var {
        Z3Primitive::Int(z3_int) => {
            let evaluated = match eval_int(model, z3_int.ast()) {
                Some(term) => Some(int_value(&term)),
                None => None,
            };
            Ok(int_reading(evaluated))
        },
        Z3Primitive::Real(z3_real) => {
            let evaluated = eval_real(model, z3_real.ast());
            let parts = match &evaluated {
                Some(term) => Some(real_value(term)),
                None => None,
            };
            match real_reading(parts) {
                Some(v) => Ok(v),
                None => {
                    let text = match &evaluated {
                        Some(term) => real_text(term),
                        None => String::new(),
                    };
                    let prefix = "Real value has invalid rational representation (division by zero): ";
                    let message = unreadable_message(prefix, text);
                    proof {
                        lemma_prefix_occurs(prefix@, message@.skip(prefix@.len() as int));
                        assert(prefix@ + message@.skip(prefix@.len() as int) =~= message@);
                    }
                    Err(SolverError::ModelEvaluationError(message))
                },
            }
        },
        Z3Primitive::Bool(z3_bool) => {
            let evaluated = eval_bool(model, z3_bool.ast());
            let literal = match &evaluated {
                Some(term) => Some(bool_value(term)),
                None => None,
            };
            match bool_reading(literal) {
                Some(v) => Ok(v),
                None => {
                    let text = match &evaluated {
                        Some(term) => bool_text(term),
                        None => String::new(),
                    };
                    let prefix = "Boolean variable has unexpected value: ";
                    let message = unreadable_message(prefix, text);
                    proof {
                        lemma_prefix_occurs(prefix@, message@.skip(prefix@.len() as int));
                        assert(prefix@ + message@.skip(prefix@.len() as int) =~= message@);
                    }
                    Err(SolverError::ModelEvaluationError(message))
                },
            }
        },
    }
}

impl<'src> SolverContext<'src> {
    /// Stores the value of every primitive part of `node`, which sits at `path`.
    fn extract_node_values(&self, path: &VariablePath<'src>, node: &VariableNode<'src>, model: &Model, solution: &mut Solution<'src>)
        -> (r: Result<(), SolverError>)
        ensures
            match r {
                Ok(()) => assigned(assignments_model(old(solution).assignments@),
                    leaf_entries(node_model(*node), path_view(path.components@)),
                    assignments_model(final(solution).assignments@)),
                Err(e) => e@ matches SolverErrorModel::ModelEvaluationError(m)
                    && unreadable_in(leaf_entries(node_model(*node), path_view(path.components@)), m),
            },
        decreases node,
    {
        let ghost before = assignments_model(solution.assignments@);
        let ghost pv = path_view(path.components@);
        match node {
            VariableNode::Primitive { z3_var } => {
                let value = match evaluate_z3_primitive(z3_var, model) {
                    Ok(v) => v,
                    Err(e) => {
                        proof {
                            let es = leaf_entries(node_model(*node), pv);
                            assert(es[0].1 == *z3_var);
                        }
                        return Err(e);
                    },
                };
                assign(&mut solution.assignments, path.duplicate(), value);
                proof {
                    lemma_assigned_one(before, pv, *z3_var, value);
                }
                Ok(())
            },
            VariableNode::Struct { children } => {
                let ghost cs = named_models(children@, 0);
                proof {
                    lemma_named_models(children@, 0);
                    lemma_assigned_nothing(before);
                    assert(struct_leaves(cs, pv, 0) =~= Seq::empty() + struct_leaves(cs, pv, 0));
                }
                let mut i: usize = 0;
                while i < children.len()
                    invariant
                        i <= children@.len(),
                        cs == named_models(children@, 0),
                        cs.len() == children@.len(),
                        forall|k: int| 0 <= k < children@.len() ==> #[trigger] cs[k] == (children@[k].0@, node_model(children@[k].1)),
                        *node == (VariableNode::Struct { children: *children }),
                        pv == path_view(path.components@),
                        before == assignments_model(old(solution).assignments@),
                        exists|done: Seq<(Seq<ComponentView>, Z3Primitive)>| {
                            &&& done + struct_leaves(cs, pv, i as int) == struct_leaves(cs, pv, 0)
                            &&& assigned(before, done, assignments_model(solution.assignments@))
                        },
                    decreases children.len() - i,
                {
                    let ghost mid = assignments_model(solution.assignments@);
                    let ghost done = choose|done: Seq<(Seq<ComponentView>, Z3Primitive)>| {
                        &&& done + struct_leaves(cs, pv, i as int) == struct_leaves(cs, pv, 0)
                        &&& assigned(before, done, mid)
                    };
                    let child_path = path.with_field(children[i].0);
                    proof {
                        assert(decreases_to!(*node => children@[i as int].1));
                        assert(path_view(child_path.components@) =~= pv.push(ComponentView::Field(cs[i as int].0)));
                    }
                    match self.extract_node_values(&child_path, &children[i].1, model, solution) {
                        Ok(()) => {},
                        Err(e) => {
                            proof {
                                let es = leaf_entries(cs[i as int].1, pv.push(ComponentView::Field(cs[i as int].0)));
                                assert(struct_leaves(cs, pv, i as int) == es + struct_leaves(cs, pv, i + 1));
                                lemma_unreadable_within(done, es, struct_leaves(cs, pv, i + 1), e@->ModelEvaluationError_0);
                            }
                            return Err(e);
                        },
                    }
                    proof {
                        let es = leaf_entries(cs[i as int].1, pv.push(ComponentView::Field(cs[i as int].0)));
                        lemma_assigned_concat(before, done, mid, es, assignments_model(solution.assignments@));
                        assert(struct_leaves(cs, pv, i as int) == es + struct_leaves(cs, pv, i + 1));
                        assert((done + es) + struct_leaves(cs, pv, i + 1) =~= done + struct_leaves(cs, pv, i as int));
                    }
                    i = i + 1;
                }
                proof {
                    let done = choose|done: Seq<(Seq<ComponentView>, Z3Primitive)>| {
                        &&& done + struct_leaves(cs, pv, i as int) == struct_leaves(cs, pv, 0)
                        &&& assigned(before, done, assignments_model(solution.assignments@))
                    };
                    assert(done =~= struct_leaves(cs, pv, 0));
                }
                Ok(())
            },
            VariableNode::Array { children } => {
                let ghost xs = node_models(children@, 0);
                proof {
                    lemma_node_models(children@, 0);
                    lemma_assigned_nothing(before);
                    assert(array_leaves(xs, pv, 0) =~= Seq::empty() + array_leaves(xs, pv, 0));
                }
                let mut i: usize = 0;
                while i < children.len()
                    invariant
                        i <= children@.len(),
                        xs == node_models(children@, 0),
                        xs.len() == children@.len(),
                        forall|k: int| 0 <= k < children@.len() ==> #[trigger] xs[k] == node_model(children@[k]),
                        *node == (VariableNode::Array { children: *children }),
                        pv == path_view(path.components@),
                        before == assignments_model(old(solution).assignments@),
                        exists|done: Seq<(Seq<ComponentView>, Z3Primitive)>| {
                            &&& done + array_leaves(xs, pv, i as int) == array_leaves(xs, pv, 0)
                            &&& assigned(before, done, assignments_model(solution.assignments@))
                        },
                    decreases children.len() - i,
                {
                    let ghost mid = assignments_model(solution.assignments@);
                    let ghost done = choose|done: Seq<(Seq<ComponentView>, Z3Primitive)>| {
                        &&& done + array_leaves(xs, pv, i as int) == array_leaves(xs, pv, 0)
                        &&& assigned(before, done, mid)
                    };
                    let child_path = path.with_index(i);
                    proof {
                        assert(decreases_to!(*node => children@[i as int]));
                        assert(path_view(child_path.components@) =~= pv.push(ComponentView::Index(i)));
                    }
                    match self.extract_node_values(&child_path, &children[i], model, solution) {
                        Ok(()) => {},
                        Err(e) => {
                            proof {
                                let es = leaf_entries(xs[i as int], pv.push(ComponentView::Index(i)));
                                assert(array_leaves(xs, pv, i as int) == es + array_leaves(xs, pv, i + 1));
                                lemma_unreadable_within(done, es, array_leaves(xs, pv, i + 1), e@->ModelEvaluationError_0);
                            }
                            return Err(e);
                        },
                    }
                    proof {
                        let es = leaf_entries(xs[i as int], pv.push(ComponentView::Index(i)));
                        lemma_assigned_concat(before, done, mid, es, assignments_model(solution.assignments@));
                        assert(array_leaves(xs, pv, i as int) == es + array_leaves(xs, pv, i + 1));
                        assert((done + es) + array_leaves(xs, pv, i + 1) =~= done + array_leaves(xs, pv, i as int));
                    }
                    i = i + 1;
                }
                proof {
                    let done = choose|done: Seq<(Seq<ComponentView>, Z3Primitive)>| {
                        &&& done + array_leaves(xs, pv, i as int) == array_leaves(xs, pv, 0)
                        &&& assigned(before, done, assignments_model(solution.assignments@))
                    };
                    assert(done =~= array_leaves(xs, pv, 0));
                }
                Ok(())
            },
        }
    }

    /// The solution in the solver's current model: the value of every primitive part of
    /// every root variable that is not internal (a name beginning `__shadow_` or holding
    /// `__view`).
    pub fn extract_solution(&self) -> (r: Result<Solution<'src>, SolverError>)
        ensures
            match r {
                Ok(s) => assigned(Seq::empty(), root_leaves(self.vars(), 0), assignments_model(s.assignments@)),
                Err(e) => e@ matches SolverErrorModel::ModelEvaluationError(m)
                    && (m == "No model available"@ || unreadable_in(root_leaves(self.vars(), 0), m)),
            },
    {
        let model = match solver_model(self.z3_solver.raw()) {
            Some(m) => m,
            None => {
                return Err(SolverError::ModelEvaluationError(String::from_str("No model available")));
            },
        };
        let mut solution = Solution::new();
        let ghost vars = self.vars();
        proof {
            lemma_named_models(self.variables@, 0);
            assert(assignments_model(solution.assignments@) =~= Seq::<(Seq<ComponentView>, Value)>::empty());
            lemma_assigned_nothing(Seq::empty());
            assert(root_leaves(vars, 0) =~= Seq::empty() + root_leaves(vars, 0));
        }
        let mut i: usize = 0;
        while i < self.variables.len()
            invariant
                i <= self.variables@.len(),
                vars == self.vars(),
                vars.len() == self.variables@.len(),
                forall|k: int| 0 <= k < self.variables@.len() ==>
                    #[trigger] vars[k] == (self.variables@[k].0@, node_model(self.variables@[k].1)),
                exists|done: Seq<(Seq<ComponentView>, Z3Primitive)>| {
                    &&& done + root_leaves(vars, i as int) == root_leaves(vars, 0)
                    &&& assigned(Seq::empty(), done, assignments_model(solution.assignments@))
                },
            decreases self.variables.len() - i,
        {
            let ghost mid = assignments_model(solution.assignments@);
            let ghost done = choose|done: Seq<(Seq<ComponentView>, Z3Primitive)>| {
                &&& done + root_leaves(vars, i as int) == root_leaves(vars, 0)
                &&& assigned(Seq::empty(), done, mid)
            };
            let root_name = self.variables[i].0;
            let internal = starts_with_text(root_name, "__shadow_") || contains_text(root_name, "__view");
            if internal {
                proof {
                    assert(root_leaves(vars, i as int) == root_leaves(vars, i + 1));
                }
            } else {
                let root_path = VariablePath::from_name(root_name);
                proof {
                    assert(path_view(root_path.components@) =~= seq![ComponentView::Field(vars[i as int].0)]);
                }
                match self.extract_node_values(&root_path, &self.variables[i].1, &model, &mut solution) {
                    Ok(()) => {},
                    Err(e) => {
                        proof {
                            let es = leaf_entries(vars[i as int].1, seq![ComponentView::Field(vars[i as int].0)]);
                            assert(root_leaves(vars, i as int) == es + root_leaves(vars, i + 1));
                            lemma_unreadable_within(done, es, root_leaves(vars, i + 1), e@->ModelEvaluationError_0);
                        }
                        return Err(e);
                    },
                }
                proof {
                    let es = leaf_entries(vars[i as int].1, seq![ComponentView::Field(vars[i as int].0)]);
                    lemma_assigned_concat(Seq::empty(), done, mid, es, assignments_model(solution.assignments@));
                    assert(root_leaves(vars, i as int) == es + root_leaves(vars, i + 1));
                    assert((done + es) + root_leaves(vars, i + 1) =~= done + root_leaves(vars, i as int));
                }
            }
            i = i + 1;
        }
        proof {
            let done = choose|done: Seq<(Seq<ComponentView>, Z3Primitive)>| {
                &&& done + root_leaves(vars, i as int) == root_leaves(vars, 0)
                &&& assigned(Seq::empty(), done, assignments_model(solution.assignments@))
            };
            assert(done =~= root_leaves(vars, 0));
        }
        Ok(solution)
    }
}

// ============================================================================
// Following aliases to their end
// ============================================================================

/// The path reached from `p` after `k` steps along aliases; a path that is no alias
/// stays where it is.
pub open spec fn alias_chain(aliases: Seq<(Seq<ComponentView>, Seq<ComponentView>)>, p: Seq<ComponentView>, k: nat) -> Seq<ComponentView>
    decreases k,
{
    if k == 0 {
        p
    } else {
        let q = alias_chain(aliases, p, (k - 1) as nat);
        match key_lookup(aliases, q) {
            Some(t) => t,
            None => q,
        }
    }
}

proof fn lemma_chain_shift(aliases: Seq<(Seq<ComponentView>, Seq<ComponentView>)>, p: Seq<ComponentView>, k: nat)
    requires
        key_lookup(aliases, p) is Some,
    ensures
        alias_chain(aliases, p, k + 1) == alias_chain(aliases, key_lookup(aliases, p)->0, k),
    decreases k,
{
    let t = key_lookup(aliases, p)->0;
    if k > 0 {
        lemma_chain_shift(aliases, p, (k - 1) as nat);
        let q = alias_chain(aliases, p, k);
        assert(alias_chain(aliases, p, k + 1) == match key_lookup(aliases, q) { Some(x) => x, None => q });
        assert(alias_chain(aliases, t, k) == match key_lookup(aliases, alias_chain(aliases, t, (k - 1) as nat)) {
            Some(x) => x,
            None => alias_chain(aliases, t, (k - 1) as nat),
        });
    } else {
        assert(alias_chain(aliases, p, 1) == match key_lookup(aliases, alias_chain(aliases, p, 0)) { Some(x) => x, None => alias_chain(aliases, p, 0) });
    }
}

proof fn lemma_chain_stays(aliases: Seq<(Seq<ComponentView>, Seq<ComponentView>)>, p: Seq<ComponentView>, k: nat, m: nat)
    requires
        k <= m,
        key_lookup(aliases, alias_chain(aliases, p, k)) is None,
    ensures
        alias_chain(aliases, p, m) == alias_chain(aliases, p, k),
    decreases m - k,
{
    if k < m {
        lemma_chain_stays(aliases, p, k, (m - 1) as nat);
    }
}

proof fn lemma_chain_periodic(aliases: Seq<(Seq<ComponentView>, Seq<ComponentView>)>, p: Seq<ComponentView>, i: nat, j: nat, t: nat)
    requires
        alias_chain(aliases, p, i) == alias_chain(aliases, p, j),
    ensures
        alias_chain(aliases, p, i + t) == alias_chain(aliases, p, j + t),
    decreases t,
{
    if t > 0 {
        lemma_chain_periodic(aliases, p, i, j, (t - 1) as nat);
        assert(alias_chain(aliases, p, i + t) == {
            let q = alias_chain(aliases, p, (i + t - 1) as nat);
            match key_lookup(aliases, q) { Some(x) => x, None => q }
        });
        assert(alias_chain(aliases, p, j + t) == {
            let q = alias_chain(aliases, p, (j + t - 1) as nat);
            match key_lookup(aliases, q) { Some(x) => x, None => q }
        });
    }
}

/// Among `n + 1` values below `n`, two are equal.
proof fn lemma_pigeonhole(f: spec_fn(int) -> int, n: int)
    requires
        0 <= n,
        forall|i: int| 0 <= i <= n ==> 0 <= #[trigger] f(i) < n,
    ensures
        exists|i: int, j: int| 0 <= i < j <= n && #[trigger] f(i) == #[trigger] f(j),
    decreases n,
{
    if n == 0 {
        let z: int = 0;
        assert(0 <= f(z) < n);
    } else if exists|i: int| 0 <= i < n && #[trigger] f(i) == f(n) {
        let i = choose|i: int| 0 <= i < n && #[trigger] f(i) == f(n);
        assert(0 <= i < n && f(i) == f(n));
    } else {
        let g = |i: int| if f(i) > f(n) { f(i) - 1 } else { f(i) };
        assert forall|i: int| 0 <= i <= n - 1 implies 0 <= #[trigger] g(i) < n - 1 by {
            assert(0 <= f(i) < n);
            assert(f(i) != f(n));
        }
        lemma_pigeonhole(g, n - 1);
        let (i, j) = choose|i: int, j: int| 0 <= i < j <= n - 1 && #[trigger] g(i) == #[trigger] g(j);
        assert(f(i) != f(n) && f(j) != f(n));
        assert(f(i) == f(j));
    }
}

proof fn lemma_walk_finds(aliases: Seq<(Seq<ComponentView>, Seq<ComponentView>)>, p: Seq<ComponentView>, k: nat, fuel: nat)
    requires
        k <= fuel,
        key_lookup(aliases, alias_chain(aliases, p, k)) is None,
        forall|x: nat| x < k ==> #[trigger] key_lookup(aliases, alias_chain(aliases, p, x)) is Some,
    ensures
        alias_walk(aliases, p, fuel) == Some(alias_chain(aliases, p, k)),
    decreases k,
{
    if k > 0 {
        assert(key_lookup(aliases, alias_chain(aliases, p, 0)) is Some);
        let t = key_lookup(aliases, p)->0;
        lemma_chain_shift(aliases, p, (k - 1) as nat);
        assert forall|x: nat| x < k - 1 implies #[trigger] key_lookup(aliases, alias_chain(aliases, t, x)) is Some by {
            lemma_chain_shift(aliases, p, x);
            assert(key_lookup(aliases, alias_chain(aliases, p, x + 1)) is Some);
        }
        lemma_walk_finds(aliases, t, (k - 1) as nat, (fuel - 1) as nat);
    }
}

/// Resolution is what following aliases gives: whenever the aliases from `p` end at
/// a path that is no alias, however many steps it takes, that path is the one that `p`
/// resolves to. (A chain of aliases that ends always ends within as many steps as
/// there are aliases, so resolution never gives up on one.)
pub proof fn lemma_resolved_follows_aliases(aliases: Seq<(Seq<ComponentView>, Seq<ComponentView>)>, p: Seq<ComponentView>, k: nat)
    requires
        key_lookup(aliases, alias_chain(aliases, p, k)) is None,
    ensures
        resolved(aliases, p) == alias_chain(aliases, p, k),
{
    let k0 = first_stop(aliases, p, k);
    lemma_chain_stays(aliases, p, k0, k);
    let n = aliases.len();
    if k0 > n {
        let idx = |x: int| if x >= 0 { key_index(aliases, alias_chain(aliases, p, x as nat), 0)->0 } else { 0 };
        assert forall|x: int| 0 <= x <= n implies 0 <= #[trigger] idx(x) < n by {
            assert(key_lookup(aliases, alias_chain(aliases, p, x as nat)) is Some);
            lemma_key_index(aliases, alias_chain(aliases, p, x as nat), 0);
        }
        lemma_pigeonhole(idx, n as int);
        let (i, j) = choose|i: int, j: int| 0 <= i < j <= n && #[trigger] idx(i) == #[trigger] idx(j);
        assert(key_lookup(aliases, alias_chain(aliases, p, i as nat)) is Some);
        assert(key_lookup(aliases, alias_chain(aliases, p, j as nat)) is Some);
        lemma_key_index(aliases, alias_chain(aliases, p, i as nat), 0);
        lemma_key_index(aliases, alias_chain(aliases, p, j as nat), 0);
        assert(alias_chain(aliases, p, i as nat) == alias_chain(aliases, p, j as nat));
        let t = (k0 - j) as nat;
        lemma_chain_periodic(aliases, p, i as nat, j as nat, t);
        assert(key_lookup(aliases, alias_chain(aliases, p, (i + t) as nat)) is Some);
        assert(false);
    }
    lemma_walk_finds(aliases, p, k0, n);
}

/// The first step, at most `k`, at which the chain from `p` reaches a path that is no alias.
proof fn first_stop(aliases: Seq<(Seq<ComponentView>, Seq<ComponentView>)>, p: Seq<ComponentView>, k: nat) -> (k0: nat)
    requires
        key_lookup(aliases, alias_chain(aliases, p, k)) is None,
    ensures
        k0 <= k,
        key_lookup(aliases, alias_chain(aliases, p, k0)) is None,
        forall|x: nat| x < k0 ==> #[trigger] key_lookup(aliases, alias_chain(aliases, p, x)) is Some,
    decreases k,
{
    if k == 0 {
        0
    } else if key_lookup(aliases, alias_chain(aliases, p, (k - 1) as nat)) is None {
        first_stop(aliases, p, (k - 1) as nat)
    } else {
        // every earlier step must be an alias too, or the chain would have stayed put
        assert forall|x: nat| x < k implies #[trigger] key_lookup(aliases, alias_chain(aliases, p, x)) is Some by {
            if key_lookup(aliases, alias_chain(aliases, p, x)) is None {
                lemma_chain_stays(aliases, p, x, (k - 1) as nat);
            }
        }
        k
    }
}

proof fn lemma_walk_on_chain(aliases: Seq<(Seq<ComponentView>, Seq<ComponentView>)>, p: Seq<ComponentView>, fuel: nat)
    ensures
        alias_walk(aliases, p, fuel) matches Some(q) ==> exists|k: nat| #[trigger] alias_chain(aliases, p, k) == q,
    decreases fuel,
{
    match key_lookup(aliases, p) {
        None => {
            assert(alias_chain(aliases, p, 0) == p);
        },
        Some(t) => {
            if fuel > 0 {
                lemma_walk_on_chain(aliases, t, (fuel - 1) as nat);
                if let Some(q) = alias_walk(aliases, t, (fuel - 1) as nat) {
                    let k = choose|k: nat| #[trigger] alias_chain(aliases, t, k) == q;
                    lemma_chain_shift(aliases, p, k);
                    assert(alias_chain(aliases, p, k + 1) == q);
                }
            }
        },
    }
}

/// When the aliases from `p` never reach a path that is no alias (they run in a
/// circle), `p` resolves to itself.
pub proof fn lemma_resolved_circle(aliases: Seq<(Seq<ComponentView>, Seq<ComponentView>)>, p: Seq<ComponentView>)
    requires
        forall|k: nat| #[trigger] key_lookup(aliases, alias_chain(aliases, p, k)) is Some,
    ensures
        resolved(aliases, p) == p,
{
    lemma_walk_on_chain(aliases, p, aliases.len());
    lemma_alias_walk_end(aliases, p, aliases.len());
    if let Some(q) = alias_walk(aliases, p, aliases.len()) {
        let k = choose|k: nat| #[trigger] alias_chain(aliases, p, k) == q;
        assert(key_lookup(aliases, alias_chain(aliases, p, k)) is Some);
    }
}

// ============================================================================
// Constant expressions
// ============================================================================

/// The value fits in an `i64`.
pub open spec fn in_i64(x: int) -> bool {
    i64::MIN <= x <= i64::MAX
}

/// `x / d` rounded toward zero, as machine integer division computes it.
pub open spec fn quotient(x: int, d: int) -> int {
    if x == 0 {
        0
    } else if x > 0 && d > 0 {
        x / d
    } else if x < 0 && d < 0 {
        (x * -1) / (d * -1)
    } else if x < 0 {
        ((x * -1) / d) * -1
    } else {
        (x / (d * -1)) * -1
    }
}

/// The remainder of `x / d` rounded toward zero; it has the sign of `x`.
pub open spec fn remainder(x: int, d: int) -> int {
    if x == 0 {
        0
    } else if x > 0 && d > 0 {
        x % d
    } else if x < 0 && d < 0 {
        ((x * -1) % (d * -1)) * -1
    } else if x < 0 {
        ((x * -1) % d) * -1
    } else {
        x % (d * -1)
    }
}

/// The assignments of a solution, if there is one.
pub open spec fn solution_model<'a>(s: Option<Solution<'a>>) -> Option<Seq<(Seq<ComponentView>, Value)>> {
    match s {
        Some(x) => Some(assignments_model(x.assignments@)),
        None => None,
    }
}

/// The integer value of a constant expression: literals, integer variables of the
/// solution `sol`, and `+ - * / % **` and negation of those, each operand evaluated
/// left to right; or the error that stops the evaluation.
pub open spec fn const_eval(e: ResolvedExpr, sol: Option<Seq<(Seq<ComponentView>, Value)>>) -> Result<int, SolverErrorModel>
    decreases e,
{
    match e.kind {
        ResolvedExprKind::IntLit { value } => Ok(value as int),
        ResolvedExprKind::Var { name } => match sol {
            None => Err(SolverErrorModel::UndefinedVariable(
                "Variable '"@ + name@ + "' not yet resolved (no solution available)"@)),
            Some(a) => match key_lookup(a, seq![ComponentView::Field(name@)]) {
                Some(Value::Int(v)) => Ok(v as int),
                Some(_) => Err(SolverErrorModel::UnsupportedExpression("Variable is not an integer"@)),
                None => Err(SolverErrorModel::UndefinedVariable("Variable '"@ + name@ + "' not yet resolved"@)),
            },
        },
        ResolvedExprKind::Add { lhs, rhs } => match const_eval(*lhs, sol) {
            Err(x) => Err(x),
            Ok(l) => match const_eval(*rhs, sol) { Err(x) => Err(x), Ok(r) => Ok(l + r) },
        },
        ResolvedExprKind::Sub { lhs, rhs } => match const_eval(*lhs, sol) {
            Err(x) => Err(x),
            Ok(l) => match const_eval(*rhs, sol) { Err(x) => Err(x), Ok(r) => Ok(l - r) },
        },
        ResolvedExprKind::Mul { lhs, rhs } => match const_eval(*lhs, sol) {
            Err(x) => Err(x),
            Ok(l) => match const_eval(*rhs, sol) { Err(x) => Err(x), Ok(r) => Ok(l * r) },
        },
        ResolvedExprKind::Div { lhs, rhs } => match const_eval(*lhs, sol) {
            Err(x) => Err(x),
            Ok(l) => match const_eval(*rhs, sol) {
                Err(x) => Err(x),
                Ok(r) => if r == 0 {
                    Err(SolverErrorModel::UnsupportedExpression("Division by zero"@))
                } else {
                    Ok(quotient(l, r))
                },
            },
        },
        ResolvedExprKind::Mod { lhs, rhs } => match const_eval(*lhs, sol) {
            Err(x) => Err(x),
            Ok(l) => match const_eval(*rhs, sol) {
                Err(x) => Err(x),
                Ok(r) => if r == 0 {
                    Err(SolverErrorModel::UnsupportedExpression("Modulo by zero"@))
                } else {
                    Ok(remainder(l, r))
                },
            },
        },
        ResolvedExprKind::Pow { lhs, rhs } => match const_eval(*lhs, sol) {
            Err(x) => Err(x),
            Ok(l) => match const_eval(*rhs, sol) {
                Err(x) => Err(x),
                Ok(r) => if r < 0 {
                    Err(SolverErrorModel::UnsupportedExpression("Negative exponents not supported in constant evaluation"@))
                } else if in_i64(pow(l, (r % 4294967296) as nat)) {
                    Ok(pow(l, (r % 4294967296) as nat))
                } else {
                    Err(SolverErrorModel::UnsupportedExpression("Power operation overflow"@))
                },
            },
        },
        ResolvedExprKind::Neg { inner } => match const_eval(*inner, sol) {
            Err(x) => Err(x),
            Ok(v) => Ok(-v),
        },
        _ => Err(SolverErrorModel::UnsupportedExpression("Cannot evaluate expression to constant: "@ + kind_name(e.kind))),
    }
}

/// Evaluating `e` computes no value out of the `i64` range with `+`, `-`, `*`, `/`,
/// `%` or negation, where machine arithmetic would overflow.
pub open spec fn const_fits(e: ResolvedExpr, sol: Option<Seq<(Seq<ComponentView>, Value)>>) -> bool
    decreases e,
{
    match e.kind {
        ResolvedExprKind::Add { lhs, rhs } => const_fits(*lhs, sol) && (const_eval(*lhs, sol) is Ok ==> const_fits(*rhs, sol))
            && (const_eval(*lhs, sol) matches Ok(l) && const_eval(*rhs, sol) matches Ok(r) ==> in_i64(l + r)),
        ResolvedExprKind::Sub { lhs, rhs } => const_fits(*lhs, sol) && (const_eval(*lhs, sol) is Ok ==> const_fits(*rhs, sol))
            && (const_eval(*lhs, sol) matches Ok(l) && const_eval(*rhs, sol) matches Ok(r) ==> in_i64(l - r)),
        ResolvedExprKind::Mul { lhs, rhs } => const_fits(*lhs, sol) && (const_eval(*lhs, sol) is Ok ==> const_fits(*rhs, sol))
            && (const_eval(*lhs, sol) matches Ok(l) && const_eval(*rhs, sol) matches Ok(r) ==> in_i64(l * r)),
        ResolvedExprKind::Div { lhs, rhs } => const_fits(*lhs, sol) && (const_eval(*lhs, sol) is Ok ==> const_fits(*rhs, sol))
            && (const_eval(*lhs, sol) matches Ok(l) && const_eval(*rhs, sol) matches Ok(r) ==> (r == 0 || in_i64(quotient(l, r)))),
        ResolvedExprKind::Mod { lhs, rhs } => const_fits(*lhs, sol) && (const_eval(*lhs, sol) is Ok ==> const_fits(*rhs, sol))
            && (const_eval(*lhs, sol) matches Ok(l) && const_eval(*rhs, sol) matches Ok(r) ==> !(l == i64::MIN && r == -1)),
        ResolvedExprKind::Pow { lhs, rhs } => const_fits(*lhs, sol) && (const_eval(*lhs, sol) is Ok ==> const_fits(*rhs, sol)),
        ResolvedExprKind::Neg { inner } => const_fits(*inner, sol) && (const_eval(*inner, sol) matches Ok(v) ==> in_i64(-v)),
        _ => true,
    }
}

/// The integer value of a constant expression in which the variable `var` stands for
/// `value` (a loop variable being unrolled): literals, `var`, integer variables of the
/// solution `sol`, parentheses and references, and `+ - * / % **` and negation of
/// those, each operand evaluated left to right; or the error that stops the
/// evaluation. A power that leaves the `i64` range is refused.
pub open spec fn const_eval_with(e: ResolvedExpr, sol: Option<Seq<(Seq<ComponentView>, Value)>>, var: Seq<char>, value: i64) -> Result<int, SolverErrorModel>
    decreases e,
{
    match e.kind {
        ResolvedExprKind::IntLit { value: v } => Ok(v as int),
        ResolvedExprKind::Var { name } => if name@ == var {
            Ok(value as int)
        } else {
            match sol {
                None => Err(SolverErrorModel::UndefinedVariable(name@)),
                Some(a) => match key_lookup(a, seq![ComponentView::Field(name@)]) {
                    Some(Value::Int(v)) => Ok(v as int),
                    Some(_) => Err(SolverErrorModel::UnsupportedExpression("Variable is not an integer"@)),
                    None => Err(SolverErrorModel::UndefinedVariable(name@)),
                },
            }
        },
        ResolvedExprKind::Add { lhs, rhs } => match const_eval_with(*lhs, sol, var, value) {
            Err(x) => Err(x),
            Ok(l) => match const_eval_with(*rhs, sol, var, value) { Err(x) => Err(x), Ok(r) => Ok(l + r) },
        },
        ResolvedExprKind::Sub { lhs, rhs } => match const_eval_with(*lhs, sol, var, value) {
            Err(x) => Err(x),
            Ok(l) => match const_eval_with(*rhs, sol, var, value) { Err(x) => Err(x), Ok(r) => Ok(l - r) },
        },
        ResolvedExprKind::Mul { lhs, rhs } => match const_eval_with(*lhs, sol, var, value) {
            Err(x) => Err(x),
            Ok(l) => match const_eval_with(*rhs, sol, var, value) { Err(x) => Err(x), Ok(r) => Ok(l * r) },
        },
        ResolvedExprKind::Div { lhs, rhs } => match const_eval_with(*lhs, sol, var, value) {
            Err(x) => Err(x),
            Ok(l) => match const_eval_with(*rhs, sol, var, value) {
                Err(x) => Err(x),
                Ok(r) => if r == 0 {
                    Err(SolverErrorModel::UnsupportedExpression("Division by zero"@))
                } else {
                    Ok(quotient(l, r))
                },
            },
        },
        ResolvedExprKind::Neg { inner } => match const_eval_with(*inner, sol, var, value) {
            Err(x) => Err(x),
            Ok(v) => Ok(-v),
        },
        ResolvedExprKind::Mod { lhs, rhs } => match const_eval_with(*lhs, sol, var, value) {
            Err(x) => Err(x),
            Ok(l) => match const_eval_with(*rhs, sol, var, value) {
                Err(x) => Err(x),
                Ok(r) => if r == 0 {
                    Err(SolverErrorModel::UnsupportedExpression("Modulo by zero"@))
                } else {
                    Ok(remainder(l, r))
                },
            },
        },
        ResolvedExprKind::Pow { lhs, rhs } => match const_eval_with(*lhs, sol, var, value) {
            Err(x) => Err(x),
            Ok(l) => match const_eval_with(*rhs, sol, var, value) {
                Err(x) => Err(x),
                Ok(r) => if r < 0 {
                    Err(SolverErrorModel::UnsupportedExpression("Negative exponent not supported for integer power"@))
                } else if in_i64(pow(l, (r % 4294967296) as nat)) {
                    Ok(pow(l, (r % 4294967296) as nat))
                } else {
                    Err(SolverErrorModel::UnsupportedExpression("Power operation overflow"@))
                },
            },
        },
        ResolvedExprKind::Paren { inner } => const_eval_with(*inner, sol, var, value),
        ResolvedExprKind::Ref { inner } => const_eval_with(*inner, sol, var, value),
        _ => Err(SolverErrorModel::UnsupportedExpression("Cannot evaluate expression to constant: "@ + kind_name(e.kind))),
    }
}

/// Evaluating `e` with `var` standing for `value` computes no value out of the `i64`
/// range with `+`, `-`, `*`, `/`, `%` or negation, where machine arithmetic would
/// overflow.
pub open spec fn const_fits_with(e: ResolvedExpr, sol: Option<Seq<(Seq<ComponentView>, Value)>>, var: Seq<char>, value: i64) -> bool
    decreases e,
{
    match e.kind {
        ResolvedExprKind::Add { lhs, rhs } => const_fits_with(*lhs, sol, var, value)
            && (const_eval_with(*lhs, sol, var, value) is Ok ==> const_fits_with(*rhs, sol, var, value))
            && (const_eval_with(*lhs, sol, var, value) matches Ok(l) && const_eval_with(*rhs, sol, var, value) matches Ok(r) ==> in_i64(l + r)),
        ResolvedExprKind::Sub { lhs, rhs } => const_fits_with(*lhs, sol, var, value)
            && (const_eval_with(*lhs, sol, var, value) is Ok ==> const_fits_with(*rhs, sol, var, value))
            && (const_eval_with(*lhs, sol, var, value) matches Ok(l) && const_eval_with(*rhs, sol, var, value) matches Ok(r) ==> in_i64(l - r)),
        ResolvedExprKind::Mul { lhs, rhs } => const_fits_with(*lhs, sol, var, value)
            && (const_eval_with(*lhs, sol, var, value) is Ok ==> const_fits_with(*rhs, sol, var, value))
            && (const_eval_with(*lhs, sol, var, value) matches Ok(l) && const_eval_with(*rhs, sol, var, value) matches Ok(r) ==> in_i64(l * r)),
        ResolvedExprKind::Div { lhs, rhs } => const_fits_with(*lhs, sol, var, value)
            && (const_eval_with(*lhs, sol, var, value) is Ok ==> const_fits_with(*rhs, sol, var, value))
            && (const_eval_with(*lhs, sol, var, value) matches Ok(l) && const_eval_with(*rhs, sol, var, value) matches Ok(r) ==> (r == 0 || in_i64(quotient(l, r)))),
        ResolvedExprKind::Mod { lhs, rhs } => const_fits_with(*lhs, sol, var, value)
            && (const_eval_with(*lhs, sol, var, value) is Ok ==> const_fits_with(*rhs, sol, var, value))
            && (const_eval_with(*lhs, sol, var, value) matches Ok(l) && const_eval_with(*rhs, sol, var, value) matches Ok(r) ==> !(l == i64::MIN && r == -1)),
        ResolvedExprKind::Pow { lhs, rhs } => const_fits_with(*lhs, sol, var, value)
            && (const_eval_with(*lhs, sol, var, value) is Ok ==> const_fits_with(*rhs, sol, var, value)),
        ResolvedExprKind::Neg { inner } => const_fits_with(*inner, sol, var, value)
            && (const_eval_with(*inner, sol, var, value) matches Ok(v) ==> in_i64(-v)),
        ResolvedExprKind::Paren { inner } => const_fits_with(*inner, sol, var, value),
        ResolvedExprKind::Ref { inner } => const_fits_with(*inner, sol, var, value),
        _ => true,
    }
}

proof fn lemma_pow_one(e: nat)
    ensures
        pow(1, e) == 1,
    decreases e,
{
    reveal(pow);
    if e > 0 {
        lemma_pow_one((e - 1) as nat);
    }
}

proof fn lemma_pow_zero(e: nat)
    requires
        e > 0,
    ensures
        pow(0, e) == 0,
{
    reveal(pow);
}

proof fn lemma_pow_minus_one(e: nat)
    ensures
        pow(-1, e) == if e % 2 == 0 { 1int } else { -1int },
    decreases e,
{
    reveal(pow);
    if e > 0 {
        lemma_pow_minus_one((e - 1) as nat);
    }
}

/// The magnitude of an integer.
pub open spec fn magnitude(x: int) -> int {
    if x >= 0 { x } else { -x }
}

/// For a base of magnitude at least two, each further power at least doubles the
/// magnitude.
proof fn lemma_pow_grows(b: int, i: nat, j: nat)
    requires
        b >= 2 || b <= -2,
        i < j,
    ensures
        magnitude(pow(b, j)) >= 2 * magnitude(pow(b, i)),
    decreases j,
{
    reveal(pow);
    let p = pow(b, (j - 1) as nat);
    assert(pow(b, j) == b * p);
    assert(magnitude(b * p) >= 2 * magnitude(p)) by (nonlinear_arith)
        requires
            b >= 2 || b <= -2,
    {
    }
    if i < j - 1 {
        lemma_pow_grows(b, i, (j - 1) as nat);
    }
}

/// `base` to the power `exp`, or `None` when that leaves the `i64` range.
fn checked_power(base: i64, exp: u32) -> (r: Option<i64>)
    ensures
        match r {
            Some(v) => v == pow(base as int, exp as nat),
            None => !in_i64(pow(base as int, exp as nat)),
        },
{
    proof {
        reveal(pow);
    }
    if base == 0 {
        if exp == 0 {
            return Some(1);
        }
        proof {
            lemma_pow_zero(exp as nat);
        }
        return Some(0);
    }
    if base == 1 {
        proof {
            lemma_pow_one(exp as nat);
        }
        return Some(1);
    }
    if base == -1 {
        proof {
            lemma_pow_minus_one(exp as nat);
        }
        return if exp % 2 == 0 { Some(1) } else { Some(-1) };
    }
    let mut acc: i64 = 1;
    let mut i: u32 = 0;
    while i < exp
        invariant
            i <= exp,
            base >= 2 || base <= -2,
            acc == pow(base as int, i as nat),
        decreases exp - i,
    {
        proof {
            reveal(pow);
            assert(pow(base as int, (i + 1) as nat) == base * pow(base as int, i as nat));
            assert(acc * base == base * acc) by (nonlinear_arith);
        }
        match acc.checked_mul(base) {
            Some(next) => {
                acc = next;
            },
            None => {
                proof {
                    let x = pow(base as int, (i + 1) as nat);
                    assert(x == base * acc);
                    if i + 1 < exp {
                        lemma_pow_grows(base as int, (i + 1) as nat, exp as nat);
                    }
                }
                return None;
            },
        }
        i = i + 1;
    }
    Some(acc)
}

impl<'src> SolverContext<'src> {
    /// The integer value of the constant expression `expr` (see [`const_eval`]); a
    /// variable takes its integer value in the solution of the last solve.
    pub fn evaluate_const_expr(&self, expr: &ResolvedExpr) -> (r: Result<i64, SolverError>)
        requires
            const_fits(*expr, solution_model(self.solution())),
        ensures
            match const_eval(*expr, solution_model(self.solution())) {
                Ok(v) => r matches Ok(x) && x == v,
                Err(e) => r matches Err(x) && x@ == e,
            },
        decreases expr,
    {
        match &expr.kind {
            ResolvedExprKind::IntLit { value } => Ok(*value),
            ResolvedExprKind::Var { name } => {
                match &self.current_solution {
                    None => {
                        let mut message = String::from_str("Variable '");
                        append_str(&mut message, name.as_str());
                        append_str(&mut message, "' not yet resolved (no solution available)");
                        Err(SolverError::UndefinedVariable(message))
                    },
                    Some(solution) => {
                        let path = VariablePath::from_name(name.as_str());
                        proof {
                            assert(path_view(path.components@) =~= seq![ComponentView::Field(name@)]);
                        }
                        match solution_value(&solution.assignments, &path) {
                            Some(Value::Int(v)) => Ok(*v),
                            Some(_) => Err(SolverError::UnsupportedExpression(String::from_str("Variable is not an integer"))),
                            None => {
                                let mut message = String::from_str("Variable '");
                                append_str(&mut message, name.as_str());
                                append_str(&mut message, "' not yet resolved");
                                Err(SolverError::UndefinedVariable(message))
                            },
                        }
                    },
                }
            },
            ResolvedExprKind::Add { lhs, rhs } => {
                let l = match self.evaluate_const_expr(lhs) {
                    Ok(x) => x,
                    Err(e) => {
                        return Err(e);
                    },
                };
                let r = match self.evaluate_const_expr(rhs) {
                    Ok(x) => x,
                    Err(e) => {
                        return Err(e);
                    },
                };
                Ok(l + r)
            },
            ResolvedExprKind::Sub { lhs, rhs } => {
                let l = match self.evaluate_const_expr(lhs) {
                    Ok(x) => x,
                    Err(e) => {
                        return Err(e);
                    },
                };
                let r = match self.evaluate_const_expr(rhs) {
                    Ok(x) => x,
                    Err(e) => {
                        return Err(e);
                    },
                };
                Ok(l - r)
            },
            ResolvedExprKind::Mul { lhs, rhs } => {
                let l = match self.evaluate_const_expr(lhs) {
                    Ok(x) => x,
                    Err(e) => {
                        return Err(e);
                    },
                };
                let r = match self.evaluate_const_expr(rhs) {
                    Ok(x) => x,
                    Err(e) => {
                        return Err(e);
                    },
                };
                Ok(l * r)
            },
            ResolvedExprKind::Div { lhs, rhs } => {
                let l = match self.evaluate_const_expr(lhs) {
                    Ok(x) => x,
                    Err(e) => {
                        return Err(e);
                    },
                };
                let r = match self.evaluate_const_expr(rhs) {
                    Ok(x) => x,
                    Err(e) => {
                        return Err(e);
                    },
                };
                if r == 0 {
                    return Err(SolverError::UnsupportedExpression(String::from_str("Division by zero")));
                }
                match l.checked_div(r) {
                    Some(q) => Ok(q),
                    None => {
                        proof {
                            assert(false);
                        }
                        Err(SolverError::UnsupportedExpression(String::from_str("Division by zero")))
                    },
                }
            },
            ResolvedExprKind::Mod { lhs, rhs } => {
                let l = match self.evaluate_const_expr(lhs) {
                    Ok(x) => x,
                    Err(e) => {
                        return Err(e);
                    },
                };
                let r = match self.evaluate_const_expr(rhs) {
                    Ok(x) => x,
                    Err(e) => {
                        return Err(e);
                    },
                };
                if r == 0 {
                    return Err(SolverError::UnsupportedExpression(String::from_str("Modulo by zero")));
                }
                match l.checked_rem(r) {
                    Some(m) => Ok(m),
                    None => {
                        proof {
                            assert(false);
                        }
                        Err(SolverError::UnsupportedExpression(String::from_str("Modulo by zero")))
                    },
                }
            },
            ResolvedExprKind::Pow { lhs, rhs } => {
                let l = match self.evaluate_const_expr(lhs) {
                    Ok(x) => x,
                    Err(e) => {
                        return Err(e);
                    },
                };
                let r = match self.evaluate_const_expr(rhs) {
                    Ok(x) => x,
                    Err(e) => {
                        return Err(e);
                    },
                };
                if r < 0 {
                    return Err(SolverError::UnsupportedExpression(
                        String::from_str("Negative exponents not supported in constant evaluation")));
                }
                let e = (r % 4294967296) as u32;
                match checked_power(l, e) {
                    Some(v) => Ok(v),
                    None => Err(SolverError::UnsupportedExpression(String::from_str("Power operation overflow"))),
                }
            },
            ResolvedExprKind::Neg { inner } => {
                let v = match self.evaluate_const_expr(inner) {
                    Ok(x) => x,
                    Err(e) => {
                        return Err(e);
                    },
                };
                Ok(-v)
            },
            _ => {
                let mut message = String::from_str("Cannot evaluate expression to constant: ");
                append_str(&mut message, kind_label(&expr.kind));
                Err(SolverError::UnsupportedExpression(message))
            },
        }
    }
}

impl<'src> SolverContext<'src> {
    /// The integer value of the constant expression `expr` with the variable `var`
    /// standing for `value` (see [`const_eval_with`]); another variable takes its
    /// integer value in the solution of the last solve.
    pub fn evaluate_const_expr_with_substitution(&self, expr: &ResolvedExpr, var: &str, value: i64) -> (r: Result<i64, SolverError>)
        requires
            const_fits_with(*expr, solution_model(self.solution()), var@, value),
        ensures
            match const_eval_with(*expr, solution_model(self.solution()), var@, value) {
                Ok(v) => r matches Ok(x) && x == v,
                Err(e) => r matches Err(x) && x@ == e,
            },
        decreases expr,
    {
        match &expr.kind {
            ResolvedExprKind::IntLit { value: v } => Ok(*v),
            ResolvedExprKind::Var { name } => {
                if same_text(name.as_str(), var) {
                    return Ok(value);
                }
                match &self.current_solution {
                    None => Err(SolverError::UndefinedVariable(name.clone())),
                    Some(solution) => {
                        let path = VariablePath::from_name(name.as_str());
                        proof {
                            assert(path_view(path.components@) =~= seq![ComponentView::Field(name@)]);
                        }
                        match solution_value(&solution.assignments, &path) {
                            Some(Value::Int(v)) => Ok(*v),
                            Some(_) => Err(SolverError::UnsupportedExpression(String::from_str("Variable is not an integer"))),
                            None => Err(SolverError::UndefinedVariable(name.clone())),
                        }
                    },
                }
            },
            ResolvedExprKind::Add { lhs, rhs } => {
                let l = match self.evaluate_const_expr_with_substitution(lhs, var, value) { Ok(x) => x, Err(e) => { return Err(e); } };
                let r = match self.evaluate_const_expr_with_substitution(rhs, var, value) { Ok(x) => x, Err(e) => { return Err(e); } };
                Ok(l + r)
            },
            ResolvedExprKind::Sub { lhs, rhs } => {
                let l = match self.evaluate_const_expr_with_substitution(lhs, var, value) { Ok(x) => x, Err(e) => { return Err(e); } };
                let r = match self.evaluate_const_expr_with_substitution(rhs, var, value) { Ok(x) => x, Err(e) => { return Err(e); } };
                Ok(l - r)
            },
            ResolvedExprKind::Mul { lhs, rhs } => {
                let l = match self.evaluate_const_expr_with_substitution(lhs, var, value) { Ok(x) => x, Err(e) => { return Err(e); } };
                let r = match self.evaluate_const_expr_with_substitution(rhs, var, value) { Ok(x) => x, Err(e) => { return Err(e); } };
                Ok(l * r)
            },
            ResolvedExprKind::Div { lhs, rhs } => {
                let l = match self.evaluate_const_expr_with_substitution(lhs, var, value) { Ok(x) => x, Err(e) => { return Err(e); } };
                let r = match self.evaluate_const_expr_with_substitution(rhs, var, value) { Ok(x) => x, Err(e) => { return Err(e); } };
                if r == 0 {
                    return Err(SolverError::UnsupportedExpression(String::from_str("Division by zero")));
                }
                match l.checked_div(r) {
                    Some(q) => Ok(q),
                    None => Err(SolverError::UnsupportedExpression(String::from_str("Division by zero"))),
                }
            },
            ResolvedExprKind::Mod { lhs, rhs } => {
                let l = match self.evaluate_const_expr_with_substitution(lhs, var, value) { Ok(x) => x, Err(e) => { return Err(e); } };
                let r = match self.evaluate_const_expr_with_substitution(rhs, var, value) { Ok(x) => x, Err(e) => { return Err(e); } };
                if r == 0 {
                    return Err(SolverError::UnsupportedExpression(String::from_str("Modulo by zero")));
                }
                match l.checked_rem(r) {
                    Some(m) => Ok(m),
                    None => Err(SolverError::UnsupportedExpression(String::from_str("Modulo by zero"))),
                }
            },
            ResolvedExprKind::Pow { lhs, rhs } => {
                let l = match self.evaluate_const_expr_with_substitution(lhs, var, value) { Ok(x) => x, Err(e) => { return Err(e); } };
                let r = match self.evaluate_const_expr_with_substitution(rhs, var, value) { Ok(x) => x, Err(e) => { return Err(e); } };
                if r < 0 {
                    return Err(SolverError::UnsupportedExpression(
                        String::from_str("Negative exponent not supported for integer power")));
                }
                let e = (r % 4294967296) as u32;
                match checked_power(l, e) {
                    Some(v) => Ok(v),
                    None => Err(SolverError::UnsupportedExpression(String::from_str("Power operation overflow"))),
                }
            },
            ResolvedExprKind::Neg { inner } => {
                let v = match self.evaluate_const_expr_with_substitution(inner, var, value) { Ok(x) => x, Err(e) => { return Err(e); } };
                Ok(-v)
            },
            ResolvedExprKind::Paren { inner } => self.evaluate_const_expr_with_substitution(inner, var, value),
            ResolvedExprKind::Ref { inner } => self.evaluate_const_expr_with_substitution(inner, var, value),
            _ => {
                let mut message = String::from_str("Cannot evaluate expression to constant: ");
                append_str(&mut message, kind_label(&expr.kind));
                Err(SolverError::UnsupportedExpression(message))
            },
        }
    }
}

/// The path that a variable expression denotes: a variable, a field of one, or an
/// element at a constant index; the index is evaluated before the array's path.
pub open spec fn var_path(e: ResolvedExpr, sol: Option<Seq<(Seq<ComponentView>, Value)>>) -> Result<Seq<ComponentView>, SolverErrorModel>
    decreases e,
{
    match e.kind {
        ResolvedExprKind::Var { name } => Ok(seq![ComponentView::Field(name@)]),
        ResolvedExprKind::FieldAccess { receiver, field_name } => match var_path(*receiver, sol) {
            Ok(p) => Ok(p.push(ComponentView::Field(field_name@))),
            Err(x) => Err(x),
        },
        ResolvedExprKind::Index { array, index } => match const_eval(*index, sol) {
            Err(x) => Err(x),
            Ok(v) => match var_path(*array, sol) {
                Ok(p) => Ok(p.push(ComponentView::Index((v as i64) as usize))),
                Err(x) => Err(x),
            },
        },
        _ => Err(SolverErrorModel::UnsupportedExpression("Cannot build variable path from this expression: "@ + kind_name(e.kind))),
    }
}

/// Building the path of `e` evaluates no index with a machine overflow.
pub open spec fn var_path_fits(e: ResolvedExpr, sol: Option<Seq<(Seq<ComponentView>, Value)>>) -> bool
    decreases e,
{
    match e.kind {
        ResolvedExprKind::FieldAccess { receiver, .. } => var_path_fits(*receiver, sol),
        ResolvedExprKind::Index { array, index } =>
            const_fits(*index, sol) && (const_eval(*index, sol) is Ok ==> var_path_fits(*array, sol)),
        _ => true,
    }
}

impl<'src> SolverContext<'src> {
    /// The path of the variable expression `base` (see [`var_path`]).
    pub fn build_variable_path(&self, base: &'src ResolvedExpr) -> (r: Result<VariablePath<'src>, SolverError>)
        requires
            var_path_fits(*base, solution_model(self.solution())),
        ensures
            match var_path(*base, solution_model(self.solution())) {
                Ok(p) => r matches Ok(x) && path_view(x.components@) == p,
                Err(e) => r matches Err(x) && x@ == e,
            },
        decreases base,
    {
        match &base.kind {
            ResolvedExprKind::Var { name } => {
                let p = VariablePath::from_name(name.as_str());
                assert(path_view(p.components@) =~= seq![ComponentView::Field(name@)]);
                Ok(p)
            },
            ResolvedExprKind::FieldAccess { receiver, field_name } => {
                let inner = match self.build_variable_path(receiver) {
                    Ok(p) => p,
                    Err(e) => {
                        return Err(e);
                    },
                };
                let p = inner.with_field(field_name.as_str());
                assert(path_view(p.components@) =~= path_view(inner.components@).push(ComponentView::Field(field_name@)));
                Ok(p)
            },
            ResolvedExprKind::Index { array, index } => {
                let index_val = match self.evaluate_const_expr(index) {
                    Ok(v) => v,
                    Err(e) => {
                        return Err(e);
                    },
                };
                let inner = match self.build_variable_path(array) {
                    Ok(p) => p,
                    Err(e) => {
                        return Err(e);
                    },
                };
                let p = inner.with_index(index_val as usize);
                assert(path_view(p.components@) =~= path_view(inner.components@).push(ComponentView::Index(index_val as usize)));
                Ok(p)
            },
            _ => {
                let mut message = String::from_str("Cannot build variable path from this expression: ");
                append_str(&mut message, kind_label(&base.kind));
                Err(SolverError::UnsupportedExpression(message))
            },
        }
    }
}

} // verus!
