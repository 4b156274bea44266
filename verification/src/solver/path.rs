//! Paths to variables and to the parts of struct and array variables:
//! `p`, `p.x`, `points[0].x`.

use vstd::prelude::*;
use crate::text::{append_str, append_u64, push_char, decimal, same_text};

verus! {

/// One step of a variable path: a named field (the root variable is a field too)
/// or an array element.
#[derive(Debug, Clone, Copy)]
pub enum PathComponent<'a> {
    Field(&'a str),
    Index(usize),
}

/// A path from a root variable down to one of its parts.
#[derive(Debug)]
pub struct VariablePath<'a> {
    pub components: Vec<PathComponent<'a>>,
}

/// A path component as plain values: a field name or an element index.
pub enum ComponentView {
    Field(Seq<char>),
    Index(usize),
}

/// The plain value of a path component.
pub open spec fn component_view(c: PathComponent) -> ComponentView {
    match c {
        PathComponent::Field(name) => ComponentView::Field(name@),
        PathComponent::Index(i) => ComponentView::Index(i),
    }
}

/// The plain values of the components of a path.
pub open spec fn path_view(cs: Seq<PathComponent>) -> Seq<ComponentView> {
    cs.map_values(|c: PathComponent| component_view(c))
}

/// The text of one component: `.name` (just `name` at the start) or `[i]`.
pub open spec fn component_text(c: PathComponent, first: bool) -> Seq<char> {
    match c {
        PathComponent::Field(name) => if first { name@ } else { seq!['.'] + name@ },
        PathComponent::Index(i) => seq!['['] + decimal(i as nat) + seq![']'],
    }
}

/// The name under which the solver knows the variable at `cs`: `points[0].x`.
pub open spec fn path_name(cs: Seq<PathComponent>) -> Seq<char>
    decreases cs.len(),
{
    if cs.len() == 0 {
        Seq::empty()
    } else {
        path_name(cs.drop_last()) + component_text(cs.last(), cs.len() == 1)
    }
}

/// Extending a path extends its name: a field adds `.field` (the bare field name on
/// an empty path), an element adds `[i]`.
pub proof fn lemma_path_name_extend(cs: Seq<PathComponent>, field: &str, index: usize)
    ensures
        path_name(cs.push(PathComponent::Field(field)))
            == if cs.len() == 0 { field@ } else { path_name(cs) + seq!['.'] + field@ },
        path_name(cs.push(PathComponent::Index(index)))
            == path_name(cs) + seq!['['] + decimal(index as nat) + seq![']'],
{
    assert(cs.push(PathComponent::Field(field)).drop_last() =~= cs);
    assert(cs.push(PathComponent::Index(index)).drop_last() =~= cs);
    if cs.len() == 0 {
        assert(Seq::<char>::empty() + field@ =~= field@);
    } else {
        assert(path_name(cs) + (seq!['.'] + field@) =~= path_name(cs) + seq!['.'] + field@);
    }
    assert(path_name(cs) + (seq!['['] + decimal(index as nat) + seq![']'])
        =~= path_name(cs) + seq!['['] + decimal(index as nat) + seq![']']);
}

/// No field name of the path contains a NUL character.
pub open spec fn field_names_ok(cs: Seq<PathComponent>) -> bool {
    forall|k: int| 0 <= k < cs.len() ==> (#[trigger] cs[k] matches PathComponent::Field(name) ==> !name@.contains('\0'))
}

proof fn lemma_decimal_no_nul(n: nat)
    ensures
        !decimal(n).contains('\0'),
    decreases n,
{
    if n >= 10 {
        lemma_decimal_no_nul(n / 10);
        assert forall|k: int| 0 <= k < decimal(n).len() implies decimal(n)[k] != '\0' by {
            if k < decimal(n / 10).len() {
                assert(decimal(n)[k] == decimal(n / 10)[k]);
            }
        }
    }
}

/// The name of a path whose field names hold no NUL character holds none either.
pub proof fn lemma_path_name_no_nul(cs: Seq<PathComponent>)
    requires
        field_names_ok(cs),
    ensures
        !path_name(cs).contains('\0'),
    decreases cs.len(),
{
    if cs.len() > 0 {
        let init = cs.drop_last();
        assert(field_names_ok(init)) by {
            assert forall|k: int| 0 <= k < init.len() implies (#[trigger] init[k] matches PathComponent::Field(name) ==> !name@.contains('\0')) by {
                assert(init[k] == cs[k]);
            }
        }
        lemma_path_name_no_nul(init);
        let last = cs.last();
        assert(cs[cs.len() - 1] == last);
        let t = component_text(last, cs.len() == 1);
        match last {
            PathComponent::Field(name) => {
                assert(!name@.contains('\0'));
                assert forall|k: int| 0 <= k < t.len() implies t[k] != '\0' by {
                    if cs.len() != 1 && k > 0 {
                        assert(t[k] == name@[k - 1]);
                    } else if cs.len() == 1 {
                        assert(t[k] == name@[k]);
                    }
                }
            },
            PathComponent::Index(i) => {
                lemma_decimal_no_nul(i as nat);
                assert forall|k: int| 0 <= k < t.len() implies t[k] != '\0' by {
                    if 0 < k < t.len() - 1 {
                        assert(t[k] == decimal(i as nat)[k - 1]);
                    }
                }
            },
        }
        let whole = path_name(cs);
        assert(whole == path_name(init) + t);
        assert forall|k: int| 0 <= k < whole.len() implies whole[k] != '\0' by {
            if k < path_name(init).len() {
                assert(whole[k] == path_name(init)[k]);
            } else {
                assert(whole[k] == t[k - path_name(init).len()]);
            }
        }
    }
}

impl<'a> VariablePath<'a> {
    /// The path of the variable `name` itself.
    pub fn from_name(name: &'a str) -> (p: VariablePath<'a>)
        ensures
            p.components@ == seq![PathComponent::Field(name)],
    {
        let mut components: Vec<PathComponent<'a>> = Vec::new();
        components.push(PathComponent::Field(name));
        VariablePath { components }
    }

    fn extended(&self, c: PathComponent<'a>) -> (p: VariablePath<'a>)
        ensures
            p.components@ == self.components@.push(c),
    {
        let mut components: Vec<PathComponent<'a>> = Vec::new();
        let mut i: usize = 0;
        while i < self.components.len()
            invariant
                i <= self.components@.len(),
                components@ == self.components@.take(i as int),
            decreases self.components.len() - i,
        {
            components.push(self.components[i]);
            assert(components@ =~= self.components@.take(i + 1));
            i = i + 1;
        }
        components.push(c);
        assert(components@ =~= self.components@.push(c));
        VariablePath { components }
    }

    /// The path of the field `field` of the value at this path.
    pub fn with_field(&self, field: &'a str) -> (p: VariablePath<'a>)
        ensures
            p.components@ == self.components@.push(PathComponent::Field(field)),
    {
        self.extended(PathComponent::Field(field))
    }

    /// The path of element `index` of the array at this path.
    pub fn with_index(&self, index: usize) -> (p: VariablePath<'a>)
        ensures
            p.components@ == self.components@.push(PathComponent::Index(index)),
    {
        self.extended(PathComponent::Index(index))
    }

    /// A path with the same components.
    pub fn duplicate(&self) -> (p: VariablePath<'a>)
        ensures
            p.components@ == self.components@,
    {
        let mut components: Vec<PathComponent<'a>> = Vec::new();
        let mut i: usize = 0;
        while i < self.components.len()
            invariant
                i <= self.components@.len(),
                components@ == self.components@.take(i as int),
            decreases self.components.len() - i,
        {
            components.push(self.components[i]);
            assert(components@ =~= self.components@.take(i + 1));
            i = i + 1;
        }
        assert(self.components@.take(self.components@.len() as int) =~= self.components@);
        VariablePath { components }
    }

    /// Whether two paths have the same components.
    pub fn same_path(&self, other: &VariablePath<'a>) -> (b: bool)
        ensures
            b == (path_view(self.components@) == path_view(other.components@)),
    {
        if self.components.len() != other.components.len() {
            assert(path_view(self.components@).len() != path_view(other.components@).len());
            return false;
        }
        let mut i: usize = 0;
        while i < self.components.len()
            invariant
                i <= self.components@.len(),
                self.components@.len() == other.components@.len(),
                forall|k: int| 0 <= k < i ==>
                    component_view(#[trigger] self.components@[k]) == component_view(other.components@[k]),
            decreases self.components.len() - i,
        {
            let same = match (self.components[i], other.components[i]) {
                (PathComponent::Field(a), PathComponent::Field(b)) => same_text(a, b),
                (PathComponent::Index(a), PathComponent::Index(b)) => a == b,
                _ => false,
            };
            if !same {
                assert(path_view(self.components@)[i as int] != path_view(other.components@)[i as int]);
                return false;
            }
            i = i + 1;
        }
        assert(path_view(self.components@) =~= path_view(other.components@));
        true
    }

    /// The components, root first.
    pub fn components(&self) -> (cs: &[PathComponent<'a>])
        ensures
            cs@ == self.components@,
    {
        self.components.as_slice()
    }

    /// Whether the path has no component.
    pub fn is_empty(&self) -> (b: bool)
        ensures
            b == (self.components@.len() == 0),
    {
        self.components.len() == 0
    }

    /// The name of the variable at this path: `p.x`, `arr[0]`, `points[0].x`.
    pub fn to_z3_name(&self) -> (s: String)
        ensures
            s@ == path_name(self.components@),
    {
        let mut s = String::new();
        let mut i: usize = 0;
        while i < self.components.len()
            invariant
                i <= self.components@.len(),
                s@ == path_name(self.components@.take(i as int)),
            decreases self.components.len() - i,
        {
            let ghost before = s@;
            match self.components[i] {
                PathComponent::Field(name) => {
                    if i > 0 {
                        push_char(&mut s, '.');
                    }
                    append_str(&mut s, name);
                },
                PathComponent::Index(idx) => {
                    push_char(&mut s, '[');
                    append_u64(&mut s, idx as u64);
                    push_char(&mut s, ']');
                },
            }
            proof {
                let t = self.components@.take(i + 1);
                assert(t.drop_last() =~= self.components@.take(i as int));
                assert(s@ =~= before + component_text(self.components@[i as int], i == 0));
            }
            i = i + 1;
        }
        assert(self.components@.take(self.components@.len() as int) =~= self.components@);
        s
    }
}

} // verus!
