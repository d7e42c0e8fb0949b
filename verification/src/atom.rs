use vstd::prelude::*;

verus! {

/// The single value and syntax-tree type of the language: a closed tagged
/// union.  A `List` doubles as unevaluated syntax (a call or special form)
/// and as a runtime composite value.  Numbers are fixed-width 64-bit signed
/// integers; arithmetic wraps around on overflow.
#[derive(Debug)]
pub enum Atom {
    /// The no-value result of statements (`define`, `do`, `print`).
    Void,
    /// A signed 64-bit integer.
    Integer(i64),
    /// Produced only by comparison operators, consumed only by `if`.
    Bool(bool),
    /// A quoted literal; not indexable or concatenable.
    String(String),
    /// A name, resolved by environment lookup when evaluated.
    Symbol(String),
    /// An unevaluated function value: parameter names and body expressions.
    Lambda(Vec<String>, Vec<Atom>),
    /// An ordered sequence of atoms.
    List(Vec<Atom>),
}

/// The mathematical model of an `Atom`: text becomes `Seq<char>`,
/// vectors become `Seq`.
pub enum AtomSpec {
    Void,
    Integer(i64),
    Bool(bool),
    Str(Seq<char>),
    Symbol(Seq<char>),
    Lambda(Seq<Seq<char>>, Seq<AtomSpec>),
    List(Seq<AtomSpec>),
}

/// The model of a vector of parameter names.
pub open spec fn view_names(v: Seq<String>) -> Seq<Seq<char>> {
    Seq::new(v.len(), |i: int| v[i]@)
}

/// The model of a vector of atoms, element by element.
pub open spec fn view_atoms(v: Seq<Atom>) -> Seq<AtomSpec>
    decreases v,
{
    if v.len() == 0 {
        Seq::empty()
    } else {
        view_atoms(v.subrange(0, v.len() - 1)).push(v[v.len() - 1]@)
    }
}

pub broadcast proof fn lemma_view_atoms(v: Seq<Atom>)
    ensures
        #![trigger view_atoms(v)]
        view_atoms(v).len() == v.len(),
        forall|i: int| 0 <= i < v.len() ==> view_atoms(v)[i] == v[i]@,
    decreases v,
{
    if v.len() == 0 {
        assert(view_atoms(v) == Seq::<AtomSpec>::empty());
    } else {
        let pre = v.subrange(0, v.len() - 1);
        lemma_view_atoms(pre);
        assert(view_atoms(v) == view_atoms(pre).push(v[v.len() - 1]@));
        assert(view_atoms(v).len() == v.len());
        assert forall|i: int| 0 <= i < v.len() implies view_atoms(v)[i] == v[i]@ by {
            if i < v.len() - 1 {
                assert(view_atoms(v)[i] == view_atoms(pre)[i]);
                assert(pre[i] == v[i]);
            }
        }
    }
}

impl View for Atom {
    type V = AtomSpec;

    open spec fn view(&self) -> AtomSpec
        decreases self,
    {
        match self {
            Atom::Void => AtomSpec::Void,
            Atom::Integer(i) => AtomSpec::Integer(*i),
            Atom::Bool(b) => AtomSpec::Bool(*b),
            Atom::String(s) => AtomSpec::Str(s@),
            Atom::Symbol(s) => AtomSpec::Symbol(s@),
            Atom::Lambda(params, body) => AtomSpec::Lambda(view_names(params@), view_atoms(body@)),
            Atom::List(items) => AtomSpec::List(view_atoms(items@)),
        }
    }
}

/// Whether an atom can appear in a parsed program: parsing produces only
/// integers, string literals, symbols and lists of such atoms.
pub open spec fn is_syntax(a: AtomSpec) -> bool
    decreases a,
{
    match a {
        AtomSpec::Integer(_) => true,
        AtomSpec::Str(_) => true,
        AtomSpec::Symbol(_) => true,
        AtomSpec::List(items) => all_syntax(items),
        _ => false,
    }
}

pub open spec fn all_syntax(items: Seq<AtomSpec>) -> bool
    decreases items,
{
    if items.len() == 0 {
        true
    } else {
        is_syntax(items[0]) && all_syntax(items.subrange(1, items.len() as int))
    }
}

/// The name of an atom's runtime type, as reported in type errors.
pub open spec fn type_text(a: AtomSpec) -> Seq<char> {
    match a {
        AtomSpec::Void => "Void"@,
        AtomSpec::Integer(_) => "Integer"@,
        AtomSpec::Bool(_) => "Bool"@,
        AtomSpec::Str(_) => "String"@,
        AtomSpec::Symbol(_) => "Symbol"@,
        AtomSpec::Lambda(_, _) => "Lambda"@,
        AtomSpec::List(_) => "List"@,
    }
}

impl Atom {
    /// The name of this atom's runtime type, used in type-mismatch errors.
    pub fn type_label(&self) -> (r: String)
        ensures
            r@ == type_text(self@),
    {
        match self {
            Atom::Void => "Void".to_owned(),
            Atom::Integer(_) => "Integer".to_owned(),
            Atom::Bool(_) => "Bool".to_owned(),
            Atom::String(_) => "String".to_owned(),
            Atom::Symbol(_) => "Symbol".to_owned(),
            Atom::Lambda(_, _) => "Lambda".to_owned(),
            Atom::List(_) => "List".to_owned(),
        }
    }

    /// A deep copy with the same model.  Atoms are immutable once built, and
    /// evaluation copies them rather than mutating any node in place.
    pub fn duplicate(&self) -> (r: Atom)
        ensures
            r@ == self@,
        decreases self, 1int,
    {
        broadcast use lemma_view_atoms;

        match self {
            Atom::Void => Atom::Void,
            Atom::Integer(i) => Atom::Integer(*i),
            Atom::Bool(b) => Atom::Bool(*b),
            Atom::String(s) => Atom::String(s.clone()),
            Atom::Symbol(s) => Atom::Symbol(s.clone()),
            Atom::Lambda(params, body) => {
                let ps = duplicate_names(params);
                proof {
                    assert(self->Lambda_1 == *body);
                    assert(decreases_to!(*self => *body));
                    assert(decreases_to!(*body => body@));
                }
                let bs = duplicate_atoms(self, body);
                Atom::Lambda(ps, bs)
            },
            Atom::List(items) => {
                proof {
                    assert(self->List_0 == *items);
                    assert(decreases_to!(*self => *items));
                    assert(decreases_to!(*items => items@));
                }
                Atom::List(duplicate_atoms(self, items))
            },
        }
    }

    /// Structural equality of two atoms, stated over their models.
    pub fn atom_eq(&self, other: &Atom) -> (r: bool)
        ensures
            r == (self@ == other@),
        decreases self, 1int,
    {
        broadcast use lemma_view_atoms;

        match (self, other) {
            (Atom::Void, Atom::Void) => true,
            (Atom::Integer(a), Atom::Integer(b)) => *a == *b,
            (Atom::Bool(a), Atom::Bool(b)) => *a == *b,
            (Atom::String(a), Atom::String(b)) => *a == *b,
            (Atom::Symbol(a), Atom::Symbol(b)) => *a == *b,
            (Atom::Lambda(pa, ba), Atom::Lambda(pb, bb)) => {
                let names_same = names_eq(pa, pb);
                if names_same {
                    proof {
                        assert(self->Lambda_1 == *ba);
                        assert(decreases_to!(*self => *ba));
                        assert(decreases_to!(*ba => ba@));
                    }
                    atoms_eq(self, ba, bb)
                } else {
                    false
                }
            },
            (Atom::List(va), Atom::List(vb)) => {
                proof {
                    assert(self->List_0 == *va);
                    assert(decreases_to!(*self => *va));
                    assert(decreases_to!(*va => va@));
                }
                atoms_eq(self, va, vb)
            },
            _ => false,
        }
    }
}

fn duplicate_names(v: &Vec<String>) -> (r: Vec<String>)
    ensures
        view_names(r@) == view_names(v@),
{
    let mut r: Vec<String> = Vec::new();
    let mut i: usize = 0;
    while i < v.len()
        invariant
            i <= v@.len(),
            r@.len() == i,
            forall|j: int| 0 <= j < i ==> r@[j]@ == v@[j]@,
        decreases v@.len() - i,
    {
        r.push(v[i].clone());
        i = i + 1;
    }
    proof {
        assert(view_names(r@) =~= view_names(v@));
    }
    r
}

/// Deep-copies every atom of `v`; `whole` is the enclosing atom, passed in
/// only so that termination can be measured against it.
pub(crate) fn duplicate_atoms(whole: &Atom, v: &Vec<Atom>) -> (r: Vec<Atom>)
    requires
        decreases_to!(*whole => v@),
    ensures
        view_atoms(r@) == view_atoms(v@),
    decreases *whole, 0int,
{
    broadcast use lemma_view_atoms;

    let mut r: Vec<Atom> = Vec::new();
    let mut i: usize = 0;
    while i < v.len()
        invariant
            i <= v@.len(),
            r@.len() == i,
            decreases_to!(*whole => v@),
            forall|j: int| 0 <= j < i ==> r@[j]@ == v@[j]@,
        decreases v@.len() - i,
    {
        proof {
            assert(decreases_to!(v@ => v@[i as int]));
        }
        let d = v[i].duplicate();
        r.push(d);
        i = i + 1;
    }
    proof {
        assert(view_atoms(r@) =~= view_atoms(v@));
    }
    r
}

fn names_eq(a: &Vec<String>, b: &Vec<String>) -> (r: bool)
    ensures
        r == (view_names(a@) == view_names(b@)),
{
    if a.len() != b.len() {
        proof {
            assert(view_names(a@).len() != view_names(b@).len());
        }
        return false;
    }
    let mut i: usize = 0;
    while i < a.len()
        invariant
            i <= a@.len(),
            a@.len() == b@.len(),
            forall|j: int| 0 <= j < i ==> a@[j]@ == b@[j]@,
        decreases a@.len() - i,
    {
        if !(a[i] == b[i]) {
            proof {
                assert(view_names(a@)[i as int] != view_names(b@)[i as int]);
            }
            return false;
        }
        i = i + 1;
    }
    proof {
        assert(view_names(a@) =~= view_names(b@));
    }
    true
}

/// Compares every atom of `a` with the same position of `b`; `whole` is the
/// enclosing atom of `a`, passed in only for the termination measure.
fn atoms_eq(whole: &Atom, a: &Vec<Atom>, b: &Vec<Atom>) -> (r: bool)
    requires
        decreases_to!(*whole => a@),
    ensures
        r == (view_atoms(a@) == view_atoms(b@)),
    decreases *whole, 0int,
{
    broadcast use lemma_view_atoms;

    if a.len() != b.len() {
        proof {
            assert(view_atoms(a@).len() != view_atoms(b@).len());
        }
        return false;
    }
    let mut i: usize = 0;
    while i < a.len()
        invariant
            i <= a@.len(),
            a@.len() == b@.len(),
            decreases_to!(*whole => a@),
            forall|j: int| 0 <= j < i ==> a@[j]@ == b@[j]@,
        decreases a@.len() - i,
    {
        proof {
            assert(decreases_to!(a@ => a@[i as int]));
        }
        if !a[i].atom_eq(&b[i]) {
            proof {
                lemma_view_atoms(a@);
                lemma_view_atoms(b@);
                assert(view_atoms(a@)[i as int] != view_atoms(b@)[i as int]);
            }
            return false;
        }
        i = i + 1;
    }
    proof {
        assert(view_atoms(a@) =~= view_atoms(b@));
    }
    true
}

impl Clone for Atom {
    /// A clone carries the same model as the value it copies.
    fn clone(&self) -> (r: Atom)
        ensures
            r@ == self@,
    {
        self.duplicate()
    }
}

impl PartialEq for Atom {
    fn eq(&self, other: &Atom) -> (r: bool) {
        self.atom_eq(other)
    }
}

impl vstd::std_specs::cmp::PartialEqSpecImpl for Atom {
    open spec fn obeys_eq_spec() -> bool {
        true
    }

    open spec fn eq_spec(&self, other: &Atom) -> bool {
        self@ == other@
    }
}

} // verus!
