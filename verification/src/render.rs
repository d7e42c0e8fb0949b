use vstd::prelude::*;
use vstd::string::StringExecFns;
use crate::atom::{Atom, AtomSpec, view_atoms, lemma_view_atoms};
use crate::text::{int_text, int_string};

verus! {

/// The textual form of an atom, as an interactive shell shows it:
/// integers and booleans by their value, strings and symbols by their
/// content, lambdas as `Lambda(p1 p2 ) b1 b2`, lists in parentheses
/// with single spaces between the items.
pub open spec fn atom_text(a: AtomSpec) -> Seq<char>
    decreases a, 1int, 0int,
{
    match a {
        AtomSpec::Void => "Void"@,
        AtomSpec::Integer(i) => int_text(i as int),
        AtomSpec::Bool(b) => (if b {
            "true"@
        } else {
            "false"@
        }),
        AtomSpec::Str(s) => s,
        AtomSpec::Symbol(s) => s,
        AtomSpec::Lambda(params, body) => "Lambda("@ + names_text(params, 0) + ")"@
            + tail_items_text(body, 0),
        AtomSpec::List(items) => "("@ + items_text(items) + ")"@,
    }
}

/// Each parameter name followed by one space.
pub open spec fn names_text(names: Seq<Seq<char>>, i: int) -> Seq<char>
    decreases names.len() - i,
{
    if i < 0 || i >= names.len() {
        Seq::empty()
    } else {
        names[i] + " "@ + names_text(names, i + 1)
    }
}

/// The items of a list, separated by single spaces.
pub open spec fn items_text(items: Seq<AtomSpec>) -> Seq<char>
    decreases items, 0int, items.len() + 1,
{
    if items.len() == 0 {
        Seq::empty()
    } else {
        atom_text(items[0]) + tail_items_text(items, 1)
    }
}

/// One space followed by the item's text, for every item from `i` on.
pub open spec fn tail_items_text(items: Seq<AtomSpec>, i: int) -> Seq<char>
    decreases items, 0int, (if items.len() - i >= 0 { items.len() - i } else { 0int }),
{
    if i < 0 || i >= items.len() {
        Seq::empty()
    } else {
        " "@ + atom_text(items[i]) + tail_items_text(items, i + 1)
    }
}

impl Atom {
    /// Renders this atom as text.  The `print` form and the shell's own
    /// formatting of results both use exactly this form.
    pub fn to_text(&self) -> (r: String)
        ensures
            r@ == atom_text(self@),
        decreases self, 1int,
    {
        match self {
            Atom::Void => "Void".to_owned(),
            Atom::Integer(i) => int_string(*i),
            Atom::Bool(b) => (if *b {
                "true".to_owned()
            } else {
                "false".to_owned()
            }),
            Atom::String(s) => s.clone(),
            Atom::Symbol(s) => s.clone(),
            Atom::Lambda(params, body) => {
                let mut s = "Lambda(".to_owned();
                append_names(&mut s, params);
                s.append(")");
                proof {
                    assert(decreases_to!(*self => self->Lambda_1));
                    assert(self->Lambda_1 == *body);
                    assert(decreases_to!(*body => body@));
                }
                append_tail_items(self, &mut s, body, 0);
                proof {
                    assert(s@ =~= atom_text(self@));
                }
                s
            },
            Atom::List(items) => {
                let mut s = "(".to_owned();
                proof {
                    assert(decreases_to!(*self => self->List_0));
                    assert(self->List_0 == *items);
                    assert(decreases_to!(*items => items@));
                    broadcast use lemma_view_atoms;
                }
                if items.len() > 0 {
                    proof {
                        assert(decreases_to!(items@ => items@[0]));
                    }
                    let first = items[0].to_text();
                    s.append(first.as_str());
                    append_tail_items(self, &mut s, items, 1);
                }
                s.append(")");
                proof {
                    broadcast use lemma_view_atoms;
                    assert(s@ =~= atom_text(self@));
                }
                s
            },
        }
    }
}

/// Appends every parameter name, each followed by one space.
fn append_names(s: &mut String, names: &Vec<String>)
    ensures
        final(s)@ == old(s)@ + names_text(crate::atom::view_names(names@), 0),
{
    let ghost model = crate::atom::view_names(names@);
    let mut i: usize = 0;
    while i < names.len()
        invariant
            i <= names@.len(),
            model == crate::atom::view_names(names@),
            old(s)@ + names_text(model, 0) == s@ + names_text(model, i as int),
        decreases names@.len() - i,
    {
        s.append(names[i].as_str());
        s.append(" ");
        proof {
            reveal_strlit(" ");
            assert(s@ + names_text(model, i + 1) =~= old(s)@ + names_text(model, 0));
        }
        i = i + 1;
    }
    proof {
        assert(s@ =~= old(s)@ + names_text(model, 0));
    }
}

/// Appends one space and the item's text, for every item from `start` on.
/// `whole` is the enclosing atom, passed in for the termination measure.
fn append_tail_items(whole: &Atom, s: &mut String, items: &Vec<Atom>, start: usize)
    requires
        decreases_to!(*whole => items@),
    ensures
        final(s)@ == old(s)@ + tail_items_text(view_atoms(items@), start as int),
    decreases *whole, 0int,
{
    let ghost model = view_atoms(items@);
    let mut i: usize = start;
    if start > items.len() {
        proof {
            lemma_view_atoms(items@);
            assert(tail_items_text(model, start as int) =~= Seq::<char>::empty());
            assert(s@ =~= old(s)@ + tail_items_text(model, start as int));
        }
        return;
    }
    while i < items.len()
        invariant
            start <= i <= items@.len(),
            model == view_atoms(items@),
            decreases_to!(*whole => items@),
            old(s)@ + tail_items_text(model, start as int) == s@ + tail_items_text(model, i as int),
        decreases items@.len() - i,
    {
        proof {
            broadcast use lemma_view_atoms;

            assert(decreases_to!(items@ => items@[i as int]));
        }
        s.append(" ");
        let t = items[i].to_text();
        s.append(t.as_str());
        proof {
            broadcast use lemma_view_atoms;

            reveal_strlit(" ");
            assert(s@ + tail_items_text(model, i + 1) =~= old(s)@ + tail_items_text(
                model,
                start as int,
            ));
        }
        i = i + 1;
    }
    proof {
        lemma_view_atoms(items@);
        assert(s@ =~= old(s)@ + tail_items_text(model, start as int));
    }
}

} // verus!
