//! Comparisons of terms: by type, and by type and value.

use vstd::prelude::*;
use crate::node::{type_of, Node, Term};

verus! {

/// Whether two terms have the same type.
pub open spec fn same_type(a: Term, b: Term) -> bool {
    a.type_of() == b.type_of()
}

/// Whether two terms have the same type and are the same term.
pub open spec fn same(a: Term, b: Term) -> bool {
    same_type(a, b) && a == b
}

/// Whether the two terms have the same type.
pub fn is_same_type(node1: Node, node2: Node) -> (equal: bool)
    requires
        node1@.typeable(),
        node2@.typeable(),
    ensures
        equal == same_type(node1@, node2@),
{
    type_of(node1) == type_of(node2)
}

/// Whether the two terms have the same type and are the same term.
pub fn is_same(node1: Node, node2: Node) -> (equal: bool)
    requires
        node1@.typeable(),
        node2@.typeable(),
    ensures
        equal == same(node1@, node2@),
{
    is_same_type(node1.clone(), node2.clone()) && node1 == node2
}

/// Every term is the same as itself.
pub proof fn lemma_same_reflexive(a: Term)
    ensures
        same(a, a),
{
}

/// Two atoms with different names are different terms of the same type.
pub proof fn lemma_atoms_same_type(x: Seq<char>, y: Seq<char>)
    requires
        x != y,
    ensures
        Term::Atom(x) != Term::Atom(y),
        same_type(Term::Atom(x), Term::Atom(y)),
        !same(Term::Atom(x), Term::Atom(y)),
{
}

} // verus!
