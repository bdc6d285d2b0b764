//! The kernel: terms, their types, and the judgment that gives each term its
//! type.

use vstd::prelude::*;
use vstd::std_specs::cmp::PartialEqSpecImpl;

verus! {

/// An ordered pair of two values of one kind, each owned by the pair.
#[derive(Clone, PartialEq, Debug)]
pub struct Pair<T>(pub Box<T>, pub Box<T>);

/// The type of a term.
#[derive(Debug)]
pub enum Type {
    /// The type of types at a level.
    Universe(i64),
    Atom,
    Pair(Pair<Type>),
    Unit,
}

/// A term.
#[derive(Debug)]
pub enum Node {
    /// A name that stands for itself.
    Atom(&'static str),
    PairNode(Pair<Node>),
    /// A type, taken as a term.
    TypeNode(Type),
    /// The empty value.
    Unit,
}

/// What a `Type` is, with levels that have no upper bound.
pub enum Ty {
    Universe(int),
    Atom,
    Pair(Box<Ty>, Box<Ty>),
    Unit,
}

/// What a `Node` is, with its names as sequences of characters.
pub enum Term {
    Atom(Seq<char>),
    Pair(Box<Term>, Box<Term>),
    Type(Ty),
    Unit,
}

impl Term {
    /// The type of a term. An atom has the atom type, the unit has the unit
    /// type, and a pair has the pair of its components' types. A universe
    /// has the universe one level up as its type, and every other type has
    /// the universe at level 0.
    pub open spec fn type_of(self) -> Ty
        decreases self,
    {
        match self {
            Term::Atom(_) => Ty::Atom,
            Term::Pair(left, right) => Ty::Pair(
                Box::new(left.type_of()),
                Box::new(right.type_of()),
            ),
            Term::Type(Ty::Universe(n)) => Ty::Universe(n + 1),
            Term::Type(_) => Ty::Universe(0),
            Term::Unit => Ty::Unit,
        }
    }

    /// Whether an `i64` holds the level of the type of every universe in the
    /// term: none of them stands at the last level.
    pub open spec fn typeable(self) -> bool
        decreases self,
    {
        match self {
            Term::Pair(left, right) => left.typeable() && right.typeable(),
            Term::Type(Ty::Universe(n)) => n < i64::MAX,
            _ => true,
        }
    }
}

impl Type {
    /// What this type is.
    pub open spec fn model(self) -> Ty
        decreases self,
    {
        match self {
            Type::Universe(n) => Ty::Universe(n as int),
            Type::Atom => Ty::Atom,
            Type::Pair(p) => Ty::Pair(Box::new(p.0.model()), Box::new(p.1.model())),
            Type::Unit => Ty::Unit,
        }
    }
}

impl View for Type {
    type V = Ty;

    open spec fn view(&self) -> Ty {
        self.model()
    }
}

impl Node {
    /// What this term is.
    pub open spec fn model(self) -> Term
        decreases self,
    {
        match self {
            Node::Atom(name) => Term::Atom(name@),
            Node::PairNode(p) => Term::Pair(Box::new(p.0.model()), Box::new(p.1.model())),
            Node::TypeNode(t) => Term::Type(t@),
            Node::Unit => Term::Unit,
        }
    }
}

impl View for Node {
    type V = Term;

    open spec fn view(&self) -> Term {
        self.model()
    }
}

impl Clone for Type {
    fn clone(&self) -> (copy: Type)
        ensures
            copy == *self,
        decreases self,
    {
        match self {
            Type::Universe(n) => Type::Universe(*n),
            Type::Atom => Type::Atom,
            Type::Pair(p) => Type::Pair(Pair(Box::new((*p.0).clone()), Box::new((*p.1).clone()))),
            Type::Unit => Type::Unit,
        }
    }
}

impl Clone for Node {
    fn clone(&self) -> (copy: Node)
        ensures
            copy == *self,
        decreases self,
    {
        match self {
            Node::Atom(name) => Node::Atom(*name),
            Node::PairNode(p) => Node::PairNode(
                Pair(Box::new((*p.0).clone()), Box::new((*p.1).clone())),
            ),
            Node::TypeNode(t) => Node::TypeNode(t.clone()),
            Node::Unit => Node::Unit,
        }
    }
}

impl PartialEq for Type {
    /// Two types are equal where they are of one kind and hold equal parts.
    fn eq(&self, other: &Type) -> (equal: bool)
        decreases self,
    {
        match (self, other) {
            (Type::Universe(n), Type::Universe(m)) => *n == *m,
            (Type::Atom, Type::Atom) => true,
            (Type::Pair(p), Type::Pair(q)) => (*p.0).eq(&*q.0) && (*p.1).eq(&*q.1),
            (Type::Unit, Type::Unit) => true,
            _ => false,
        }
    }
}

impl PartialEqSpecImpl for Type {
    open spec fn obeys_eq_spec() -> bool {
        true
    }

    open spec fn eq_spec(&self, other: &Type) -> bool {
        self@ == other@
    }
}

/// `==` on `str` of the standard library, taken on trust: two string slices
/// are equal where they hold the same characters in the same order.
pub assume_specification[ <str as PartialEq<str>>::eq ](a: &str, b: &str) -> (equal: bool)
    ensures
        equal == (a@ == b@),
;

impl PartialEq for Node {
    /// Two terms are equal where they are of one kind and hold equal parts;
    /// two atoms, where their names are equal.
    fn eq(&self, other: &Node) -> (equal: bool)
        decreases self,
    {
        match (self, other) {
            (Node::Atom(a), Node::Atom(b)) => (*a).eq(*b),
            (Node::PairNode(p), Node::PairNode(q)) => (*p.0).eq(&*q.0) && (*p.1).eq(&*q.1),
            (Node::TypeNode(t), Node::TypeNode(u)) => t.eq(u),
            (Node::Unit, Node::Unit) => true,
            _ => false,
        }
    }
}

impl PartialEqSpecImpl for Node {
    open spec fn obeys_eq_spec() -> bool {
        true
    }

    open spec fn eq_spec(&self, other: &Node) -> bool {
        self@ == other@
    }
}

impl<T> Pair<T> {
    /// The pair of `node1` and `node2`.
    pub fn cons(node1: T, node2: T) -> (pair: Pair<T>)
        ensures
            pair == Pair(Box::new(node1), Box::new(node2)),
    {
        Pair(Box::new(node1), Box::new(node2))
    }

    /// The first component.
    pub fn car(self) -> (first: T)
        ensures
            first == *self.0,
    {
        *self.0
    }

    /// The second component.
    pub fn cdr(self) -> (second: T)
        ensures
            second == *self.1,
    {
        *self.1
    }
}

/// An error of the kernel.
#[derive(Clone, Copy, Debug, PartialEq, Eq)]
pub enum KernelError {
    /// The term is no pair, so it has no components.
    NotAPair,
}

impl Node {
    /// The first component of a pair. Every other term is an error.
    pub fn car(self) -> (first: Result<Node, KernelError>)
        ensures
            first == match self {
                Node::PairNode(pair) => Ok::<Node, KernelError>(*pair.0),
                _ => Err::<Node, KernelError>(KernelError::NotAPair),
            },
    {
        match self {
            Node::PairNode(pair) => Ok(pair.car()),
            _ => Err(KernelError::NotAPair),
        }
    }

    /// The second component of a pair. Every other term is an error.
    pub fn cdr(self) -> (second: Result<Node, KernelError>)
        ensures
            second == match self {
                Node::PairNode(pair) => Ok::<Node, KernelError>(*pair.1),
                _ => Err::<Node, KernelError>(KernelError::NotAPair),
            },
    {
        match self {
            Node::PairNode(pair) => Ok(pair.cdr()),
            _ => Err(KernelError::NotAPair),
        }
    }

    /// Whether `type_of` can judge this term.
    pub fn is_typeable(&self) -> (typeable: bool)
        ensures
            typeable == self@.typeable(),
        decreases self,
    {
        match self {
            Node::PairNode(p) => (*p.0).is_typeable() && (*p.1).is_typeable(),
            Node::TypeNode(Type::Universe(n)) => *n < i64::MAX,
            _ => true,
        }
    }
}

/// The type of `node`.
pub fn type_of(node: Node) -> (ty: Type)
    requires
        node@.typeable(),
    ensures
        ty@ == node@.type_of(),
    decreases node,
{
    match node {
        Node::Atom(_) => Type::Atom,
        Node::PairNode(p) => Type::Pair(Pair(Box::new(type_of(*p.0)), Box::new(type_of(*p.1)))),
        Node::TypeNode(Type::Universe(n)) => Type::Universe(n + 1),
        Node::TypeNode(_) => Type::Universe(0),
        Node::Unit => Type::Unit,
    }
}

/// The type of a universe is the universe one level up, at every level.
pub proof fn lemma_universe_type(n: int)
    ensures
        Term::Type(Ty::Universe(n)).type_of() == Ty::Universe(n + 1),
{
}

} // verus!
