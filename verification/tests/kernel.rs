use pie_sexpr::helper::{is_same, is_same_type};
use pie_sexpr::node::Node::{Atom, PairNode, TypeNode, Unit};
use pie_sexpr::node::{type_of, KernelError, Node, Pair, Type};

#[test]
fn lib_atom_cmp() {
    assert_eq!(Atom("ratatouille"), Atom("ratatouille"));
    assert_ne!(Atom("ratatouille"), Atom("baguette"))
}

#[test]
fn lib_pair_cmp() {
    assert_eq!(
        PairNode(Pair(
            Box::new(Atom("ratatouille")),
            Box::new(Atom("ratatouille")),
        )),
        PairNode(Pair(
            Box::new(Atom("ratatouille")),
            Box::new(Atom("ratatouille")),
        ))
    );

    assert_ne!(
        PairNode(Pair(
            Box::new(Atom("ratatouille")),
            Box::new(Atom("ratatouille"))
        )),
        PairNode(Pair(
            Box::new(Atom("ratatouille")),
            Box::new(Atom("baguette")),
        ))
    );

    assert_ne!(
        PairNode(Pair(
            Box::new(Atom("ratatouille")),
            Box::new(Atom("ratatouille")),
        )),
        PairNode(Pair(
            Box::new(Atom("baguette")),
            Box::new(Atom("ratatouille")),
        ))
    );

    assert_ne!(
        PairNode(Pair(
            Box::new(Atom("ratatouille")),
            Box::new(Atom("baguette")),
        )),
        PairNode(Pair(Box::new(Atom("baguette")), Box::new(Atom("baguette")),))
    );

    assert_ne!(
        PairNode(Pair(Box::new(Atom("baguette")), Box::new(Atom("baguette")),)),
        PairNode(Pair(
            Box::new(Atom("baguette")),
            Box::new(Atom("ratatouille")),
        ))
    );
}

#[test]
fn lib_pair_cons() {
    assert_eq!(
        Pair::cons(Atom("ratatouille"), Atom("baguette")),
        Pair(Box::new(Atom("ratatouille")), Box::new(Atom("baguette")),)
    )
}

#[test]
fn lib_pair_car() {
    assert_eq!(
        Pair::car(Pair(
            Box::new(Atom("ratatouille")),
            Box::new(Atom("baguette"))
        )),
        Atom("ratatouille")
    );
}

#[test]
fn lib_pair_cdr() {
    assert_eq!(
        Pair::cdr(Pair(
            Box::new(Atom("ratatouille")),
            Box::new(Atom("baguette")),
        )),
        Atom("baguette")
    );

    assert_eq!(
        Pair::cdr(Pair(
            Box::new(Atom("ratatouille")),
            Box::new(Node::PairNode(Pair(
                Box::new(Atom("baguette")),
                Box::new(Atom("aubergine")),
            ))),
        )),
        Node::PairNode(Pair(
            Box::new(Atom("baguette")),
            Box::new(Atom("aubergine")),
        ))
    )
}

#[test]
fn lib_type_of_term() {
    assert_eq!(type_of(Atom("yo")), Type::Atom);
}

#[test]
fn node_atom_cmp() {
    assert_eq!(Atom("ratatouille"), Atom("ratatouille"));
    assert_ne!(Atom("ratatouille"), Atom("baguette"))
}

#[test]
fn node_pair_cmp() {
    assert_eq!(
        PairNode(Pair(
            Box::new(Atom("ratatouille")),
            Box::new(Atom("ratatouille")),
        )),
        PairNode(Pair(
            Box::new(Atom("ratatouille")),
            Box::new(Atom("ratatouille")),
        ))
    );

    assert_ne!(
        PairNode(Pair(
            Box::new(Atom("ratatouille")),
            Box::new(Atom("ratatouille"))
        )),
        PairNode(Pair(
            Box::new(Atom("ratatouille")),
            Box::new(Atom("baguette")),
        ))
    );

    assert_ne!(
        PairNode(Pair(
            Box::new(Atom("ratatouille")),
            Box::new(Atom("ratatouille")),
        )),
        PairNode(Pair(
            Box::new(Atom("baguette")),
            Box::new(Atom("ratatouille")),
        ))
    );

    assert_ne!(
        PairNode(Pair(
            Box::new(Atom("ratatouille")),
            Box::new(Atom("baguette")),
        )),
        PairNode(Pair(Box::new(Atom("baguette")), Box::new(Atom("baguette")),))
    );

    assert_ne!(
        PairNode(Pair(Box::new(Atom("baguette")), Box::new(Atom("baguette")),)),
        PairNode(Pair(
            Box::new(Atom("baguette")),
            Box::new(Atom("ratatouille")),
        ))
    );
}

#[test]
fn node_pair_cons() {
    assert_eq!(
        Pair::cons(Atom("ratatouille"), Atom("baguette")),
        Pair(Box::new(Atom("ratatouille")), Box::new(Atom("baguette")),)
    )
}

#[test]
fn node_pair_car() {
    assert_eq!(
        Pair::car(Pair(
            Box::new(Atom("ratatouille")),
            Box::new(Atom("baguette"))
        )),
        Atom("ratatouille")
    );
}

#[test]
fn node_pair_cdr() {
    assert_eq!(
        Pair::cdr(Pair(
            Box::new(Atom("ratatouille")),
            Box::new(Atom("baguette")),
        )),
        Atom("baguette")
    );

    assert_eq!(
        Pair::cdr(Pair(
            Box::new(Atom("ratatouille")),
            Box::new(Node::PairNode(Pair(
                Box::new(Atom("baguette")),
                Box::new(Atom("aubergine")),
            ))),
        )),
        Node::PairNode(Pair(
            Box::new(Atom("baguette")),
            Box::new(Atom("aubergine")),
        ))
    )
}

#[test]
fn node_type_of_term() {
    assert_eq!(type_of(Atom("yo")), Type::Atom);
}

fn sample_terms() -> Vec<Node> {
    vec![
        Atom("a"),
        Atom(""),
        Unit,
        TypeNode(Type::Universe(0)),
        TypeNode(Type::Universe(41)),
        TypeNode(Type::Atom),
        TypeNode(Type::Unit),
        TypeNode(Type::Pair(Pair::cons(Type::Atom, Type::Universe(3)))),
        PairNode(Pair::cons(Atom("a"), Unit)),
        PairNode(Pair::cons(
            PairNode(Pair::cons(Atom("a"), TypeNode(Type::Universe(2)))),
            Atom("b"),
        )),
    ]
}

#[test]
fn every_term_is_the_same_as_itself() {
    for term in sample_terms() {
        assert!(is_same(term.clone(), term.clone()));
        assert!(is_same_type(term.clone(), term));
    }
}

#[test]
fn different_atoms_have_the_same_type_and_are_not_the_same() {
    assert_ne!(Atom("x"), Atom("y"));
    assert!(is_same_type(Atom("x"), Atom("y")));
    assert!(!is_same(Atom("x"), Atom("y")));
}

#[test]
fn atoms_are_compared_by_their_names() {
    let name = String::from("ratatouille");
    let leaked: &'static str = Box::leak(name.into_boxed_str());
    assert_eq!(Atom(leaked), Atom("ratatouille"));
    assert!(is_same(Atom(leaked), Atom("ratatouille")));
}

#[test]
fn type_of_universe_is_the_next_universe() {
    assert_eq!(type_of(TypeNode(Type::Universe(0))), Type::Universe(1));
    assert_eq!(type_of(TypeNode(Type::Universe(7))), Type::Universe(8));
    assert_eq!(
        type_of(TypeNode(Type::Universe(i64::MAX - 1))),
        Type::Universe(i64::MAX)
    );
    assert_eq!(type_of(TypeNode(Type::Universe(-1))), Type::Universe(0));
}

#[test]
fn type_of_other_types_is_the_first_universe() {
    assert_eq!(type_of(TypeNode(Type::Atom)), Type::Universe(0));
    assert_eq!(type_of(TypeNode(Type::Unit)), Type::Universe(0));
    assert_eq!(
        type_of(TypeNode(Type::Pair(Pair::cons(Type::Atom, Type::Unit)))),
        Type::Universe(0)
    );
    assert_eq!(
        type_of(TypeNode(Type::Pair(Pair::cons(
            Type::Universe(i64::MAX),
            Type::Unit
        )))),
        Type::Universe(0)
    );
}

#[test]
fn type_of_unit_and_pair() {
    assert_eq!(type_of(Unit), Type::Unit);
    assert_eq!(
        type_of(PairNode(Pair::cons(
            Atom("a"),
            PairNode(Pair::cons(Unit, TypeNode(Type::Universe(1))))
        ))),
        Type::Pair(Pair::cons(
            Type::Atom,
            Type::Pair(Pair::cons(Type::Unit, Type::Universe(2)))
        ))
    );
}

#[test]
fn type_of_leaves_a_copy_of_its_argument_as_it_was() {
    for term in sample_terms() {
        let kept = term.clone();
        let first = type_of(term.clone());
        let second = type_of(term.clone());
        assert_eq!(term, kept);
        assert_eq!(first, second);
    }
}

#[test]
fn is_typeable_tells_the_last_universe_apart() {
    for term in sample_terms() {
        assert!(term.is_typeable());
    }
    assert!(!TypeNode(Type::Universe(i64::MAX)).is_typeable());
    assert!(!PairNode(Pair::cons(Unit, TypeNode(Type::Universe(i64::MAX)))).is_typeable());
    assert!(TypeNode(Type::Pair(Pair::cons(Type::Universe(i64::MAX), Type::Unit))).is_typeable());
}

#[test]
fn is_same_type_compares_types_only() {
    assert!(is_same_type(
        PairNode(Pair::cons(Atom("a"), Unit)),
        PairNode(Pair::cons(Atom("b"), Unit))
    ));
    assert!(!is_same_type(
        PairNode(Pair::cons(Atom("a"), Unit)),
        PairNode(Pair::cons(Unit, Atom("a")))
    ));
    assert!(is_same_type(TypeNode(Type::Atom), TypeNode(Type::Unit)));
    assert!(!is_same_type(
        TypeNode(Type::Universe(0)),
        TypeNode(Type::Universe(1))
    ));
    assert!(!is_same_type(Atom("a"), Unit));
}

#[test]
fn is_same_asks_for_the_same_term() {
    assert!(!is_same(TypeNode(Type::Atom), TypeNode(Type::Unit)));
    assert!(!is_same(
        PairNode(Pair::cons(Atom("a"), Unit)),
        PairNode(Pair::cons(Atom("b"), Unit))
    ));
    assert!(is_same(
        PairNode(Pair::cons(Atom("a"), Unit)),
        PairNode(Pair::cons(Atom("a"), Unit))
    ));
}

#[test]
fn car_and_cdr_of_a_pair_term() {
    let pair = || PairNode(Pair::cons(Atom("a"), PairNode(Pair::cons(Atom("b"), Unit))));
    assert_eq!(pair().car(), Ok(Atom("a")));
    assert_eq!(pair().cdr(), Ok(PairNode(Pair::cons(Atom("b"), Unit))));
}

#[test]
fn car_and_cdr_of_what_is_no_pair() {
    assert_eq!(Atom("a").car(), Err(KernelError::NotAPair));
    assert_eq!(Atom("a").cdr(), Err(KernelError::NotAPair));
    assert_eq!(Unit.car(), Err(KernelError::NotAPair));
    assert_eq!(Unit.cdr(), Err(KernelError::NotAPair));
    assert_eq!(TypeNode(Type::Universe(0)).car(), Err(KernelError::NotAPair));
    assert_eq!(TypeNode(Type::Universe(0)).cdr(), Err(KernelError::NotAPair));
    assert_eq!(
        TypeNode(Type::Pair(Pair::cons(Type::Atom, Type::Atom))).car(),
        Err(KernelError::NotAPair)
    );
}

#[test]
fn types_are_compared_by_their_parts() {
    assert_eq!(Type::Universe(3), Type::Universe(3));
    assert_ne!(Type::Universe(3), Type::Universe(4));
    assert_ne!(Type::Atom, Type::Unit);
    assert_eq!(
        Type::Pair(Pair::cons(Type::Atom, Type::Unit)),
        Type::Pair(Pair::cons(Type::Atom, Type::Unit))
    );
    assert_ne!(
        Type::Pair(Pair::cons(Type::Atom, Type::Unit)),
        Type::Pair(Pair::cons(Type::Unit, Type::Atom))
    );
}
