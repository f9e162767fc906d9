use sudoku_dimacs::clause::Clause;
use sudoku_dimacs::literal::Literal;

#[test]
fn clause_nb_fini_elem() {
    let clause1 = Clause::from([(true, 1, 1, 1), (false, 2, 2, 3)]);
    let clause2 = Clause(vec![Literal(true, 1, 1, 1), Literal(false, 2, 2, 3)]);
    assert_eq!(clause1, clause2);
}

#[test]
fn clause_from_iter() {
    let clause1 =
        Clause::from_tuples(&(1..=3).map(|y| (true, 1, 1, y)).collect::<Vec<(bool, u8, u8, u8)>>());
    let clause2 = Clause(vec![
        Literal(true, 1, 1, 1),
        Literal(true, 1, 1, 2),
        Literal(true, 1, 1, 3),
    ]);
    assert_eq!(clause1, clause2);
}

#[test]
fn clause_from_iter_nb_fini() {
    let clause1 = Clause::from_pairs(
        &(1..=3)
            .map(|y| [(true, 1, 1, y), (false, 1, 1, y)])
            .collect::<Vec<[(bool, u8, u8, u8); 2]>>(),
    );
    let clause2 = Clause(vec![
        Literal(true, 1, 1, 1),
        Literal(false, 1, 1, 1),
        Literal(true, 1, 1, 2),
        Literal(false, 1, 1, 2),
        Literal(true, 1, 1, 3),
        Literal(false, 1, 1, 3),
    ]);
    assert_eq!(clause1, clause2);
}

#[test]
fn clauses_differ_by_order() {
    let a = Clause::from([(true, 1, 1, 1), (false, 2, 2, 3)]);
    let b = Clause::from([(false, 2, 2, 3), (true, 1, 1, 1)]);
    assert_ne!(a, b);
    assert_ne!(a, Clause::from([(true, 1, 1, 1)]));
}

#[test]
fn dimacs_line_rendering() {
    let c = Clause::from([(true, 5, 1, 1)]);
    assert_eq!(c.to_dimacs_line(), "325 0\n");
    let c = Clause::from([(false, 1, 1, 1), (false, 9, 9, 9), (true, 2, 3, 4)]);
    assert_eq!(c.to_dimacs_line(), "-1 -729 103 0\n");
}

#[test]
fn debug_rendering() {
    assert_eq!(Clause::from([(false, 1, 2, 3)]).debug_text(), "-123");
    assert_eq!(Clause::from([(true, 1, 2, 3)]).debug_text(), "123");
    let c = Clause::from([(true, 1, 1, 1), (false, 2, 2, 3), (true, 9, 8, 7)]);
    assert_eq!(c.debug_text(), "(111 - 223 + 987)");
}
