use sudoku_dimacs::literal::{Literal, DIMACS_MAX};

fn all_positions() -> Vec<(u8, u8, u8)> {
    let mut v = Vec::new();
    for n in 1..=9u8 {
        for x in 1..=9u8 {
            for y in 1..=9u8 {
                v.push((n, x, y));
            }
        }
    }
    v
}

#[test]
fn main_premier_litteral_dimacs() {
    assert_eq!(Literal(true, 1, 1, 1).to_dimacs(), 1);
}

#[test]
fn lib_premier_litteral_dimacs() {
    assert_eq!(Literal(true, 1, 1, 1).to_dimacs(), 1);
}

#[test]
fn main_collision_format_dimacs_literal() {
    let literaux: Vec<Literal> = all_positions()
        .into_iter()
        .map(|(n, x, y)| Literal(true, n, x, y))
        .collect();
    for (lit1, lit2) in literaux.iter().zip(literaux.iter().skip(1)) {
        println!("{}, {}", lit1.to_dimacs(), lit2.to_dimacs());
        assert!(lit1.to_dimacs() + 1 == lit2.to_dimacs());
    }
}

#[test]
fn lib_collision_format_dimacs_literal() {
    let literaux: Vec<Literal> = all_positions()
        .into_iter()
        .map(|(n, x, y)| Literal(true, n, x, y))
        .collect();
    for (lit1, lit2) in literaux.iter().zip(literaux.iter().skip(1)) {
        println!("{}, {}", lit1.to_dimacs(), lit2.to_dimacs());
        assert!(lit1.to_dimacs() + 1 == lit2.to_dimacs());
    }
}

#[test]
fn litteral_from_dimacs() {
    for ((n1, x1), y1) in (1..=9u8).zip(1..=9u8).zip(1..=9u8) {
        let Some(Literal(_, n2, x2, y2)) =
            Literal::from_dimacs(Literal(false, n1, x1, y1).to_dimacs())
        else {
            panic!("from_dimacs rejected a valid identifier")
        };
        println!("{n1}{x1}{y1} -> {n2}{x2}{y2}");
        assert_eq!((n1, x1, y1), (n2, x2, y2));
    }
}

#[test]
fn identifiers_cover_range_once() {
    let mut seen = vec![false; 730];
    for (n, x, y) in all_positions() {
        let id = Literal(true, n, x, y).to_dimacs();
        assert!(1 <= id && id <= DIMACS_MAX);
        assert!(!seen[id as usize]);
        seen[id as usize] = true;
    }
    assert!(seen[1..].iter().all(|b| *b));
}

#[test]
fn round_trip_both_polarities() {
    for (n, x, y) in all_positions() {
        for s in [true, false] {
            let l = Literal(s, n, x, y);
            assert_eq!(Literal::from_dimacs(l.to_dimacs()), Some(l));
        }
    }
}

#[test]
fn out_of_range_identifiers_rejected() {
    assert_eq!(Literal::from_dimacs(0), None);
    assert_eq!(Literal::from_dimacs(730), None);
    assert_eq!(Literal::from_dimacs(-730), None);
    assert_eq!(Literal::from_dimacs(i32::MIN), None);
    assert_eq!(Literal::from_dimacs(729), Some(Literal(true, 9, 9, 9)));
    assert_eq!(Literal::from_dimacs(-729), Some(Literal(false, 9, 9, 9)));
}

#[test]
fn identifier_formula_values() {
    assert_eq!(Literal(true, 5, 1, 1).to_dimacs(), 325);
    assert_eq!(Literal(false, 2, 3, 4).to_dimacs(), -(81 + 18 + 4));
    assert_eq!(Literal::from_dimacs(-103), Some(Literal(false, 2, 3, 4)));
}
