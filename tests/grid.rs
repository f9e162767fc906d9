use sudoku_dimacs::clause::Clause;
use sudoku_dimacs::grid::Grille;

// A valid grid chosen arbitrarily.
const GRILLE_VALIDE: Grille = Grille([
    [Some(4), Some(1), Some(9), Some(2), Some(7), Some(6), Some(8), Some(5), Some(3)],
    [Some(6), Some(3), Some(8), Some(1), Some(9), Some(5), Some(2), Some(4), Some(7)],
    [Some(7), Some(5), Some(2), Some(4), Some(3), Some(8), Some(9), Some(6), Some(1)],
    [Some(3), Some(2), Some(7), Some(6), Some(1), Some(4), Some(5), Some(8), Some(9)],
    [Some(8), Some(6), Some(1), Some(9), Some(5), Some(2), Some(7), Some(3), Some(4)],
    [Some(9), Some(4), Some(5), Some(3), Some(8), Some(7), Some(1), Some(2), Some(6)],
    [Some(2), Some(7), Some(3), Some(8), Some(4), Some(1), Some(6), Some(9), Some(5)],
    [Some(5), Some(9), Some(6), Some(7), Some(2), Some(3), Some(4), Some(1), Some(8)],
    [Some(1), Some(8), Some(4), Some(5), Some(6), Some(9), Some(3), Some(7), Some(2)],
]);

const TEXTE_VALIDE: &str = "+-----+-----+-----+
|4 1 9|2 7 6|8 5 3|
|6 3 8|1 9 5|2 4 7|
|7 5 2|4 3 8|9 6 1|
+-----+-----+-----+
|3 2 7|6 1 4|5 8 9|
|8 6 1|9 5 2|7 3 4|
|9 4 5|3 8 7|1 2 6|
+-----+-----+-----+
|2 7 3|8 4 1|6 9 5|
|5 9 6|7 2 3|4 1 8|
|1 8 4|5 6 9|3 7 2|
+-----+-----+-----+
";

#[test]
fn grille_arbitraire_valide() {
    assert!(GRILLE_VALIDE.is_valid());
}

#[test]
fn grille_non_valide_case_vide() {
    let mut grille = GRILLE_VALIDE;
    grille.0[0][0] = None;
    assert!(!grille.is_valid());
}

#[test]
fn grille_non_valide_chiffre_double() {
    let mut grille = GRILLE_VALIDE;
    grille.set_cell(5, 1, 1);
    assert!(!grille.is_valid());
}

#[test]
fn clearing_any_cell_invalidates() {
    for x in 1..=9 {
        for y in 1..=9 {
            let mut grille = GRILLE_VALIDE;
            grille.0[y - 1][x - 1] = None;
            assert!(!grille.is_valid());
        }
    }
}

#[test]
fn repeating_in_column_or_box_invalidates() {
    // column 1 holds 6 at row 2
    let mut g = GRILLE_VALIDE;
    g.set_cell(6, 1, 9);
    assert!(!g.is_valid());
    // the top-left box holds 2 at column 3, row 3
    let mut g = GRILLE_VALIDE;
    g.set_cell(2, 1, 1);
    assert!(!g.is_valid());
    // writing the digit already there keeps the grid valid
    let mut g = GRILLE_VALIDE;
    g.set_cell(4, 1, 1);
    assert!(g.is_valid());
}

#[test]
fn accessors_are_one_based() {
    let g = GRILLE_VALIDE;
    assert_eq!(g.get_cell(1, 1), Some(4));
    assert_eq!(g.get_cell(9, 1), Some(3));
    assert_eq!(g.get_cell(1, 9), Some(1));
    assert_eq!(g.get_line(2), GRILLE_VALIDE.0[1]);
    assert_eq!(
        g.get_collumn(1),
        [Some(4), Some(6), Some(7), Some(3), Some(8), Some(9), Some(2), Some(5), Some(1)]
    );
    assert_eq!(
        g.get_region(2, 1),
        [Some(2), Some(7), Some(6), Some(1), Some(9), Some(5), Some(4), Some(3), Some(8)]
    );
    assert_eq!(
        g.get_region(3, 3),
        [Some(6), Some(9), Some(5), Some(4), Some(1), Some(8), Some(3), Some(7), Some(2)]
    );
}

#[test]
fn empty_grid_is_invalid_and_has_no_givens() {
    let g = Grille::new();
    assert!(!g.is_valid());
    assert_eq!(g.get_cell(5, 5), None);
    assert!(g.get_litteraux().is_empty());
}

#[test]
fn single_given_gives_one_unit_clause() {
    let mut g = Grille::new();
    g.set_cell(5, 1, 1);
    let givens = g.get_litteraux();
    assert_eq!(givens.len(), 1);
    assert_eq!(givens[0], Clause::from([(true, 5, 1, 1)]));
    assert_eq!(givens[0].to_dimacs_line(), "325 0\n");
}

#[test]
fn givens_in_column_order() {
    let mut g = Grille::new();
    g.set_cell(7, 2, 1);
    g.set_cell(3, 1, 4);
    let givens = g.get_litteraux();
    assert_eq!(givens.len(), 2);
    assert_eq!(givens[0], Clause::from([(true, 3, 1, 4)]));
    assert_eq!(givens[1], Clause::from([(true, 7, 2, 1)]));
    assert_eq!(GRILLE_VALIDE.get_litteraux().len(), 81);
}

#[test]
fn text_rendering() {
    assert_eq!(GRILLE_VALIDE.to_text(), TEXTE_VALIDE);
    let mut g = Grille::new();
    g.set_cell(5, 1, 1);
    let text = g.to_text();
    assert!(text.starts_with("+-----+-----+-----+\n|5    |     |     |\n"));
}
