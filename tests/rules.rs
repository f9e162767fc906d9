use sudoku_dimacs::clause::Clause;
use sudoku_dimacs::rules::{exactly_one_clauses, rule_clauses, RULE_CLAUSE_COUNT};

#[test]
fn single_cell_family_sizes() {
    let group: [(u8, u8, u8); 9] = [
        (1, 1, 1),
        (2, 1, 1),
        (3, 1, 1),
        (4, 1, 1),
        (5, 1, 1),
        (6, 1, 1),
        (7, 1, 1),
        (8, 1, 1),
        (9, 1, 1),
    ];
    let clauses = exactly_one_clauses(&group);
    assert_eq!(clauses.len(), 37);
    assert_eq!(clauses[0].0.len(), 9);
    assert_eq!(clauses[0].to_dimacs_line(), "1 82 163 244 325 406 487 568 649 0\n");
    assert_eq!(clauses[1], Clause::from([(false, 1, 1, 1), (false, 2, 1, 1)]));
    assert_eq!(clauses[36], Clause::from([(false, 8, 1, 1), (false, 9, 1, 1)]));
    assert!(clauses[1..].iter().all(|c| c.0.len() == 2 && !c.0[0].0 && !c.0[1].0));
}

#[test]
fn rule_clause_total_is_fixed() {
    let rules = rule_clauses();
    assert_eq!(rules.len(), RULE_CLAUSE_COUNT);
    assert_eq!(rules.len(), 14904);
    // every identifier stays on the board
    for c in rules.iter() {
        for l in c.0.iter() {
            let id = l.to_dimacs().abs();
            assert!(1 <= id && id <= 729);
        }
    }
    // 4 * 81 at-least-one clauses of nine positive literals
    let alo = rules.iter().filter(|c| c.0.len() == 9 && c.0.iter().all(|l| l.0)).count();
    assert_eq!(alo, 324);
}

#[test]
fn rule_families_in_order() {
    let rules = rule_clauses();
    // first group: the cell at column 1, row 1
    assert_eq!(rules[0].to_dimacs_line(), "1 82 163 244 325 406 487 568 649 0\n");
    // column family: column 1, digit 1, rows 1 to 9
    assert_eq!(rules[81 * 37].to_dimacs_line(), "1 2 3 4 5 6 7 8 9 0\n");
    // row family: row 1, digit 1, columns 1 to 9
    assert_eq!(rules[2 * 81 * 37].to_dimacs_line(), "1 10 19 28 37 46 55 64 73 0\n");
    // box family: digit 1, top-left box, row by row
    assert_eq!(rules[3 * 81 * 37].to_dimacs_line(), "1 10 19 2 11 20 3 12 21 0\n");
    // redundant family: first cell of the top-left box, digits 1 and 2
    assert_eq!(rules[4 * 81 * 37].to_dimacs_line(), "-1 -82 0\n");
    assert_eq!(rules[rules.len() - 1].to_dimacs_line(), "-648 -729 0\n");
}
