use sudoku_dimacs::decode::{is_white_space, parse_word};
use sudoku_dimacs::grid::Grille;
use sudoku_dimacs::literal::Literal;

fn model_of(g: &Grille) -> String {
    let mut ids = Vec::new();
    for n in 1..=9u8 {
        for x in 1..=9u8 {
            for y in 1..=9u8 {
                let present = g.get_cell(x as usize, y as usize) == Some(n);
                ids.push(Literal(present, n, x, y).to_dimacs().to_string());
            }
        }
    }
    ids.push("0".to_string());
    ids.join(" ")
}

const RESOLUE: [[u8; 9]; 9] = [
    [4, 1, 9, 2, 7, 6, 8, 5, 3],
    [6, 3, 8, 1, 9, 5, 2, 4, 7],
    [7, 5, 2, 4, 3, 8, 9, 6, 1],
    [3, 2, 7, 6, 1, 4, 5, 8, 9],
    [8, 6, 1, 9, 5, 2, 7, 3, 4],
    [9, 4, 5, 3, 8, 7, 1, 2, 6],
    [2, 7, 3, 8, 4, 1, 6, 9, 5],
    [5, 9, 6, 7, 2, 3, 4, 1, 8],
    [1, 8, 4, 5, 6, 9, 3, 7, 2],
];

fn solved() -> Grille {
    Grille(RESOLUE.map(|row| row.map(Some)))
}

#[test]
fn parse_word_values() {
    let w = |s: &str| s.chars().collect::<Vec<char>>();
    assert_eq!(parse_word(&w("325")), Some(325));
    assert_eq!(parse_word(&w("-12")), Some(-12));
    assert_eq!(parse_word(&w("+7")), Some(7));
    assert_eq!(parse_word(&w("0")), Some(0));
    assert_eq!(parse_word(&w("-2147483648")), Some(i32::MIN));
    assert_eq!(parse_word(&w("2147483647")), Some(i32::MAX));
    assert_eq!(parse_word(&w("2147483648")), None);
    assert_eq!(parse_word(&w("99999999999")), None);
    assert_eq!(parse_word(&w("")), None);
    assert_eq!(parse_word(&w("-")), None);
    assert_eq!(parse_word(&w("1a")), None);
    assert_eq!(parse_word(&w("+-1")), None);
}

#[test]
fn decoding_complete_model_gives_solution() {
    let g = Grille::from_dimacs(&model_of(&solved())).expect("no conflict");
    assert!(g.is_valid());
    assert_eq!(g.to_text(), solved().to_text());
}

#[test]
fn decoding_conflicting_model() {
    assert!(Grille::from_dimacs("1 2 -3 0").is_some());
    // digits 1 and 2 both at column 1, row 1
    assert!(Grille::from_dimacs("1 82 0").is_none());
    assert!(Grille::from_dimacs("\t1\n\n  1   0 ").is_none());
}

#[test]
fn decoding_skips_noise() {
    let g = Grille::from_dimacs("v 325 abc -1 730 0 -730 +650").expect("no conflict");
    assert_eq!(g.get_cell(1, 1), Some(5));
    assert_eq!(g.get_cell(1, 2), Some(9));
    assert_eq!(g.get_cell(2, 1), None);
    let g = Grille::from_dimacs("").expect("empty model");
    assert_eq!(g.get_cell(1, 1), None);
}

#[test]
fn white_space_matches_std() {
    for u in 0..=0x10FFFFu32 {
        if let Some(c) = char::from_u32(u) {
            assert_eq!(is_white_space(c), c.is_whitespace(), "{u:x}");
        }
    }
}

#[test]
fn unicode_separators_split_words() {
    assert!(Grille::from_dimacs("1\u{3000}82").is_none());
    assert!(Grille::from_dimacs("1\u{85}2").is_some());
    assert!(Grille::from_dimacs("1\u{2}82").is_some());
}
