//! Reading a puzzle from its bordered text form.
use vstd::prelude::*;
use crate::grid::{GridModel, Grille};
use crate::text::{lines_view, split_lines, text_lines};

verus! {

/// Why a puzzle text could not be read.
#[derive(Debug, Clone, Copy, PartialEq, Eq, Structural)]
pub enum GrilleParseError {
    /// The grid line with this number (from 1, counting only the lines
    /// that start with `|`) does not hold exactly nine cells.
    ImpossibleParserLigne(usize),
    /// The text does not hold exactly nine grid lines.
    FormatInvalide,
}

/// A cell character: a digit 1 to 9, anything else being an empty cell.
pub open spec fn cell_of_char(c: char) -> Option<u8> {
    if '1' <= c <= '9' {
        Some((c as int - '0' as int) as u8)
    } else {
        None
    }
}

/// The characters at odd positions of a line: where the cells stand, the
/// borders and separators standing at even ones.
pub open spec fn odd_chars(l: Seq<char>) -> Seq<char> {
    Seq::new(l.len() / 2, |i: int| l[2 * i + 1])
}

/// The cells of a grid line, if it holds exactly nine.
pub open spec fn parse_row(l: Seq<char>) -> Option<Seq<Option<u8>>> {
    if odd_chars(l).len() == 9 {
        Some(odd_chars(l).map_values(|c: char| cell_of_char(c)))
    } else {
        None
    }
}

/// Grid lines start with `|`; other lines (borders, comments) are skipped.
pub open spec fn is_grid_line(l: Seq<char>) -> bool {
    l.len() > 0 && l[0] == '|'
}

/// The rows read from a sequence of lines, or the error of the first grid
/// line that does not hold nine cells.
pub open spec fn parse_rows(ls: Seq<Seq<char>>) -> Result<Seq<Seq<Option<u8>>>, GrilleParseError>
    decreases ls.len(),
{
    if ls.len() == 0 {
        Ok(Seq::empty())
    } else {
        match parse_rows(ls.drop_last()) {
            Err(e) => Err(e),
            Ok(rows) => if !is_grid_line(ls.last()) {
                Ok(rows)
            } else {
                match parse_row(ls.last()) {
                    Some(r) => Ok(rows.push(r)),
                    None => Err(GrilleParseError::ImpossibleParserLigne((rows.len() + 1) as usize)),
                }
            },
        }
    }
}

/// The grid a puzzle text describes: its grid lines must all hold nine
/// cells, and there must be nine of them.
pub open spec fn parse_grid_text(s: Seq<char>) -> Result<GridModel, GrilleParseError> {
    match parse_rows(text_lines(s)) {
        Err(e) => Err(e),
        Ok(rows) => if rows.len() == 9 {
            Ok(rows)
        } else {
            Err(GrilleParseError::FormatInvalide)
        },
    }
}

/// Once a prefix of the lines fails, the whole sequence fails the same way.
proof fn lemma_parse_rows_error_kept(ls: Seq<Seq<char>>, k: int)
    requires
        0 <= k <= ls.len(),
        parse_rows(ls.take(k)) is Err,
    ensures
        parse_rows(ls) == parse_rows(ls.take(k)),
    decreases ls.len(),
{
    if k == ls.len() {
        assert(ls.take(k) =~= ls);
    } else {
        assert(ls.drop_last().take(k) =~= ls.take(k));
        lemma_parse_rows_error_kept(ls.drop_last(), k);
    }
}

/// The cell a character stands for.
fn char_to_cell(c: char) -> (r: Option<u8>)
    ensures
        r == cell_of_char(c),
{
    if '1' <= c && c <= '9' {
        Some((c as u32 - '0' as u32) as u8)
    } else {
        None
    }
}

/// The cells of a grid line, if it holds exactly nine (see `parse_row`).
fn read_row(l: &Vec<char>) -> (r: Option<[Option<u8>; 9]>)
    ensures
        match r {
            Some(a) => parse_row(l@) == Some(a@),
            None => parse_row(l@) is None,
        },
{
    if l.len() / 2 != 9 {
        return None;
    }
    let mut a: [Option<u8>; 9] = [None; 9];
    for i in 0..9usize
        invariant
            l@.len() / 2 == 9,
            forall|j: int| 0 <= j < i ==> a@[j] == cell_of_char(#[trigger] l@[2 * j + 1]),
    {
        a[i] = char_to_cell(l[2 * i + 1]);
    }
    proof {
        assert(a@ =~= odd_chars(l@).map_values(|c: char| cell_of_char(c)));
    }
    Some(a)
}

impl Grille {
    /// Reads a puzzle in bordered text form: the lines starting with `|`
    /// are its rows, a digit 1 to 9 at each odd position giving a cell and
    /// anything else there an empty cell.
    pub fn from_text(input: &str) -> (r: Result<Grille, GrilleParseError>)
        ensures
            match r {
                Ok(g) => parse_grid_text(input@) == Ok::<GridModel, GrilleParseError>(g@),
                Err(e) => parse_grid_text(input@) == Err::<GridModel, GrilleParseError>(e),
            },
    {
        let lines = split_lines(input);
        let ghost ls = lines_view(lines@);
        let mut rows: Vec<[Option<u8>; 9]> = Vec::new();
        proof {
            assert(ls.take(0) =~= Seq::<Seq<char>>::empty());
            assert(rows@.map_values(|a: [Option<u8>; 9]| a@) =~= Seq::<Seq<Option<u8>>>::empty());
        }
        for k in 0..lines.len()
            invariant
                ls == lines_view(lines@),
                ls == text_lines(input@),
                ls.len() == lines@.len(),
                rows@.len() <= k,
                parse_rows(ls.take(k as int)) == Ok::<Seq<Seq<Option<u8>>>, GrilleParseError>(
                    rows@.map_values(|a: [Option<u8>; 9]| a@),
                ),
        {
            proof {
                assert(ls.take(k + 1).drop_last() =~= ls.take(k as int));
                assert(ls.take(k + 1).last() == lines@[k as int]@);
            }
            let l = &lines[k];
            if l.len() > 0 && l[0] == '|' {
                match read_row(l) {
                    Some(a) => {
                        let ghost before = rows@;
                        rows.push(a);
                        proof {
                            assert(rows@.map_values(|a: [Option<u8>; 9]| a@) =~= before.map_values(
                                |a: [Option<u8>; 9]| a@,
                            ).push(a@));
                        }
                    },
                    None => {
                        proof {
                            let ghost pre = ls.take(k + 1);
                            assert(is_grid_line(pre.last()));
                            assert(parse_row(pre.last()) is None);
                            assert(parse_rows(pre) == Err::<Seq<Seq<Option<u8>>>, GrilleParseError>(
                                GrilleParseError::ImpossibleParserLigne((rows@.len() + 1) as usize),
                            ));
                            lemma_parse_rows_error_kept(ls, k + 1);
                        }
                        return Err(GrilleParseError::ImpossibleParserLigne(rows.len() + 1));
                    },
                }
            }
        }
        proof {
            assert(ls.take(lines@.len() as int) =~= ls);
        }
        if rows.len() != 9 {
            return Err(GrilleParseError::FormatInvalide);
        }
        let g = Grille(
            [rows[0], rows[1], rows[2], rows[3], rows[4], rows[5], rows[6], rows[7], rows[8]],
        );
        proof {
            assert(g@ =~= rows@.map_values(|a: [Option<u8>; 9]| a@));
        }
        Ok(g)
    }
}

impl std::str::FromStr for Grille {
    type Err = GrilleParseError;

    fn from_str(input: &str) -> Result<Grille, GrilleParseError> {
        Grille::from_text(input)
    }
}

} // verus!
