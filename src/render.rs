//! The bordered text form of a grid.
use vstd::prelude::*;
use crate::grid::{cell, coord, GridModel, Grille};
use crate::text::{digit_char, digit_to_char, string_from_chars};

verus! {

/// The line `+-----+-----+-----+` and its newline, drawn between bands of
/// three rows.
pub open spec fn border() -> Seq<char> {
    seq![
        '+', '-', '-', '-', '-', '-', '+', '-', '-', '-', '-', '-', '+', '-', '-', '-', '-', '-',
        '+', '\n',
    ]
}

/// A cell as one character: its digit, or a space when empty (or when it
/// holds no decimal digit).
pub open spec fn cell_char(c: Option<u8>) -> char {
    match c {
        Some(n) => if n < 10 {
            digit_char(n as int)
        } else {
            ' '
        },
        None => ' ',
    }
}

/// The first `k` cells of row `y`, each followed by `|` at the end of a
/// box and by a space otherwise.
pub open spec fn row_cells_text(m: GridModel, y: int, k: nat) -> Seq<char>
    decreases k,
{
    if k == 0 {
        Seq::empty()
    } else {
        row_cells_text(m, y, (k - 1) as nat) + seq![
            cell_char(cell(m, k as int, y)),
            if k % 3 == 0 {
                '|'
            } else {
                ' '
            },
        ]
    }
}

/// Row `y` as text, followed by a border after every third row.
pub open spec fn row_text(m: GridModel, y: int) -> Seq<char> {
    seq!['|'] + row_cells_text(m, y, 9) + seq!['\n'] + if y % 3 == 0 {
        border()
    } else {
        Seq::empty()
    }
}

/// The first `k` rows as text.
pub open spec fn rows_text(m: GridModel, k: nat) -> Seq<char>
    decreases k,
{
    if k == 0 {
        Seq::empty()
    } else {
        rows_text(m, (k - 1) as nat) + row_text(m, k as int)
    }
}

/// The whole grid as text: a border, then the nine rows.
pub open spec fn grid_text(m: GridModel) -> Seq<char> {
    border() + rows_text(m, 9)
}

/// Appends a border line.
fn push_border(out: &mut Vec<char>)
    ensures
        final(out)@ == old(out)@ + border(),
{
    for b in 0..3usize
        invariant
            out@ == old(out)@ + border().take(6 * b as int),
    {
        out.push('+');
        out.push('-');
        out.push('-');
        out.push('-');
        out.push('-');
        out.push('-');
        proof {
            assert(out@ =~= old(out)@ + border().take(6 * b + 6));
        }
    }
    out.push('+');
    out.push('\n');
    proof {
        assert(out@ =~= old(out)@ + border());
    }
}

/// The character that stands for a cell.
fn cell_to_char(c: Option<u8>) -> (r: char)
    ensures
        r == cell_char(c),
{
    match c {
        Some(n) => if n < 10 {
            digit_to_char(n as u32)
        } else {
            ' '
        },
        None => ' ',
    }
}

impl Grille {
    /// The grid as bordered text: `+-----+-----+-----+` lines around each
    /// band of three rows, `|` around each box, cells separated by a space,
    /// an empty cell drawn as a space.
    pub fn to_text(&self) -> (r: String)
        ensures
            r@ == grid_text(self@),
    {
        let mut out: Vec<char> = Vec::new();
        push_border(&mut out);
        let ghost head = out@;
        for y in 1..10usize
            invariant
                out@ == head + rows_text(self@, (y - 1) as nat),
        {
            let ghost before = out@;
            out.push('|');
            for x in 1..10usize
                invariant
                    coord(y),
                    out@ == before + seq!['|'] + row_cells_text(self@, y as int, (x - 1) as nat),
            {
                out.push(cell_to_char(self.get_cell(x, y)));
                if x % 3 == 0 {
                    out.push('|');
                } else {
                    out.push(' ');
                }
                proof {
                    assert(out@ =~= before + seq!['|'] + row_cells_text(self@, y as int, x as nat));
                }
            }
            out.push('\n');
            if y % 3 == 0 {
                push_border(&mut out);
            }
            proof {
                assert(out@ =~= before + row_text(self@, y as int));
                assert(out@ =~= head + rows_text(self@, y as nat));
            }
        }
        proof {
            assert(out@ =~= grid_text(self@));
        }
        string_from_chars(&out)
    }
}

} // verus!
