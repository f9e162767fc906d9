//! The 9x9 Sudoku grid: cell access, groups and the validity check.
use vstd::prelude::*;
use crate::clause::Clause;
use crate::literal::Literal;

verus! {

/// A grid as a sequence of 9 rows of 9 optional digits, top row first.
pub type GridModel = Seq<Seq<Option<u8>>>;

/// The grid with every cell empty.
pub open spec fn empty_grid() -> GridModel {
    Seq::new(9, |y: int| Seq::new(9, |x: int| None))
}

/// The cell at column `x`, row `y`, both counted from 1.
pub open spec fn cell(m: GridModel, x: int, y: int) -> Option<u8> {
    m[y - 1][x - 1]
}

/// The grid with the cell at column `x`, row `y` replaced by `v`.
pub open spec fn with_cell(m: GridModel, x: int, y: int, v: Option<u8>) -> GridModel {
    m.update(y - 1, m[y - 1].update(x - 1, v))
}

/// Row `n`, left to right.
pub open spec fn line(m: GridModel, n: int) -> Seq<Option<u8>> {
    Seq::new(9, |i: int| cell(m, i + 1, n))
}

/// Column `n`, top to bottom.
pub open spec fn column(m: GridModel, n: int) -> Seq<Option<u8>> {
    Seq::new(9, |i: int| cell(m, n, i + 1))
}

/// Column of the `k`-th cell (from 0, row by row) of box (`bx`, `by`).
pub open spec fn region_x(bx: int, k: int) -> int {
    3 * (bx - 1) + k % 3 + 1
}

/// Row of the `k`-th cell (from 0, row by row) of box (`bx`, `by`).
pub open spec fn region_y(by: int, k: int) -> int {
    3 * (by - 1) + k / 3 + 1
}

/// The 3x3 box in box column `bx` and box row `by` (each 1 to 3), row by
/// row.
pub open spec fn region(m: GridModel, bx: int, by: int) -> Seq<Option<u8>> {
    Seq::new(9, |k: int| cell(m, region_x(bx, k), region_y(by, k)))
}

/// A group is complete (no empty cell) and holds no digit twice.
pub open spec fn group_ok(s: Seq<Option<u8>>) -> bool {
    &&& forall|i: int| 0 <= i < s.len() ==> (#[trigger] s[i]) is Some
    &&& forall|i: int, j: int| 0 <= i < j < s.len() ==> #[trigger] s[i] != #[trigger] s[j]
}

/// A solved Sudoku: every row, column and box is complete and without
/// repeated digit.
pub open spec fn valid_grid(m: GridModel) -> bool {
    &&& forall|n: int| 1 <= n <= 9 ==> group_ok(#[trigger] line(m, n))
    &&& forall|n: int| 1 <= n <= 9 ==> group_ok(#[trigger] column(m, n))
    &&& forall|bx: int, by: int|
        1 <= bx <= 3 && 1 <= by <= 3 ==> group_ok(#[trigger] region(m, bx, by))
}

/// Column of the `j`-th cell (from 0) in the order column by column, each
/// column top to bottom.
pub open spec fn scan_x(j: int) -> int {
    j / 9 + 1
}

/// Row of the `j`-th cell in that order.
pub open spec fn scan_y(j: int) -> int {
    j % 9 + 1
}

/// The unit clauses of the `j`-th cell in that order: one positive literal
/// if it holds a digit, none if it is empty.
pub open spec fn given_at(m: GridModel, j: int) -> Seq<Seq<Literal>> {
    match cell(m, scan_x(j), scan_y(j)) {
        Some(n) => seq![seq![Literal(true, n, scan_x(j) as u8, scan_y(j) as u8)]],
        None => Seq::empty(),
    }
}

/// The unit clauses of the first `k` cells in that order.
pub open spec fn given_clauses_upto(m: GridModel, k: nat) -> Seq<Seq<Literal>>
    decreases k,
{
    if k == 0 {
        Seq::empty()
    } else {
        given_clauses_upto(m, (k - 1) as nat) + given_at(m, k - 1)
    }
}

/// The unit clauses that fix the digits present in a grid.
pub open spec fn given_clauses(m: GridModel) -> Seq<Seq<Literal>> {
    given_clauses_upto(m, 81)
}

/// The literals of each clause of a sequence.
pub open spec fn clauses_view(s: Seq<Clause>) -> Seq<Seq<Literal>> {
    s.map_values(|c: Clause| c@)
}

/// The Sudoku grid, `0[y - 1][x - 1]` being the cell at column `x`, row `y`.
pub struct Grille(pub [[Option<u8>; 9]; 9]);

impl View for Grille {
    type V = GridModel;

    open spec fn view(&self) -> GridModel {
        self.0@.map_values(|r: [Option<u8>; 9]| r@)
    }
}

/// A board coordinate used by the public accessors: 1 to 9.
pub open spec fn coord(v: usize) -> bool {
    1 <= v <= 9
}

impl Grille {
    /// The empty grid.
    pub fn new() -> (r: Self)
        ensures
            r@ == empty_grid(),
    {
        let ligne: [Option<u8>; 9] = [None; 9];
        let r = Grille([ligne; 9]);
        proof {
            assert(ligne@ =~= Seq::new(9, |x: int| None::<u8>));
            assert forall|y: int| 0 <= y < 9 implies r@[y] == empty_grid()[y] by {
                assert(r.0@[y] == ligne);
            }
            assert(r@ =~= empty_grid());
        }
        r
    }

    /// The cell at column `x`, row `y`.
    pub fn get_cell(&self, x: usize, y: usize) -> (r: Option<u8>)
        requires
            coord(x),
            coord(y),
        ensures
            r == cell(self@, x as int, y as int),
    {
        self.0[y - 1][x - 1]
    }

    /// Writes `value` in the cell at column `x`, row `y`.
    pub fn set_cell(&mut self, value: u8, x: usize, y: usize)
        requires
            coord(x),
            coord(y),
        ensures
            final(self)@ == with_cell(old(self)@, x as int, y as int, Some(value)),
    {
        let mut ligne = self.0[y - 1];
        ligne[x - 1] = Some(value);
        self.0[y - 1] = ligne;
        proof {
            assert(self@ =~= with_cell(old(self)@, x as int, y as int, Some(value)));
        }
    }

    /// Row `line_number`, left to right.
    pub fn get_line(&self, line_number: usize) -> (r: [Option<u8>; 9])
        requires
            coord(line_number),
        ensures
            r@ == line(self@, line_number as int),
    {
        let r = self.0[line_number - 1];
        proof {
            assert(r@ =~= line(self@, line_number as int));
        }
        r
    }

    /// Column `collumn_number`, top to bottom.
    pub fn get_collumn(&self, collumn_number: usize) -> (r: [Option<u8>; 9])
        requires
            coord(collumn_number),
        ensures
            r@ == column(self@, collumn_number as int),
    {
        let mut r: [Option<u8>; 9] = [None; 9];
        for i in 0..9
            invariant
                coord(collumn_number),
                forall|k: int| 0 <= k < i ==> r@[k] == cell(self@, collumn_number as int, k + 1),
        {
            r[i] = self.0[i][collumn_number - 1];
        }
        proof {
            assert(r@ =~= column(self@, collumn_number as int));
        }
        r
    }

    /// The box in box column `pos_x` and box row `pos_y` (each 1 to 3),
    /// row by row.
    pub fn get_region(&self, pos_x: usize, pos_y: usize) -> (r: [Option<u8>; 9])
        requires
            1 <= pos_x <= 3,
            1 <= pos_y <= 3,
        ensures
            r@ == region(self@, pos_x as int, pos_y as int),
    {
        let mut r: [Option<u8>; 9] = [None; 9];
        for k in 0..9
            invariant
                1 <= pos_x <= 3,
                1 <= pos_y <= 3,
                forall|j: int|
                    0 <= j < k ==> r@[j] == cell(
                        self@,
                        region_x(pos_x as int, j),
                        region_y(pos_y as int, j),
                    ),
        {
            r[k] = self.0[3 * (pos_y - 1) + k / 3][3 * (pos_x - 1) + k % 3];
        }
        proof {
            assert(r@ =~= region(self@, pos_x as int, pos_y as int));
        }
        r
    }

    /// Whether the grid is a solved Sudoku: every row, column and box is
    /// complete and holds no digit twice.
    pub fn is_valid(&self) -> (r: bool)
        ensures
            r == valid_grid(self@),
    {
        for n in 1..10
            invariant
                forall|j: int| 1 <= j < n ==> group_ok(#[trigger] line(self@, j)),
                forall|j: int| 1 <= j < n ==> group_ok(#[trigger] column(self@, j)),
        {
            if !valid_group(&self.get_line(n)) {
                return false;
            }
            if !valid_group(&self.get_collumn(n)) {
                return false;
            }
        }
        for by in 1..4
            invariant
                forall|j: int| 1 <= j <= 9 ==> group_ok(#[trigger] line(self@, j)),
                forall|j: int| 1 <= j <= 9 ==> group_ok(#[trigger] column(self@, j)),
                forall|i: int, j: int|
                    1 <= i <= 3 && 1 <= j < by ==> group_ok(#[trigger] region(self@, i, j)),
        {
            for bx in 1..4
                invariant
                    1 <= by <= 3,
                    forall|j: int| 1 <= j <= 9 ==> group_ok(#[trigger] line(self@, j)),
                    forall|j: int| 1 <= j <= 9 ==> group_ok(#[trigger] column(self@, j)),
                    forall|i: int, j: int|
                        1 <= i <= 3 && 1 <= j < by ==> group_ok(#[trigger] region(self@, i, j)),
                    forall|i: int| 1 <= i < bx ==> group_ok(#[trigger] region(self@, i, by as int)),
            {
                if !valid_group(&self.get_region(bx, by)) {
                    return false;
                }
            }
        }
        true
    }
}

impl Grille {
    /// One unit clause per occupied cell, fixing its digit, the cells taken
    /// column by column, each column top to bottom.
    pub fn get_litteraux(&self) -> (r: Vec<Clause>)
        ensures
            clauses_view(r@) == given_clauses(self@),
    {
        let mut r: Vec<Clause> = Vec::new();
        for x in 1..10usize
            invariant
                clauses_view(r@) == given_clauses_upto(self@, ((x - 1) * 9) as nat),
        {
            for y in 1..10usize
                invariant
                    1 <= x <= 9,
                    clauses_view(r@) == given_clauses_upto(self@, ((x - 1) * 9 + y - 1) as nat),
            {
                let k: usize = (x - 1) * 9 + y - 1;
                let ghost before = r@;
                assert(scan_x(k as int) == x && scan_y(k as int) == y);
                match self.get_cell(x, y) {
                    Some(n) => {
                        let c = Clause::from_tuples(&[(true, n, x as u8, y as u8)]);
                        assert(c@ =~= seq![Literal(true, n, x as u8, y as u8)]);
                        r.push(c);
                        assert(clauses_view(r@) =~= clauses_view(before).push(c@));
                    },
                    None => {},
                }
                assert(clauses_view(r@) =~= given_clauses_upto(self@, (k + 1) as nat));
            }
        }
        r
    }
}

/// Clearing a cell: a grid with an empty cell is never a solved Sudoku,
/// so emptying any cell of a grid leaves it invalid.
pub proof fn lemma_cleared_cell_invalid(g: Grille, x: int, y: int)
    requires
        1 <= x <= 9,
        1 <= y <= 9,
    ensures
        !valid_grid(with_cell(g@, x, y, None)),
{
    let m = with_cell(g@, x, y, None);
    assert(line(m, y)[x - 1] is None);
}

/// Repeating a digit: writing in a cell a digit that another cell of the
/// same row, column or box already holds leaves the grid invalid.
pub proof fn lemma_repeated_digit_invalid(g: Grille, x: int, y: int, x2: int, y2: int, v: u8)
    requires
        1 <= x <= 9,
        1 <= y <= 9,
        1 <= x2 <= 9,
        1 <= y2 <= 9,
        x != x2 || y != y2,
        cell(g@, x2, y2) == Some(v),
        y == y2 || x == x2 || ((x - 1) / 3 == (x2 - 1) / 3 && (y - 1) / 3 == (y2 - 1) / 3),
    ensures
        !valid_grid(with_cell(g@, x, y, Some(v))),
{
    let m = with_cell(g@, x, y, Some(v));
    assert(cell(m, x, y) == Some(v));
    assert(cell(m, x2, y2) == Some(v));
    if y == y2 {
        lemma_repeat_breaks_group(line(m, y), x - 1, x2 - 1);
    } else if x == x2 {
        lemma_repeat_breaks_group(column(m, x), y - 1, y2 - 1);
    } else {
        let bx = (x - 1) / 3 + 1;
        let by = (y - 1) / 3 + 1;
        let k = ((y - 1) % 3) * 3 + (x - 1) % 3;
        let k2 = ((y2 - 1) % 3) * 3 + (x2 - 1) % 3;
        assert(region_x(bx, k) == x && region_y(by, k) == y);
        assert(region_x(bx, k2) == x2 && region_y(by, k2) == y2);
        lemma_repeat_breaks_group(region(m, bx, by), k, k2);
    }
}

/// A group with the same value at two positions is not valid.
proof fn lemma_repeat_breaks_group(s: Seq<Option<u8>>, i: int, j: int)
    requires
        0 <= i < s.len(),
        0 <= j < s.len(),
        i != j,
        s[i] == s[j],
    ensures
        !group_ok(s),
{
    if i < j {
        assert(s[i] == s[j]);
    } else {
        assert(s[j] == s[i]);
    }
}

/// Whether a group of cells is complete and holds no digit twice.
fn valid_group(g: &[Option<u8>; 9]) -> (r: bool)
    ensures
        r == group_ok(g@),
{
    for i in 0..9
        invariant
            forall|k: int| 0 <= k < i ==> (#[trigger] g@[k]) is Some,
            forall|k: int, l: int| 0 <= k < l < i ==> #[trigger] g@[k] != #[trigger] g@[l],
    {
        let a = match g[i] {
            Some(a) => a,
            None => return false,
        };
        for j in 0..i
            invariant
                i < 9,
                g@[i as int] == Some(a),
                forall|k: int| 0 <= k < j ==> #[trigger] g@[k] != g@[i as int],
        {
            match g[j] {
                Some(b) => {
                    if b == a {
                        return false;
                    }
                },
                None => {},
            }
        }
    }
    true
}

} // verus!
