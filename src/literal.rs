//! The bijection between propositions "digit `n` is (or is not) at column
//! `x`, row `y`" and the signed integer identifiers of the DIMACS format.
use vstd::prelude::*;

verus! {

/// Number of propositional variables: one per (digit, column, row).
pub const DIMACS_MAX: i32 = 729;

/// A proposition `Literal(polarity, digit, column, row)`.
///
/// `Literal(true, 2, 1, 1)` reads "the digit 2 is in the top-left cell";
/// `Literal(false, 2, 1, 1)` is its negation. Digit, column and row range
/// over 1 to 9.
#[derive(Debug, Clone, Copy, PartialEq, Eq, Structural)]
pub struct Literal(pub bool, pub u8, pub u8, pub u8);

/// A digit or a board coordinate: 1 to 9.
pub open spec fn in_board_range(v: int) -> bool {
    1 <= v <= 9
}

/// Unsigned identifier of the variable (digit, column, row): base-9
/// positional numbering, digit most significant, row least.
pub open spec fn variable_id(n: int, x: int, y: int) -> int {
    (n - 1) * 81 + (x - 1) * 9 + y
}

/// The literal that a signed identifier stands for, if any: none for 0 and
/// for magnitudes above 729.
pub open spec fn decode_id(v: int) -> Option<Literal> {
    if v == 0 || v > 729 || v < -729 {
        None
    } else {
        let k = (if v < 0 { -v } else { v }) - 1;
        Some(Literal(v > 0, (k / 81 + 1) as u8, ((k / 9) % 9 + 1) as u8, (k % 9 + 1) as u8))
    }
}

impl Literal {
    /// Digit, column and row all lie on the board.
    pub open spec fn wf(self) -> bool {
        in_board_range(self.1 as int) && in_board_range(self.2 as int) && in_board_range(
            self.3 as int,
        )
    }

    /// The signed DIMACS identifier: negative for a negated proposition.
    pub open spec fn dimacs(self) -> int {
        let m = variable_id(self.1 as int, self.2 as int, self.3 as int);
        if self.0 {
            m
        } else {
            -m
        }
    }

    /// Identifier of this literal in the DIMACS format.
    pub fn to_dimacs(&self) -> (r: i32)
        ensures
            r == self.dimacs(),
    {
        let m: i32 = (self.1 as i32 - 1) * 81 + (self.2 as i32 - 1) * 9 + self.3 as i32;
        if self.0 {
            m
        } else {
            -m
        }
    }

    /// The literal with the given DIMACS identifier; `None` for 0 and for
    /// identifiers whose magnitude exceeds 729.
    pub fn from_dimacs(litteral_dimacs: i32) -> (r: Option<Self>)
        ensures
            r == decode_id(litteral_dimacs as int),
            r is None <==> (litteral_dimacs == 0 || litteral_dimacs > DIMACS_MAX
                || litteral_dimacs < -DIMACS_MAX),
            r matches Some(l) ==> l.wf() && l.dimacs() == litteral_dimacs,
    {
        if litteral_dimacs == 0 || litteral_dimacs > DIMACS_MAX || litteral_dimacs < -DIMACS_MAX {
            return None;
        }
        proof {
            lemma_decode_inverts(litteral_dimacs as int);
        }
        let signe = litteral_dimacs > 0;
        let m: i32 = if litteral_dimacs < 0 {
            -litteral_dimacs
        } else {
            litteral_dimacs
        };
        let k = m - 1;
        let pos_y = (k % 9 + 1) as u8;
        let pos_x = ((k / 9) % 9 + 1) as u8;
        let n = (k / 81 + 1) as u8;
        Some(Literal(signe, n, pos_x, pos_y))
    }
}

/// Every identifier of magnitude 1 to 729 decodes to a literal on the board
/// that encodes back to it.
pub proof fn lemma_decode_inverts(v: int)
    requires
        1 <= v <= 729 || -729 <= v <= -1,
    ensures
        decode_id(v) matches Some(l) && l.wf() && l.dimacs() == v,
{
    let k = (if v < 0 { -v } else { v }) - 1;
    assert(0 <= k / 81 < 9 && 0 <= (k / 9) % 9 < 9 && 0 <= k % 9 < 9 && (k / 81) * 81 + ((k / 9)
        % 9) * 9 + k % 9 == k) by (nonlinear_arith)
        requires
            0 <= k < 729,
    ;
}

/// Round trip: decoding the identifier of a literal on the board gives the
/// literal back, for both polarities.
pub proof fn lemma_round_trip(l: Literal)
    requires
        l.wf(),
    ensures
        decode_id(l.dimacs()) == Some(l),
{
    let n = l.1 as int - 1;
    let x = l.2 as int - 1;
    let y = l.3 as int - 1;
    let k = n * 81 + x * 9 + y;
    assert(k / 81 == n && (k / 9) % 9 == x && k % 9 == y) by (nonlinear_arith)
        requires
            0 <= n < 9,
            0 <= x < 9,
            0 <= y < 9,
            k == n * 81 + x * 9 + y,
    ;
}

/// The identifiers of the positive literals on the board are exactly the
/// integers 1 to 729, each taken by one literal only: every such integer
/// is the identifier of the positive literal it decodes to.
pub proof fn lemma_encoding_bijective()
    ensures
        forall|a: Literal| a.wf() && a.0 ==> 1 <= #[trigger] a.dimacs() <= DIMACS_MAX,
        forall|a: Literal, b: Literal|
            a.wf() && b.wf() && #[trigger] a.dimacs() == #[trigger] b.dimacs() ==> a == b,
        forall|v: int|
            1 <= v <= DIMACS_MAX ==> (#[trigger] decode_id(v) matches Some(a) && a.wf() && a.0
                && a.dimacs() == v),
{
    assert forall|a: Literal, b: Literal|
        a.wf() && b.wf() && #[trigger] a.dimacs() == #[trigger] b.dimacs() implies a == b by {
        lemma_round_trip(a);
        lemma_round_trip(b);
    }
    assert forall|v: int| 1 <= v <= DIMACS_MAX implies (#[trigger] decode_id(v) matches Some(a)
        && a.wf() && a.0 && a.dimacs() == v) by {
        lemma_decode_inverts(v);
    }
}

/// Adjacency: in the order digit, then column, then row (row varying
/// fastest), each positive literal's identifier is one more than that of
/// the literal before it.
pub proof fn lemma_identifiers_adjacent(n: u8, x: u8, y: u8)
    requires
        in_board_range(n as int),
        in_board_range(x as int),
        in_board_range(y as int),
    ensures
        y < 9 ==> Literal(true, n, x, (y + 1) as u8).dimacs() == Literal(true, n, x, y).dimacs()
            + 1,
        y == 9 && x < 9 ==> Literal(true, n, (x + 1) as u8, 1).dimacs() == Literal(
            true,
            n,
            x,
            y,
        ).dimacs() + 1,
        y == 9 && x == 9 && n < 9 ==> Literal(true, (n + 1) as u8, 1, 1).dimacs() == Literal(
            true,
            n,
            x,
            y,
        ).dimacs() + 1,
{
}

} // verus!
