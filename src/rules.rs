//! The clauses that state the rules of Sudoku: exactly one digit per cell,
//! and each digit exactly once per column, row and box.
use vstd::prelude::*;
use crate::clause::Clause;
use crate::grid::{clauses_view, region_x, region_y};
use crate::literal::Literal;

verus! {

/// A propositional variable given as (digit, column, row).
pub type Var = (u8, u8, u8);

/// The kinds of groups of nine variables over which the rules say
/// "exactly one" (or, for `BoxCell`, "at most one").
#[derive(Debug, Clone, Copy, PartialEq, Eq, Structural)]
pub enum Grouping {
    /// One cell, the digit varying.
    Cell,
    /// One column and one digit, the row varying.
    Column,
    /// One row and one digit, the column varying.
    Row,
    /// One box and one digit, the position in the box varying.
    Box,
    /// One cell reached through its box, the digit varying (redundant with
    /// `Cell`, kept to help solvers).
    BoxCell,
}

/// Box column of the `b`-th box (from 0), boxes taken column by column.
pub open spec fn box_x(b: int) -> int {
    b / 3 + 1
}

/// Box row of the `b`-th box.
pub open spec fn box_y(b: int) -> int {
    b % 3 + 1
}

/// The `k`-th group (from 0 to 80) of a kind.
/// - `Cell`: column `k / 9 + 1`, row `k % 9 + 1`.
/// - `Column`: column `k / 9 + 1`, digit `k % 9 + 1`.
/// - `Row`: row `k / 9 + 1`, digit `k % 9 + 1`.
/// - `Box`: digit `k / 9 + 1`, box `k % 9`.
/// - `BoxCell`: box `k / 9`, cell `k % 9` of that box, row by row.
pub open spec fn group(kind: Grouping, k: int) -> Seq<Var> {
    let a = k / 9 + 1;
    let b = k % 9 + 1;
    match kind {
        Grouping::Cell => Seq::new(9, |i: int| ((i + 1) as u8, a as u8, b as u8)),
        Grouping::Column => Seq::new(9, |i: int| (b as u8, a as u8, (i + 1) as u8)),
        Grouping::Row => Seq::new(9, |i: int| (b as u8, (i + 1) as u8, a as u8)),
        Grouping::Box => Seq::new(
            9,
            |i: int|
                (
                    a as u8,
                    region_x(box_x(k % 9), i) as u8,
                    region_y(box_y(k % 9), i) as u8,
                ),
        ),
        Grouping::BoxCell => Seq::new(
            9,
            |i: int|
                (
                    (i + 1) as u8,
                    region_x(box_x(k / 9), k % 9) as u8,
                    region_y(box_y(k / 9), k % 9) as u8,
                ),
        ),
    }
}

/// The literal "this variable holds".
pub open spec fn positive(c: Var) -> Literal {
    Literal(true, c.0, c.1, c.2)
}

/// The literal "this variable does not hold".
pub open spec fn negative(c: Var) -> Literal {
    Literal(false, c.0, c.1, c.2)
}

/// The clause "at least one variable of the group holds".
pub open spec fn at_least_one(g: Seq<Var>) -> Seq<Literal> {
    g.map_values(|c: Var| positive(c))
}

/// The clauses "not both the `i`-th and the `j`-th", for each `j > i`.
pub open spec fn pairs_after(g: Seq<Var>, i: int) -> Seq<Seq<Literal>> {
    Seq::new((g.len() - 1 - i) as nat, |k: int| seq![negative(g[i]), negative(g[i + 1 + k])])
}

/// The pairwise clauses whose first variable is among the first `n`.
pub open spec fn at_most_one_upto(g: Seq<Var>, n: nat) -> Seq<Seq<Literal>>
    decreases n,
{
    if n == 0 {
        Seq::empty()
    } else {
        at_most_one_upto(g, (n - 1) as nat) + pairs_after(g, n - 1)
    }
}

/// "At most one variable of the group holds": one clause per unordered
/// pair of distinct members, in lexicographic order of positions.
pub open spec fn at_most_one(g: Seq<Var>) -> Seq<Seq<Literal>> {
    at_most_one_upto(g, g.len())
}

/// "Exactly one variable of the group holds": the at-least-one clause,
/// then the pairwise at-most-one clauses.
pub open spec fn exactly_one(g: Seq<Var>) -> Seq<Seq<Literal>> {
    seq![at_least_one(g)] + at_most_one(g)
}

/// The clauses emitted for one group of a kind.
pub open spec fn group_clauses(kind: Grouping, g: Seq<Var>) -> Seq<Seq<Literal>> {
    if kind == Grouping::BoxCell {
        at_most_one(g)
    } else {
        exactly_one(g)
    }
}

/// The clauses of the first `k` groups of a kind.
pub open spec fn family_upto(kind: Grouping, k: nat) -> Seq<Seq<Literal>>
    decreases k,
{
    if k == 0 {
        Seq::empty()
    } else {
        family_upto(kind, (k - 1) as nat) + group_clauses(kind, group(kind, k - 1))
    }
}

/// The clauses of all 81 groups of a kind.
pub open spec fn family(kind: Grouping) -> Seq<Seq<Literal>> {
    family_upto(kind, 81)
}

/// All the rule clauses: cells, columns, rows, boxes, then the redundant
/// per-cell clauses taken box by box.
pub open spec fn rules() -> Seq<Seq<Literal>> {
    family(Grouping::Cell) + family(Grouping::Column) + family(Grouping::Row) + family(
        Grouping::Box,
    ) + family(Grouping::BoxCell)
}

/// The `k`-th group of a kind (see `group`).
pub fn group_cells(kind: Grouping, k: usize) -> (r: [Var; 9])
    requires
        k < 81,
    ensures
        r@ == group(kind, k as int),
{
    let a: u8 = (k / 9 + 1) as u8;
    let b: u8 = (k % 9 + 1) as u8;
    let mut r: [Var; 9] = [(0, 0, 0); 9];
    for i in 0..9usize
        invariant
            k < 81,
            a == k / 9 + 1,
            b == k % 9 + 1,
            forall|j: int| 0 <= j < i ==> r@[j] == group(kind, k as int)[j],
    {
        let d: u8 = (i + 1) as u8;
        r[i] = match kind {
            Grouping::Cell => (d, a, b),
            Grouping::Column => (b, a, d),
            Grouping::Row => (b, d, a),
            Grouping::Box => {
                let bi = k % 9;
                (a, (3 * (bi / 3) + i % 3 + 1) as u8, (3 * (bi % 3) + i / 3 + 1) as u8)
            },
            Grouping::BoxCell => {
                let bi = k / 9;
                let ci = k % 9;
                (d, (3 * (bi / 3) + ci % 3 + 1) as u8, (3 * (bi % 3) + ci / 3 + 1) as u8)
            },
        };
    }
    proof {
        assert(r@ =~= group(kind, k as int));
    }
    r
}

/// The clauses "exactly one variable of the group holds": first the
/// clause with all nine positive literals, then the 36 clauses "not both"
/// over the unordered pairs of members.
pub fn exactly_one_clauses(g: &[Var; 9]) -> (r: Vec<Clause>)
    ensures
        clauses_view(r@) == exactly_one(g@),
{
    let mut r: Vec<Clause> = Vec::new();
    push_group(&mut r, g, true);
    proof {
        assert(clauses_view(r@) =~= exactly_one(g@));
    }
    r
}

/// Appends the clauses of a group: the at-least-one clause if `with_alo`,
/// then the pairwise at-most-one clauses.
fn push_group(out: &mut Vec<Clause>, g: &[Var; 9], with_alo: bool)
    ensures
        clauses_view(final(out)@) == clauses_view(old(out)@) + (if with_alo {
            exactly_one(g@)
        } else {
            at_most_one(g@)
        }),
{
    let ghost start = clauses_view(out@);
    if with_alo {
        let mut v: Vec<Literal> = Vec::new();
        for i in 0..9usize
            invariant
                v@ == at_least_one(g@.take(i as int)),
        {
            let c = g[i];
            v.push(Literal(true, c.0, c.1, c.2));
            proof {
                assert(at_least_one(g@.take(i + 1)) =~= at_least_one(g@.take(i as int)).push(
                    positive(c),
                ));
            }
        }
        proof {
            assert(g@.take(9) =~= g@);
        }
        let ghost before = out@;
        out.push(Clause(v));
        proof {
            assert(clauses_view(out@) =~= clauses_view(before).push(at_least_one(g@)));
        }
    }
    let ghost base = clauses_view(out@);
    for i in 0..9usize
        invariant
            clauses_view(out@) == base + at_most_one_upto(g@, i as nat),
    {
        for j in i + 1..9usize
            invariant
                i < 9,
                clauses_view(out@) == base + at_most_one_upto(g@, i as nat) + pairs_after(
                    g@,
                    i as int,
                ).take(j - i - 1),
        {
            let a = g[i];
            let b = g[j];
            let mut v: Vec<Literal> = Vec::new();
            v.push(Literal(false, a.0, a.1, a.2));
            v.push(Literal(false, b.0, b.1, b.2));
            let ghost before = out@;
            let ghost pv = v@;
            out.push(Clause(v));
            proof {
                assert(pv =~= seq![negative(g@[i as int]), negative(g@[j as int])]);
                assert(clauses_view(out@) =~= clauses_view(before).push(pv));
                assert(pairs_after(g@, i as int).take(j - i) =~= pairs_after(g@, i as int).take(
                    j - i - 1,
                ).push(pv));
            }
        }
        proof {
            assert(pairs_after(g@, i as int).take(8 - i) =~= pairs_after(g@, i as int));
        }
    }
    proof {
        assert(clauses_view(out@) =~= start + (if with_alo {
            exactly_one(g@)
        } else {
            at_most_one(g@)
        }));
    }
}

/// Appends the clauses of all 81 groups of a kind.
fn push_family(out: &mut Vec<Clause>, kind: Grouping)
    ensures
        clauses_view(final(out)@) == clauses_view(old(out)@) + family(kind),
{
    let ghost base = clauses_view(out@);
    for k in 0..81usize
        invariant
            clauses_view(out@) == base + family_upto(kind, k as nat),
    {
        let g = group_cells(kind, k);
        let with_alo = match kind {
            Grouping::BoxCell => false,
            _ => true,
        };
        push_group(out, &g, with_alo);
        proof {
            assert(base + family_upto(kind, (k + 1) as nat) =~= base + family_upto(kind, k as nat)
                + group_clauses(kind, group(kind, k as int)));
        }
    }
}

/// Every clause stating the rules of Sudoku, independent of any puzzle.
pub fn rule_clauses() -> (r: Vec<Clause>)
    ensures
        clauses_view(r@) == rules(),
{
    let mut r: Vec<Clause> = Vec::new();
    push_family(&mut r, Grouping::Cell);
    push_family(&mut r, Grouping::Column);
    push_family(&mut r, Grouping::Row);
    push_family(&mut r, Grouping::Box);
    push_family(&mut r, Grouping::BoxCell);
    proof {
        assert(clauses_view(r@) =~= rules());
    }
    r
}

/// Number of rule clauses: 81 groups of 37 clauses for each of cells,
/// columns, rows and boxes, and 81 groups of 36 redundant ones.
pub const RULE_CLAUSE_COUNT: usize = 14904;

/// Sizes of the clause families: a group of nine gives one at-least-one
/// clause and 36 pairwise ones; each kind has 81 groups; and the rules
/// hold a fixed number of clauses, which no puzzle changes.
pub proof fn lemma_clause_counts(g: Seq<Var>)
    requires
        g.len() == 9,
    ensures
        at_most_one(g).len() == 36,
        exactly_one(g).len() == 37,
        family(Grouping::Cell).len() == 81 * 37,
        family(Grouping::BoxCell).len() == 81 * 36,
        rules().len() == RULE_CLAUSE_COUNT,
{
    lemma_at_most_one_len(g);
    lemma_family_len(Grouping::Cell, 81);
    lemma_family_len(Grouping::Column, 81);
    lemma_family_len(Grouping::Row, 81);
    lemma_family_len(Grouping::Box, 81);
    lemma_family_len(Grouping::BoxCell, 81);
}

/// A group of nine has 36 unordered pairs.
proof fn lemma_at_most_one_len(g: Seq<Var>)
    requires
        g.len() == 9,
    ensures
        at_most_one(g).len() == 36,
{
    reveal_with_fuel(at_most_one_upto, 10);
}

/// Each group of a kind contributes the same number of clauses.
proof fn lemma_family_len(kind: Grouping, k: nat)
    ensures
        family_upto(kind, k).len() == k * (if kind == Grouping::BoxCell {
            36int
        } else {
            37int
        }),
    decreases k,
{
    if k > 0 {
        lemma_family_len(kind, (k - 1) as nat);
        lemma_at_most_one_len(group(kind, k - 1));
    }
}

} // verus!
