//! Both ends of a solver run: the CNF text handed to it, and the reading
//! of what it answered.
use vstd::prelude::*;
use crate::clause::{dimacs_line, push_dimacs_line, Clause};
use crate::decode::{decode_assignment, decode_words, words};
use crate::grid::{clauses_view, given_clauses, given_clauses_upto, GridModel, Grille};
use crate::literal::Literal;
use crate::rules::{lemma_clause_counts, rule_clauses, rules};
use crate::text::{
    decimal, lines_view, push_decimal, split_lines, string_from_chars,
    text_lines,
};

verus! {

/// What a solver's answer says.
pub enum SolverOutcome {
    /// The single line `UNSAT`: the puzzle has no solution.
    Unsatisfiable,
    /// `SAT` and an assignment giving two digits to one cell.
    Conflict,
    /// `SAT` and an assignment without conflict, read as a grid. The grid
    /// still has to pass `is_valid` to be a solution.
    Solved(Grille),
    /// Anything else.
    Malformed,
}

/// The first line of a satisfiable answer.
pub open spec fn sat_line() -> Seq<char> {
    seq!['S', 'A', 'T']
}

/// The single line of an unsatisfiable answer.
pub open spec fn unsat_line() -> Seq<char> {
    seq!['U', 'N', 'S', 'A', 'T']
}

/// The answer is `SAT` followed by one assignment line.
pub open spec fn is_sat_answer(ls: Seq<Seq<char>>) -> bool {
    ls.len() == 2 && ls[0] == sat_line()
}

/// The grid and no-conflict flag of a `SAT` answer's assignment line.
pub open spec fn sat_assignment(ls: Seq<Seq<char>>) -> (GridModel, bool) {
    decode_words(words(ls[1]))
}

/// Whether a line is `SAT` (if `sat`) or `UNSAT` (if not).
fn is_line(l: &Vec<char>, sat: bool) -> (r: bool)
    ensures
        r == (l@ == if sat {
            sat_line()
        } else {
            unsat_line()
        }),
{
    let r = if sat {
        l.len() == 3 && l[0] == 'S' && l[1] == 'A' && l[2] == 'T'
    } else {
        l.len() == 5 && l[0] == 'U' && l[1] == 'N' && l[2] == 'S' && l[3] == 'A' && l[4] == 'T'
    };
    proof {
        if sat && r {
            assert(l@ =~= sat_line());
        }
        if !sat && r {
            assert(l@ =~= unsat_line());
        }
    }
    r
}

/// Reads a solver's answer: the line `UNSAT`, or the line `SAT` and the
/// line of its assignment (see `Grille::from_dimacs`).
pub fn read_solver_output(text: &str) -> (r: SolverOutcome)
    ensures
        r is Unsatisfiable <==> text_lines(text@) == seq![unsat_line()],
        r is Conflict <==> is_sat_answer(text_lines(text@)) && !sat_assignment(
            text_lines(text@),
        ).1,
        r is Solved <==> is_sat_answer(text_lines(text@)) && sat_assignment(text_lines(text@)).1,
        r matches SolverOutcome::Solved(g) ==> g@ == sat_assignment(text_lines(text@)).0,
        r is Malformed <==> !is_sat_answer(text_lines(text@)) && text_lines(text@) != seq![
            unsat_line(),
        ],
{
    let lines = split_lines(text);
    let ghost ls = text_lines(text@);
    assert(lines_view(lines@).len() == lines@.len());
    if lines.len() == 1 && is_line(&lines[0], false) {
        assert(ls =~= seq![unsat_line()]);
        return SolverOutcome::Unsatisfiable;
    }
    assert(ls.len() == 1 ==> ls[0] == lines@[0]@);
    assert(ls != seq![unsat_line()]);
    if lines.len() == 2 && is_line(&lines[0], true) {
        assert(ls[1] == lines@[1]@);
        match decode_assignment(&lines[1]) {
            Some(g) => SolverOutcome::Solved(g),
            None => SolverOutcome::Conflict,
        }
    } else {
        assert(lines@.len() == 2 ==> ls[0] == lines@[0]@);
        SolverOutcome::Malformed
    }
}

/// Lines of a sequence of clauses, in order.
pub open spec fn clause_lines(cs: Seq<Seq<Literal>>) -> Seq<char>
    decreases cs.len(),
{
    if cs.len() == 0 {
        Seq::empty()
    } else {
        clause_lines(cs.drop_last()) + dimacs_line(cs.last())
    }
}

/// The DIMACS header: 729 variables and the given number of clauses.
pub open spec fn cnf_header(count: nat) -> Seq<char> {
    seq!['p', ' ', 'c', 'n', 'f', ' ', '7', '2', '9', ' '] + decimal(count) + seq!['\n']
}

/// The clauses of a puzzle: one unit clause per given digit, then the
/// rules.
pub open spec fn cnf_clauses_of(m: GridModel) -> Seq<Seq<Literal>> {
    given_clauses(m) + rules()
}

/// The whole CNF text of a puzzle: the header, then one line per clause.
pub open spec fn cnf_text_of(m: GridModel) -> Seq<char> {
    cnf_header(cnf_clauses_of(m).len()) + clause_lines(cnf_clauses_of(m))
}

/// At most one unit clause per cell.
proof fn lemma_given_count(m: GridModel, k: nat)
    ensures
        given_clauses_upto(m, k).len() <= k,
    decreases k,
{
    if k > 0 {
        lemma_given_count(m, (k - 1) as nat);
    }
}

/// The clauses of a puzzle (see `cnf_clauses_of`).
pub fn cnf_clauses(g: &Grille) -> (r: Vec<Clause>)
    ensures
        clauses_view(r@) == cnf_clauses_of(g@),
{
    let mut r = g.get_litteraux();
    let mut rules = rule_clauses();
    let ghost a = r@;
    let ghost b = rules@;
    r.append(&mut rules);
    proof {
        assert(r@ =~= a + b);
        assert(clauses_view(r@) =~= clauses_view(a) + clauses_view(b));
    }
    r
}

/// The CNF text of a puzzle, ready for a solver: `p cnf 729 <count>`, then
/// each clause of `cnf_clauses` as a DIMACS line.
pub fn cnf_text(g: &Grille) -> (r: String)
    ensures
        r@ == cnf_text_of(g@),
{
    let cs = cnf_clauses(g);
    proof {
        lemma_given_count(g@, 81);
        lemma_clause_counts(Seq::new(9, |i: int| (0u8, 0u8, 0u8)));
    }
    let mut out: Vec<char> = Vec::new();
    out.push('p');
    out.push(' ');
    out.push('c');
    out.push('n');
    out.push('f');
    out.push(' ');
    out.push('7');
    out.push('2');
    out.push('9');
    out.push(' ');
    push_decimal(&mut out, cs.len() as u32);
    out.push('\n');
    let ghost view = clauses_view(cs@);
    proof {
        assert(out@ =~= cnf_header(view.len()));
    }
    for i in 0..cs.len()
        invariant
            view == clauses_view(cs@),
            view == cnf_clauses_of(g@),
            out@ == cnf_header(view.len()) + clause_lines(view.take(i as int)),
    {
        push_dimacs_line(&mut out, &cs[i]);
        proof {
            assert(view.take(i + 1).drop_last() =~= view.take(i as int));
        }
    }
    proof {
        assert(view.take(view.len() as int) =~= view);
    }
    string_from_chars(&out)
}

} // verus!
