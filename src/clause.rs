//! Clauses: disjunctions of literals, and their text forms.
use vstd::prelude::*;
use crate::literal::Literal;
use crate::text::{decimal, push_decimal, push_signed_decimal, signed_decimal, string_from_chars};

verus! {

/// A disjunction of literals, kept in the order they were given.
#[derive(Debug)]
pub struct Clause(pub Vec<Literal>);

/// The literal described by a tuple (polarity, digit, column, row).
pub open spec fn tuple_literal(t: (bool, u8, u8, u8)) -> Literal {
    Literal(t.0, t.1, t.2, t.3)
}

/// The literals of a sequence of pairs of tuples, pair after pair.
pub open spec fn pairs_literals(ps: Seq<[(bool, u8, u8, u8); 2]>) -> Seq<Literal>
    decreases ps.len(),
{
    if ps.len() == 0 {
        Seq::empty()
    } else {
        pairs_literals(ps.drop_last()) + seq![
            tuple_literal(ps.last()@[0]),
            tuple_literal(ps.last()@[1]),
        ]
    }
}

/// The DIMACS identifiers of `s`, each followed by a space.
pub open spec fn literal_words(s: Seq<Literal>) -> Seq<char>
    decreases s.len(),
{
    if s.len() == 0 {
        Seq::empty()
    } else {
        literal_words(s.drop_last()) + signed_decimal(s.last().dimacs()) + seq![' ']
    }
}

/// The DIMACS line of a clause: its identifiers, then the terminating `0`
/// and a newline.
pub open spec fn dimacs_line(s: Seq<Literal>) -> Seq<char> {
    literal_words(s) + seq!['0', '\n']
}

/// Human-readable form of one literal: digit, column and row side by side.
pub open spec fn literal_digits(l: Literal) -> Seq<char> {
    decimal(l.1 as nat) + decimal(l.2 as nat) + decimal(l.3 as nat)
}

/// Human-readable form of the literals after the first, each preceded by
/// ` + ` or ` - ` according to its polarity.
pub open spec fn debug_tail(s: Seq<Literal>) -> Seq<char>
    decreases s.len(),
{
    if s.len() == 0 {
        Seq::empty()
    } else {
        debug_tail(s.drop_last()) + (if s.last().0 {
            seq![' ', '+', ' ']
        } else {
            seq![' ', '-', ' ']
        }) + literal_digits(s.last())
    }
}

/// Human-readable form of a non-empty clause: `-123` for a single negated
/// literal, `(111 - 223 + 345)` for several.
pub open spec fn debug_form(s: Seq<Literal>) -> Seq<char> {
    let first = (if s[0].0 {
        Seq::empty()
    } else {
        seq!['-']
    }) + literal_digits(s[0]);
    if s.len() == 1 {
        first
    } else {
        seq!['('] + first + debug_tail(s.subrange(1, s.len() as int)) + seq![')']
    }
}

impl View for Clause {
    type V = Seq<Literal>;

    open spec fn view(&self) -> Seq<Literal> {
        self.0@
    }
}

impl PartialEq for Clause {
    fn eq(&self, o: &Clause) -> (r: bool) {
        if self.0.len() != o.0.len() {
            return false;
        }
        let mut i: usize = 0;
        while i < self.0.len()
            invariant
                self.0.len() == o.0.len(),
                i <= self.0.len(),
                forall|j: int| 0 <= j < i ==> self.0@[j] == o.0@[j],
            decreases self.0.len() - i,
        {
            if self.0[i] != o.0[i] {
                return false;
            }
            i = i + 1;
        }
        proof {
            assert(self@ =~= o@);
        }
        true
    }
}

impl vstd::std_specs::cmp::PartialEqSpecImpl for Clause {
    open spec fn obeys_eq_spec() -> bool {
        true
    }

    open spec fn eq_spec(&self, o: &Clause) -> bool {
        self@ == o@
    }
}

impl Clause {
    /// The clause whose literals are the given tuples, in order.
    pub fn from_tuples(litteraux: &[(bool, u8, u8, u8)]) -> (r: Clause)
        ensures
            r@ == litteraux@.map_values(|t| tuple_literal(t)),
    {
        let mut v: Vec<Literal> = Vec::new();
        for i in 0..litteraux.len()
            invariant
                v@ == litteraux@.take(i as int).map_values(|t| tuple_literal(t)),
        {
            let t = litteraux[i];
            v.push(Literal(t.0, t.1, t.2, t.3));
            proof {
                assert(litteraux@.take(i + 1) =~= litteraux@.take(i as int).push(t));
            }
        }
        proof {
            assert(litteraux@.take(litteraux@.len() as int) =~= litteraux@);
        }
        Clause(v)
    }

    /// The clause made of the literals of each pair in turn: a group of
    /// `k` pairs gives `2 * k` literals.
    pub fn from_pairs(paires: &[[(bool, u8, u8, u8); 2]]) -> (r: Clause)
        ensures
            r@ == pairs_literals(paires@),
    {
        let mut v: Vec<Literal> = Vec::new();
        for i in 0..paires.len()
            invariant
                v@ == pairs_literals(paires@.take(i as int)),
        {
            let p = paires[i];
            v.push(Literal(p[0].0, p[0].1, p[0].2, p[0].3));
            v.push(Literal(p[1].0, p[1].1, p[1].2, p[1].3));
            proof {
                assert(paires@.take(i + 1).drop_last() =~= paires@.take(i as int));
            }
        }
        proof {
            assert(paires@.take(paires@.len() as int) =~= paires@);
        }
        Clause(v)
    }
}

impl Clause {
    /// The clause as a DIMACS line: each identifier followed by a space,
    /// then `0` and a newline.
    pub fn to_dimacs_line(&self) -> (r: String)
        requires
            self@.len() > 0,
        ensures
            r@ == dimacs_line(self@),
    {
        let mut out: Vec<char> = Vec::new();
        push_dimacs_line(&mut out, self);
        string_from_chars(&out)
    }

    /// The clause in human-readable form (see `debug_form`).
    pub fn debug_text(&self) -> (r: String)
        requires
            self@.len() > 0,
        ensures
            r@ == debug_form(self@),
    {
        let mut out: Vec<char> = Vec::new();
        let first = self.0[0];
        let several = self.0.len() > 1;
        if several {
            out.push('(');
        }
        if !first.0 {
            out.push('-');
        }
        push_literal_digits(&mut out, &first);
        let ghost head = out@;
        let ghost tail = self@.subrange(1, self@.len() as int);
        for i in 1..self.0.len()
            invariant
                tail == self@.subrange(1, self@.len() as int),
                out@ == head + debug_tail(tail.take(i - 1)),
        {
            let l = self.0[i];
            if l.0 {
                out.push(' ');
                out.push('+');
                out.push(' ');
            } else {
                out.push(' ');
                out.push('-');
                out.push(' ');
            }
            push_literal_digits(&mut out, &l);
            proof {
                assert(tail.take(i as int).drop_last() =~= tail.take(i - 1));
                assert(tail.take(i as int).last() == l);
            }
        }
        if several {
            out.push(')');
            proof {
                assert(tail.take(self@.len() - 1) =~= tail);
            }
        }
        proof {
            assert(out@ =~= debug_form(self@));
        }
        string_from_chars(&out)
    }
}

/// Appends the DIMACS line of a clause.
pub(crate) fn push_dimacs_line(out: &mut Vec<char>, c: &Clause)
    ensures
        final(out)@ == old(out)@ + dimacs_line(c@),
{
    let ghost start = out@;
    for i in 0..c.0.len()
        invariant
            out@ == start + literal_words(c@.take(i as int)),
    {
        push_signed_decimal(out, c.0[i].to_dimacs());
        out.push(' ');
        proof {
            assert(c@.take(i + 1).drop_last() =~= c@.take(i as int));
            assert(out@ =~= start + literal_words(c@.take(i + 1)));
        }
    }
    proof {
        assert(c@.take(c@.len() as int) =~= c@);
    }
    out.push('0');
    out.push('\n');
    proof {
        assert(out@ =~= start + dimacs_line(c@));
    }
}

/// Appends the human-readable form of a literal, without its sign.
fn push_literal_digits(out: &mut Vec<char>, l: &Literal)
    ensures
        final(out)@ == old(out)@ + literal_digits(*l),
{
    push_decimal(out, l.1 as u32);
    push_decimal(out, l.2 as u32);
    push_decimal(out, l.3 as u32);
    proof {
        assert(out@ =~= old(out)@ + literal_digits(*l));
    }
}

impl<const N: usize> From<[(bool, u8, u8, u8); N]> for Clause {
    fn from(litteraux: [(bool, u8, u8, u8); N]) -> (r: Clause) {
        Clause::from_tuples(litteraux.as_slice())
    }
}

/// `from` is `from_tuples` on the array. Its result is not described
/// through this trait, since no `Vec` can be built in a specification:
/// callers that need a contract call `from_tuples`.
impl<const N: usize> vstd::std_specs::convert::FromSpecImpl<[(bool, u8, u8, u8); N]> for Clause {
    open spec fn obeys_from_spec() -> bool {
        false
    }

    open spec fn from_spec(litteraux: [(bool, u8, u8, u8); N]) -> Clause {
        arbitrary()
    }
}

} // verus!
