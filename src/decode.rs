//! Reading a solver's model: the whitespace-separated signed integers of
//! its assignment line, turned back into a grid.
use vstd::prelude::*;
use crate::grid::{cell, empty_grid, with_cell, GridModel, Grille};
use crate::literal::{decode_id, Literal};

verus! {

/// Whether a character has the Unicode `White_Space` property, the
/// separator of the words of an assignment line.
pub open spec fn white_space(c: char) -> bool {
    ('\u{9}' <= c <= '\u{d}') || c == ' ' || c == '\u{85}' || c == '\u{a0}' || c == '\u{1680}'
        || ('\u{2000}' <= c <= '\u{200a}') || c == '\u{2028}' || c == '\u{2029}' || c
        == '\u{202f}' || c == '\u{205f}' || c == '\u{3000}'
}

/// Whether a character has the Unicode `White_Space` property.
pub fn is_white_space(c: char) -> (r: bool)
    ensures
        r == white_space(c),
{
    ('\u{9}' <= c && c <= '\u{d}') || c == ' ' || c == '\u{85}' || c == '\u{a0}' || c
        == '\u{1680}' || ('\u{2000}' <= c && c <= '\u{200a}') || c == '\u{2028}' || c
        == '\u{2029}' || c == '\u{202f}' || c == '\u{205f}' || c == '\u{3000}'
}

/// Scanning state after reading `s`: the words already ended, and the word
/// being read (empty between words).
pub open spec fn scan(s: Seq<char>) -> (Seq<Seq<char>>, Seq<char>)
    decreases s.len(),
{
    if s.len() == 0 {
        (Seq::empty(), Seq::empty())
    } else {
        let (ws, cur) = scan(s.drop_last());
        let c = s.last();
        if white_space(c) {
            if cur.len() > 0 {
                (ws.push(cur), Seq::empty())
            } else {
                (ws, Seq::empty())
            }
        } else {
            (ws, cur.push(c))
        }
    }
}

/// The maximal runs of non-white-space characters of `s`, in order.
pub open spec fn words(s: Seq<char>) -> Seq<Seq<char>> {
    let (ws, cur) = scan(s);
    if cur.len() > 0 {
        ws.push(cur)
    } else {
        ws
    }
}

/// An ASCII decimal digit.
pub open spec fn is_digit(c: char) -> bool {
    '0' <= c <= '9'
}

/// Value of a sequence of decimal digits.
pub open spec fn digits_value(d: Seq<char>) -> int
    decreases d.len(),
{
    if d.len() == 0 {
        0
    } else {
        digits_value(d.drop_last()) * 10 + (d.last() as int - '0' as int)
    }
}

/// Whether a word starts with a sign character.
pub open spec fn has_sign(w: Seq<char>) -> bool {
    w.len() > 0 && (w[0] == '-' || w[0] == '+')
}

/// A word without its sign character, if any.
pub open spec fn unsigned_part(w: Seq<char>) -> Seq<char> {
    if has_sign(w) {
        w.drop_first()
    } else {
        w
    }
}

/// A non-empty sequence of decimal digits.
pub open spec fn all_digits(d: Seq<char>) -> bool {
    d.len() > 0 && forall|i: int| 0 <= i < d.len() ==> is_digit(#[trigger] d[i])
}

/// The `i32` that a word spells: an optional `+` or `-`, then one or more
/// decimal digits, the value in range; `None` for anything else.
pub open spec fn parse_i32(w: Seq<char>) -> Option<int> {
    let body = unsigned_part(w);
    let v = if has_sign(w) && w[0] == '-' {
        -digits_value(body)
    } else {
        digits_value(body)
    };
    if all_digits(body) && i32::MIN <= v <= i32::MAX {
        Some(v)
    } else {
        None
    }
}

/// The literal a word names: it parses as an integer that is a valid
/// identifier.
pub open spec fn word_literal(w: Seq<char>) -> Option<Literal> {
    match parse_i32(w) {
        Some(v) => decode_id(v),
        None => None,
    }
}

/// Placing the digit of a positive literal in its cell; the flag turns
/// false if the cell was already filled. Negative literals change nothing.
pub open spec fn apply_literal(st: (GridModel, bool), l: Literal) -> (GridModel, bool) {
    if l.0 {
        (
            with_cell(st.0, l.2 as int, l.3 as int, Some(l.1)),
            st.1 && cell(st.0, l.2 as int, l.3 as int) is None,
        )
    } else {
        st
    }
}

/// The grid and the no-conflict flag after applying, from an empty grid,
/// the literals that the words name, in order; other words are skipped.
pub open spec fn decode_words(ws: Seq<Seq<char>>) -> (GridModel, bool)
    decreases ws.len(),
{
    if ws.len() == 0 {
        (empty_grid(), true)
    } else {
        let st = decode_words(ws.drop_last());
        match word_literal(ws.last()) {
            Some(l) => apply_literal(st, l),
            None => st,
        }
    }
}

/// A prefix of a digit sequence is worth no more than the whole.
proof fn lemma_digits_value_prefix(d: Seq<char>, k: int)
    requires
        0 <= k <= d.len(),
        forall|i: int| 0 <= i < d.len() ==> is_digit(#[trigger] d[i]),
    ensures
        0 <= digits_value(d.take(k)) <= digits_value(d),
    decreases d.len(),
{
    if k < d.len() {
        assert(d.drop_last().take(k) =~= d.take(k));
        lemma_digits_value_prefix(d.drop_last(), k);
        lemma_digits_value_prefix(d.drop_last(), d.len() - 1);
        assert(d.drop_last().take(d.len() - 1) =~= d.drop_last());
    } else {
        assert(d.take(k) =~= d);
        if d.len() > 0 {
            lemma_digits_value_prefix(d.drop_last(), d.len() - 1);
            assert(d.drop_last().take(d.len() - 1) =~= d.drop_last());
        }
    }
}

/// The `i32` a word spells (see `parse_i32`).
pub fn parse_word(w: &Vec<char>) -> (r: Option<i32>)
    ensures
        match r {
            Some(v) => parse_i32(w@) == Some(v as int),
            None => parse_i32(w@) is None,
        },
{
    let n = w.len();
    let signed = n > 0 && (w[0] == '-' || w[0] == '+');
    let negative = signed && w[0] == '-';
    let start: usize = if signed {
        1
    } else {
        0
    };
    let ghost body = unsigned_part(w@);
    assert(body =~= w@.subrange(start as int, n as int));
    if start == n {
        return None;
    }
    let mut acc: i64 = 0;
    let mut i: usize = start;
    while i < n
        invariant
            n == w@.len(),
            signed == has_sign(w@),
            negative == (signed && w@[0] == '-'),
            body == unsigned_part(w@),
            start <= i <= n,
            start == (if signed {
                1int
            } else {
                0int
            }),
            body == w@.subrange(start as int, n as int),
            forall|j: int| 0 <= j < i - start ==> is_digit(#[trigger] body[j]),
            acc == digits_value(body.take(i - start)),
            0 <= acc <= 2147483648,
        decreases n - i,
    {
        let c = w[i];
        if !('0' <= c && c <= '9') {
            assert(!is_digit(body[i - start]));
            assert(!all_digits(body));
            return None;
        }
        let ghost prefix = body.take(i - start);
        assert(body.take(i + 1 - start).drop_last() =~= prefix);
        acc = acc * 10 + (c as u32 - '0' as u32) as i64;
        i = i + 1;
        if acc > 2147483648 {
            proof {
                if all_digits(body) {
                    lemma_digits_value_prefix(body, i - start);
                }
            }
            return None;
        }
    }
    assert(body.take(n - start) =~= body);
    if negative {
        Some((-acc) as i32)
    } else if acc > 2147483647 {
        None
    } else {
        Some(acc as i32)
    }
}

impl Grille {
    /// The grid that a solver's assignment line describes, or `None` if
    /// two positive literals claim the same cell.
    ///
    /// The line is split at white space; words that are not integers, or
    /// not valid identifiers (such as the closing `0`), are skipped. Each
    /// positive literal places its digit in its cell; negative ones change
    /// nothing.
    pub fn from_dimacs(clauses: &str) -> (r: Option<Self>)
        ensures
            r is Some <==> decode_words(words(clauses@)).1,
            r matches Some(g) ==> g@ == decode_words(words(clauses@)).0,
    {
        let mut cs: Vec<char> = Vec::new();
        for c in it: clauses.chars()
            invariant
                it.seq() == clauses@,
                cs@ == clauses@.take(it.index() as int),
        {
            cs.push(c);
            proof {
                assert(cs@ =~= clauses@.take(it.index() + 1));
            }
        }
        proof {
            assert(cs@ =~= clauses@);
        }
        decode_assignment(&cs)
    }
}

/// `Grille::from_dimacs` on a line given as characters.
pub fn decode_assignment(cs: &Vec<char>) -> (r: Option<Grille>)
    ensures
        r is Some <==> decode_words(words(cs@)).1,
        r matches Some(g) ==> g@ == decode_words(words(cs@)).0,
{
    let mut rv = Grille::new();
    let mut grille_valide = true;
    let mut cur: Vec<char> = Vec::new();
    let ghost s = cs@;
    for i in 0..cs.len()
        invariant
            s == cs@,
            cur@ == scan(s.take(i as int)).1,
            (rv@, grille_valide) == decode_words(scan(s.take(i as int)).0),
    {
        let c = cs[i];
        proof {
            assert(s.take(i + 1).drop_last() =~= s.take(i as int));
        }
        let ghost ws = scan(s.take(i as int)).0;
        if is_white_space(c) {
            if cur.len() > 0 {
                apply_word(&mut rv, &mut grille_valide, &cur);
                proof {
                    assert(ws.push(cur@).drop_last() =~= ws);
                }
                cur = Vec::new();
            }
        } else {
            cur.push(c);
        }
    }
    proof {
        assert(s.take(s.len() as int) =~= s);
    }
    let ghost ws = scan(s).0;
    if cur.len() > 0 {
        apply_word(&mut rv, &mut grille_valide, &cur);
        proof {
            assert(ws.push(cur@).drop_last() =~= ws);
        }
    }
    if grille_valide {
        Some(rv)
    } else {
        None
    }
}

/// Applies the literal a word names, if any, to the grid and the flag.
fn apply_word(g: &mut Grille, ok: &mut bool, w: &Vec<char>)
    ensures
        (final(g)@, *final(ok)) == (match word_literal(w@) {
            Some(l) => apply_literal((old(g)@, *old(ok)), l),
            None => (old(g)@, *old(ok)),
        }),
{
    let v = match parse_word(w) {
        Some(v) => v,
        None => return ,
    };
    let lit = match Literal::from_dimacs(v) {
        Some(l) => l,
        None => return ,
    };
    if !lit.0 {
        return ;
    }
    if g.get_cell(lit.2 as usize, lit.3 as usize).is_some() {
        *ok = false;
    }
    g.set_cell(lit.1, lit.2 as usize, lit.3 as usize);
}

} // verus!
