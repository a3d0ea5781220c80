//! Facts about how the grammar treats positions and whitespace.
use vstd::prelude::*;
use crate::expression::is_literal_char;
use crate::parser::{
    Outcome, add_at, base_at, is_space_char, literal_end, mul_at, number_at, parse_line,
    peek_at, space_end,
};

verus! {

/// Skipping spaces never moves backwards.
pub proof fn lemma_space_end_advances(s: Seq<char>, i: int)
    ensures
        space_end(s, i) >= i,
    decreases s.len() - i,
{
    if 0 <= i < s.len() && is_space_char(s[i]) {
        lemma_space_end_advances(s, i + 1);
    }
}

proof fn lemma_literal_end_advances(s: Seq<char>, i: int)
    ensures
        literal_end(s, i) >= i,
    decreases s.len() - i,
{
    if 0 <= i < s.len() && is_literal_char(s[i]) {
        lemma_literal_end_advances(s, i + 1);
    }
}

/// No level of the grammar moves backwards: each stops at or after where it
/// started.
pub proof fn lemma_base_advances(s: Seq<char>, i: int)
    ensures
        base_at(s, i).1 >= i,
    decreases s.len() - i, 0int,
{
    let a = space_end(s, i);
    lemma_space_end_advances(s, i);
    if a < i {
    } else if peek_at(s, a) == Some('-') || peek_at(s, a) == Some('+') {
        lemma_base_advances(s, a + 1);
    } else if peek_at(s, a) == Some('(') || peek_at(s, a) == Some('|') {
        lemma_add_advances(s, a + 1);
        lemma_space_end_advances(s, add_at(s, a + 1).1);
    } else {
        lemma_space_end_advances(s, a);
        lemma_literal_end_advances(s, space_end(s, a));
    }
}

/// See `lemma_base_advances`.
pub proof fn lemma_mul_advances(s: Seq<char>, i: int)
    ensures
        mul_at(s, i).1 >= i,
    decreases s.len() - i, 1int,
{
    let (l, j) = base_at(s, i);
    lemma_base_advances(s, i);
    lemma_space_end_advances(s, j);
    let k = space_end(s, j);
    let op = peek_at(s, k);
    if l is Present && (op == Some('*') || op == Some('/') || op == Some('%')) && i <= k {
        lemma_mul_advances(s, k + 1);
    }
}

/// See `lemma_base_advances`.
pub proof fn lemma_add_advances(s: Seq<char>, i: int)
    ensures
        add_at(s, i).1 >= i,
    decreases s.len() - i, 2int,
{
    let (l, j) = mul_at(s, i);
    lemma_mul_advances(s, i);
    lemma_space_end_advances(s, j);
    let k = space_end(s, j);
    let op = peek_at(s, k);
    if l is Present && (op == Some('+') || op == Some('-')) && i <= k {
        lemma_add_advances(s, k + 1);
    }
}

proof fn lemma_literal_end_bounded(s: Seq<char>, i: int)
    requires
        i <= s.len(),
    ensures
        literal_end(s, i) <= s.len(),
    decreases s.len() - i,
{
    if 0 <= i < s.len() && is_literal_char(s[i]) {
        lemma_literal_end_bounded(s, i + 1);
    }
}

/// How a position of `p + q` corresponds to one of `p + w + q`: before the
/// insertion point it stays, after it it moves by `w.len()`, and at the
/// insertion point it may stand anywhere in the inserted run.
pub open spec fn corresponds(at: int, by: int, x: int, y: int) -> bool {
    ||| x < at && y == x
    ||| x > at && y == x + by
    ||| x == at && at <= y <= at + by
}

/// Two outcomes that agree: the same tree, or both absent, or the same
/// message at corresponding positions.
pub open spec fn outcomes_correspond(at: int, by: int, a: Outcome, b: Outcome) -> bool {
    match a {
        Outcome::Error(m, e) => b matches Outcome::Error(m2, e2) && m2 == m && corresponds(
            at,
            by,
            e,
            e2,
        ),
        _ => b == a,
    }
}

/// Two level results that agree, outcomes and stop positions.
pub open spec fn steps_correspond(at: int, by: int, a: (Outcome, int), b: (Outcome, int)) -> bool {
    outcomes_correspond(at, by, a.0, b.0) && corresponds(at, by, a.1, b.1)
}

proof fn lemma_index(p: Seq<char>, w: Seq<char>, q: Seq<char>, x: int)
    ensures
        0 <= x < p.len() ==> (p + q)[x] == p[x] && (p + w + q)[x] == p[x],
        p.len() <= x < p.len() + w.len() ==> (p + w + q)[x] == w[x - p.len()],
        p.len() <= x < p.len() + q.len() ==> (p + q)[x] == q[x - p.len()] && (p + w + q)[x
            + w.len()] == q[x - p.len()],
{
    if 0 <= x < p.len() {
        assert((p + w)[x] == p[x]);
    }
    if p.len() <= x < p.len() + w.len() {
        assert((p + w)[x] == w[x - p.len()]);
    }
}

/// Skipping spaces from corresponding positions stops at positions that
/// correspond tightly (past the whole inserted run at the insertion point)
/// and that see the same character.
proof fn lemma_space_end_corr(p: Seq<char>, w: Seq<char>, q: Seq<char>, x: int, y: int)
    requires
        forall|k: int| 0 <= k < w.len() ==> is_space_char(#[trigger] w[k]),
        0 <= x,
        corresponds(p.len() as int, w.len() as int, x, y),
    ensures
        ({
            let a = space_end(p + q, x);
            let b = space_end(p + w + q, y);
            &&& a < p.len() ==> b == a
            &&& a >= p.len() ==> b == a + w.len()
            &&& peek_at(p + q, a) == peek_at(p + w + q, b)
        }),
    decreases (p + q).len() - x, (p + w + q).len() - y,
{
    let s = p + q;
    let t = p + w + q;
    let n = p.len() as int;
    let m = w.len() as int;
    lemma_index(p, w, q, x);
    lemma_index(p, w, q, y);
    if x < n {
        if is_space_char(s[x]) {
            lemma_space_end_corr(p, w, q, x + 1, y + 1);
        }
    } else if x > n {
        lemma_index(p, w, q, x);
        if x < s.len() && is_space_char(s[x]) {
            lemma_space_end_corr(p, w, q, x + 1, y + 1);
        }
        let a = space_end(s, x);
        lemma_space_end_advances(s, x);
        lemma_index(p, w, q, a);
    } else if y < n + m {
        lemma_space_end_corr(p, w, q, x, y + 1);
    } else {
        if x < s.len() && is_space_char(s[x]) {
            lemma_space_end_corr(p, w, q, x + 1, y + 1);
        }
        let a = space_end(s, x);
        lemma_space_end_advances(s, x);
        lemma_index(p, w, q, a);
    }
}

/// A literal run after the insertion point is only moved.
proof fn lemma_literal_end_after(p: Seq<char>, w: Seq<char>, q: Seq<char>, x: int)
    requires
        p.len() <= x,
    ensures
        literal_end(p + w + q, x + w.len()) == literal_end(p + q, x) + w.len(),
    decreases (p + q).len() - x,
{
    lemma_index(p, w, q, x);
    if x < (p + q).len() && is_literal_char((p + q)[x]) {
        lemma_literal_end_after(p, w, q, x + 1);
    }
}

/// A literal run before the insertion point that is not glued to a literal
/// after it ends at the same place in both texts.
proof fn lemma_literal_end_before(p: Seq<char>, w: Seq<char>, q: Seq<char>, x: int)
    requires
        forall|k: int| 0 <= k < w.len() ==> is_space_char(#[trigger] w[k]),
        !(p.len() > 0 && q.len() > 0 && is_literal_char(p[p.len() - 1]) && is_literal_char(
            q[0],
        )),
        0 <= x <= p.len(),
        x == p.len() ==> p.len() > 0 && is_literal_char(p[p.len() - 1]),
    ensures
        literal_end(p + w + q, x) == literal_end(p + q, x),
        literal_end(p + q, x) <= p.len(),
    decreases p.len() - x,
{
    lemma_index(p, w, q, x);
    if x < p.len() {
        if is_literal_char(p[x]) {
            lemma_literal_end_before(p, w, q, x + 1);
        }
    } else if w.len() == 0 {
        assert(p + w + q =~= p + q);
        lemma_index(p, w, q, x);
    }
}

proof fn lemma_number_corr(p: Seq<char>, w: Seq<char>, q: Seq<char>, x: int, y: int)
    requires
        forall|k: int| 0 <= k < w.len() ==> is_space_char(#[trigger] w[k]),
        !(p.len() > 0 && q.len() > 0 && is_literal_char(p[p.len() - 1]) && is_literal_char(
            q[0],
        )),
        0 <= x,
        corresponds(p.len() as int, w.len() as int, x, y),
    ensures
        steps_correspond(p.len() as int, w.len() as int, number_at(p + q, x), number_at(p + w + q, y)),
{
    let s = p + q;
    let t = p + w + q;
    let n = p.len() as int;
    let m = w.len() as int;
    lemma_space_end_corr(p, w, q, x, y);
    lemma_space_end_advances(s, x);
    let a = space_end(s, x);
    let b = space_end(t, y);
    if peek_at(s, a) matches Some(c) && is_literal_char(c) {
        let e = literal_end(s, a);
        lemma_literal_end_bounded(s, a);
        lemma_literal_end_advances(s, a);
        if a < n {
            lemma_literal_end_before(p, w, q, a);
            assert(t.subrange(a, e) =~= s.subrange(a, e)) by {
                assert forall|k: int| a <= k < e implies t[k] == s[k] by {
                    lemma_index(p, w, q, k);
                }
            }
        } else {
            lemma_literal_end_after(p, w, q, a);
            assert(t.subrange(b, e + m) =~= s.subrange(a, e)) by {
                assert forall|k: int| a <= k < e implies t[k + m] == s[k] by {
                    lemma_index(p, w, q, k);
                }
            }
        }
    }
}

/// From corresponding positions, each level of the grammar gives agreeing
/// results on the two texts.
proof fn lemma_base_corr(p: Seq<char>, w: Seq<char>, q: Seq<char>, x: int, y: int)
    requires
        forall|k: int| 0 <= k < w.len() ==> is_space_char(#[trigger] w[k]),
        !(p.len() > 0 && q.len() > 0 && is_literal_char(p[p.len() - 1]) && is_literal_char(
            q[0],
        )),
        0 <= x,
        corresponds(p.len() as int, w.len() as int, x, y),
    ensures
        steps_correspond(p.len() as int, w.len() as int, base_at(p + q, x), base_at(p + w + q, y)),
    decreases (p + q).len() - x, 0int,
{
    let s = p + q;
    let t = p + w + q;
    lemma_space_end_corr(p, w, q, x, y);
    lemma_space_end_advances(s, x);
    lemma_space_end_advances(t, y);
    let a = space_end(s, x);
    let b = space_end(t, y);
    if peek_at(s, a) == Some('-') || peek_at(s, a) == Some('+') {
        lemma_base_corr(p, w, q, a + 1, b + 1);
    } else if peek_at(s, a) == Some('(') || peek_at(s, a) == Some('|') {
        lemma_add_corr(p, w, q, a + 1, b + 1);
        lemma_add_advances(s, a + 1);
        let j = add_at(s, a + 1).1;
        let j2 = add_at(t, b + 1).1;
        if add_at(s, a + 1).0 is Present {
            lemma_space_end_corr(p, w, q, j, j2);
        }
    } else {
        lemma_space_end_advances(s, a);
        lemma_number_corr(p, w, q, a, b);
    }
}

proof fn lemma_mul_corr(p: Seq<char>, w: Seq<char>, q: Seq<char>, x: int, y: int)
    requires
        forall|k: int| 0 <= k < w.len() ==> is_space_char(#[trigger] w[k]),
        !(p.len() > 0 && q.len() > 0 && is_literal_char(p[p.len() - 1]) && is_literal_char(
            q[0],
        )),
        0 <= x,
        corresponds(p.len() as int, w.len() as int, x, y),
    ensures
        steps_correspond(p.len() as int, w.len() as int, mul_at(p + q, x), mul_at(p + w + q, y)),
    decreases (p + q).len() - x, 1int,
{
    let s = p + q;
    let t = p + w + q;
    lemma_base_corr(p, w, q, x, y);
    lemma_base_advances(s, x);
    lemma_base_advances(t, y);
    let (l, j) = base_at(s, x);
    let j2 = base_at(t, y).1;
    if l is Present {
        lemma_space_end_corr(p, w, q, j, j2);
        lemma_space_end_advances(s, j);
        lemma_space_end_advances(t, j2);
        let k = space_end(s, j);
        let k2 = space_end(t, j2);
        let op = peek_at(s, k);
        if op == Some('*') || op == Some('/') || op == Some('%') {
            lemma_mul_corr(p, w, q, k + 1, k2 + 1);
        }
    }
}

proof fn lemma_add_corr(p: Seq<char>, w: Seq<char>, q: Seq<char>, x: int, y: int)
    requires
        forall|k: int| 0 <= k < w.len() ==> is_space_char(#[trigger] w[k]),
        !(p.len() > 0 && q.len() > 0 && is_literal_char(p[p.len() - 1]) && is_literal_char(
            q[0],
        )),
        0 <= x,
        corresponds(p.len() as int, w.len() as int, x, y),
    ensures
        steps_correspond(p.len() as int, w.len() as int, add_at(p + q, x), add_at(p + w + q, y)),
    decreases (p + q).len() - x, 2int,
{
    let s = p + q;
    let t = p + w + q;
    lemma_mul_corr(p, w, q, x, y);
    lemma_mul_advances(s, x);
    lemma_mul_advances(t, y);
    let (l, j) = mul_at(s, x);
    let j2 = mul_at(t, y).1;
    if l is Present {
        lemma_space_end_corr(p, w, q, j, j2);
        lemma_space_end_advances(s, j);
        lemma_space_end_advances(t, j2);
        let k = space_end(s, j);
        let k2 = space_end(t, j2);
        let op = peek_at(s, k);
        if op == Some('+') || op == Some('-') {
            lemma_add_corr(p, w, q, k + 1, k2 + 1);
        }
    }
}

/// Spaces and tabs inserted anywhere but inside a numeric literal change
/// nothing that a line parses to: the same tree, or absence, or the same
/// error message at the corresponding position.
pub proof fn lemma_inserted_space(p: Seq<char>, w: Seq<char>, q: Seq<char>)
    requires
        forall|k: int| 0 <= k < w.len() ==> is_space_char(#[trigger] w[k]),
        !(p.len() > 0 && q.len() > 0 && is_literal_char(p[p.len() - 1]) && is_literal_char(
            q[0],
        )),
    ensures
        outcomes_correspond(p.len() as int, w.len() as int, parse_line(p + q), parse_line(p + w + q)),
{
    let s = p + q;
    let t = p + w + q;
    lemma_add_corr(p, w, q, 0, 0);
    lemma_add_advances(s, 0);
    let (r, j) = add_at(s, 0);
    let j2 = add_at(t, 0).1;
    lemma_space_end_corr(p, w, q, j, j2);
}

} // verus!
