//! Global laws of the evaluator.
//!
//! An input made of digit runs separated by operators, with arbitrary
//! whitespace runs between the tokens, evaluates to the strict
//! left-to-right fold of the term values — independently of where and how
//! much whitespace stands between them, and with no operator precedence.

use vstd::prelude::*;

use crate::chars::digit_val;
use crate::chars::is_digit_char;
use crate::chars::is_known_char;
use crate::chars::is_op_char;
use crate::chars::is_space_char;
use crate::semantics::apply_op;
use crate::semantics::chain_at;
use crate::semantics::digits_end;
use crate::semantics::digits_value;
use crate::semantics::eval;
use crate::semantics::expr_at;
use crate::semantics::skip_spaces;
use crate::semantics::term_at;
use crate::tokens::ParseError;

verus! {

/// A non-empty sequence of decimal digits.
pub open spec fn all_digits(d: Seq<char>) -> bool {
    d.len() > 0 && forall|q: int| 0 <= q < d.len() ==> is_digit_char(d[q])
}

/// A (possibly empty) run of whitespace characters.
pub open spec fn all_spaces(w: Seq<char>) -> bool {
    forall|q: int| 0 <= q < w.len() ==> is_space_char(w[q])
}

/// The base-10 value denoted by a whole digit sequence.
pub open spec fn seq_digits_value(d: Seq<char>) -> int
    decreases d.len(),
{
    if d.len() == 0 {
        0
    } else {
        seq_digits_value(d.drop_last()) * 10 + digit_val(d.last())
    }
}

/// The values of a sequence of digit runs.
pub open spec fn term_values(terms: Seq<Seq<char>>) -> Seq<int> {
    Seq::new(terms.len(), |t: int| seq_digits_value(terms[t]))
}

/// The input text after term `m`'s digits: a whitespace gap, and — while
/// operators remain — operator `m`, another gap, the next digit run, and
/// the rest.  Gap `2m + 1` precedes operator `m`; gap `2m + 2` precedes
/// term `m + 1`; the very last gap trails the final term.
pub open spec fn render_tail(
    terms: Seq<Seq<char>>,
    ops: Seq<char>,
    gaps: Seq<Seq<char>>,
    m: int,
) -> Seq<char>
    decreases ops.len() - m,
{
    if m < ops.len() {
        gaps[2 * m + 1] + seq![ops[m]] + gaps[2 * m + 2] + terms[m + 1] + render_tail(
            terms,
            ops,
            gaps,
            m + 1,
        )
    } else {
        gaps[2 * m + 1]
    }
}

/// An input text built from `n + 1` digit runs, `n` operators, and
/// `2n + 2` whitespace gaps interleaved around them.
pub open spec fn render(terms: Seq<Seq<char>>, ops: Seq<char>, gaps: Seq<Seq<char>>) -> Seq<
    char,
> {
    gaps[0] + terms[0] + render_tail(terms, ops, gaps, 0)
}

/// The left fold of the first `m` operators over the term values:
/// `((vals[0] op[0] vals[1]) op[1] vals[2]) ...`.
pub open spec fn fold_upto(vals: Seq<int>, ops: Seq<char>, m: int) -> int
    decreases m,
{
    if m <= 0 {
        vals[0]
    } else {
        apply_op(ops[m - 1], fold_upto(vals, ops, m - 1), vals[m])
    }
}

/// The first `m` fold steps stay inside the `i32` range and never divide
/// by zero.
pub open spec fn fold_admissible(vals: Seq<int>, ops: Seq<char>, m: int) -> bool
    decreases m,
{
    if m <= 0 {
        true
    } else {
        fold_admissible(vals, ops, m - 1) && (ops[m - 1] == '/' ==> vals[m] != 0) && i32::MIN
            as int <= fold_upto(vals, ops, m) <= i32::MAX as int
    }
}

/// The shared shape hypotheses: matching counts, digit runs, whitespace
/// gaps, operator characters, and every term value representable.
pub open spec fn render_wf(terms: Seq<Seq<char>>, ops: Seq<char>, gaps: Seq<Seq<char>>) -> bool {
    &&& terms.len() == ops.len() + 1
    &&& gaps.len() == 2 * ops.len() + 2
    &&& forall|t: int| 0 <= t < terms.len() ==> all_digits(#[trigger] terms[t])
    &&& forall|g: int| 0 <= g < gaps.len() ==> all_spaces(#[trigger] gaps[g])
    &&& forall|o: int| 0 <= o < ops.len() ==> is_op_char(#[trigger] ops[o])
    &&& forall|t: int|
        0 <= t < terms.len() ==> seq_digits_value(#[trigger] terms[t]) <= i32::MAX as int
}

/// A digit sequence denotes a non-negative value.
proof fn lemma_seq_digits_value_nonneg(d: Seq<char>)
    requires
        forall|q: int| 0 <= q < d.len() ==> is_digit_char(d[q]),
    ensures
        0 <= seq_digits_value(d),
    decreases d.len(),
{
    if d.len() > 0 {
        lemma_seq_digits_value_nonneg(d.drop_last());
    }
}

/// If everything in `[i, a)` is whitespace and `a` is the end of the text
/// or not whitespace, the whitespace skip from `i` stops exactly at `a`.
proof fn lemma_skip_spaces_exact(s: Seq<char>, i: int, a: int)
    requires
        0 <= i <= a <= s.len(),
        forall|q: int| i <= q < a ==> is_space_char(s[q]),
        a == s.len() || !is_space_char(s[a]),
    ensures
        skip_spaces(s, i) == a,
    decreases a - i,
{
    if i < a {
        lemma_skip_spaces_exact(s, i + 1, a);
    }
}

/// If everything in `[i, a)` is a digit and `a` is the end of the text or
/// not a digit, the digit run from `i` ends exactly at `a`.
proof fn lemma_digits_end_exact(s: Seq<char>, i: int, a: int)
    requires
        0 <= i <= a <= s.len(),
        forall|q: int| i <= q < a ==> is_digit_char(s[q]),
        a == s.len() || !is_digit_char(s[a]),
    ensures
        digits_end(s, i) == a,
    decreases a - i,
{
    if i < a {
        lemma_digits_end_exact(s, i + 1, a);
    }
}

/// The value of the digits in `[i, j)` of `s` is the value of that
/// subrange taken as a sequence of its own.
proof fn lemma_digits_value_subrange(s: Seq<char>, i: int, j: int)
    requires
        0 <= i <= j <= s.len(),
    ensures
        digits_value(s, i, j) == seq_digits_value(s.subrange(i, j)),
    decreases j - i,
{
    if i < j {
        lemma_digits_value_subrange(s, i, j - 1);
        assert(s.subrange(i, j).drop_last() =~= s.subrange(i, j - 1));
    }
}

/// Admissibility of a fold prefix follows from admissibility of a longer
/// one.
proof fn lemma_fold_admissible_prefix(vals: Seq<int>, ops: Seq<char>, a: int, b: int)
    requires
        0 <= a <= b,
        fold_admissible(vals, ops, b),
    ensures
        fold_admissible(vals, ops, a),
    decreases b - a,
{
    if a < b {
        lemma_fold_admissible_prefix(vals, ops, a, b - 1);
    }
}

/// The text after a term's digits starts — if it is not empty — with
/// whitespace or an operator, never with a digit or an unknown character.
proof fn lemma_render_tail_first(
    terms: Seq<Seq<char>>,
    ops: Seq<char>,
    gaps: Seq<Seq<char>>,
    m: int,
)
    requires
        render_wf(terms, ops, gaps),
        0 <= m <= ops.len(),
    ensures
        render_tail(terms, ops, gaps, m).len() > 0 ==> {
            let c = render_tail(terms, ops, gaps, m)[0];
            is_space_char(c) || is_op_char(c)
        },
{
    let rt = render_tail(terms, ops, gaps, m);
    if m < ops.len() {
        let w1 = gaps[2 * m + 1];
        if w1.len() > 0 {
            assert(rt[0] == w1[0]);
        } else {
            assert(rt[0] == ops[m]);
        }
    } else {
        if rt.len() > 0 {
            assert(rt[0] == gaps[2 * m + 1][0]);
        }
    }
}

/// From position `base`, where the remaining text is `render_tail(.., m)`
/// and the accumulator holds the fold of the first `m` operators, the
/// operator chain consumes everything and yields the full fold.
proof fn lemma_chain_render(
    s: Seq<char>,
    terms: Seq<Seq<char>>,
    ops: Seq<char>,
    gaps: Seq<Seq<char>>,
    m: int,
    base: int,
    acc: int,
)
    requires
        render_wf(terms, ops, gaps),
        fold_admissible(term_values(terms), ops, ops.len() as int),
        0 <= m <= ops.len(),
        0 <= base <= s.len(),
        s.subrange(base, s.len() as int) == render_tail(terms, ops, gaps, m),
        acc == fold_upto(term_values(terms), ops, m),
    ensures
        chain_at(s, base, acc) == Ok::<(int, int), ParseError>(
            (fold_upto(term_values(terms), ops, ops.len() as int), s.len() as int),
        ),
    decreases ops.len() - m,
{
    let vals = term_values(terms);
    let n = ops.len() as int;
    let len = s.len() as int;
    let tail = render_tail(terms, ops, gaps, m);
    assert(tail.len() == len - base);
    assert(forall|q: int| 0 <= q < tail.len() ==> s[base + q] == #[trigger] tail[q]) by {
        assert(forall|q: int|
            0 <= q < tail.len() ==> s.subrange(base, len)[q] == #[trigger] tail[q]);
    }
    if m == n {
        assert(forall|q: int| base <= q < len ==> is_space_char(#[trigger] s[q])) by {
            assert(forall|q: int| base <= q < len ==> s[q] == tail[q - base]);
        }
        lemma_skip_spaces_exact(s, base, len);
        assert(chain_at(s, base, acc) == Ok::<(int, int), ParseError>((acc, len)));
    } else {
        let w1 = gaps[2 * m + 1];
        let oc = ops[m];
        let w2 = gaps[2 * m + 2];
        let d = terms[m + 1];
        let rest = render_tail(terms, ops, gaps, m + 1);
        let p1 = base + w1.len() as int;
        let p2 = p1 + 1;
        let p3 = p2 + w2.len() as int;
        let p4 = p3 + d.len() as int;
        assert(tail == w1 + seq![oc] + w2 + d + rest);
        assert(tail.len() == w1.len() + 1 + w2.len() + d.len() + rest.len());
        assert(len == p4 + rest.len());

        // Where each piece of the tail lies in `s`.
        assert forall|q: int| base <= q < p1 implies is_space_char(#[trigger] s[q]) by {
            assert(s[q] == tail[q - base]);
            assert(tail[q - base] == w1[q - base]);
            assert(all_spaces(w1));
        }
        assert(s[p1] == tail[p1 - base]);
        assert(s[p1] == oc);
        assert forall|q: int| p2 <= q < p3 implies is_space_char(#[trigger] s[q]) by {
            assert(s[q] == tail[q - base]);
            assert(tail[q - base] == w2[q - p2]);
            assert(all_spaces(w2));
        }
        assert forall|q: int| p3 <= q < p4 implies is_digit_char(#[trigger] s[q]) by {
            assert(s[q] == tail[q - base]);
            assert(tail[q - base] == d[q - p3]);
            assert(all_digits(d));
        }
        assert forall|q: int| 0 <= q < rest.len() implies #[trigger] rest[q] == s[p4 + q] by {
            assert(s[p4 + q] == tail[p4 + q - base]);
            assert(tail[p4 + q - base] == rest[q]);
        }

        // The operator after the current gap.
        assert(!is_space_char(oc));
        lemma_skip_spaces_exact(s, base, p1);

        // The next term: its gap, its digits, and what stops them.
        assert(is_digit_char(s[p3]));
        assert(!is_space_char(s[p3]));
        lemma_skip_spaces_exact(s, p2, p3);
        lemma_render_tail_first(terms, ops, gaps, m + 1);
        if p4 < len {
            assert(s[p4] == rest[0]);
            assert(is_space_char(s[p4]) || is_op_char(s[p4]));
            assert(!is_digit_char(s[p4]));
            assert(is_known_char(s[p4]));
        }
        lemma_digits_end_exact(s, p3, p4);
        lemma_digits_value_subrange(s, p3, p4);
        assert(s.subrange(p3, p4) =~= d) by {
            assert forall|q: int|
                0 <= q < d.len() implies s.subrange(p3, p4)[q] == #[trigger] d[q] by {
                assert(s[p3 + q] == tail[p3 + q - base]);
                assert(tail[p3 + q - base] == d[q]);
            }
        }
        let v = digits_value(s, p3, p4);
        assert(v == vals[m + 1]);
        lemma_seq_digits_value_nonneg(d);
        assert(term_at(s, p2) == Ok::<(int, int), ParseError>((v, p4)));

        // The fold step is admissible, so the chain continues.
        lemma_fold_admissible_prefix(vals, ops, m + 1, n);
        assert(fold_admissible(vals, ops, m + 1));
        assert(oc == '/' ==> v != 0);
        let r = apply_op(oc, acc, v);
        assert(r == fold_upto(vals, ops, m + 1));
        assert(i32::MIN as int <= r <= i32::MAX as int);

        // The rest of the text is the rendering after term `m + 1`.
        assert(s.subrange(p4, len) =~= rest) by {
            assert(forall|q: int| 0 <= q < rest.len() ==> s.subrange(p4, len)[q] == s[p4 + q]);
        }
        lemma_chain_render(s, terms, ops, gaps, m + 1, p4, r);
        assert(chain_at(s, base, acc) == chain_at(s, p4, r));
    }
}

/// Left-to-right, no-precedence law, whitespace-insensitive: an input made
/// of digit runs `terms` joined by the operators `ops`, with arbitrary
/// whitespace gaps around them, evaluates to the plain left fold
/// `((t0 op0 t1) op1 t2) ...` of the term values — provided every fold
/// step stays in the `i32` range and never divides by zero.  The gaps do
/// not appear in the result at all: inserting or removing whitespace
/// around terms and operators cannot change what is computed.
pub proof fn lemma_eval_left_fold(terms: Seq<Seq<char>>, ops: Seq<char>, gaps: Seq<Seq<char>>)
    requires
        render_wf(terms, ops, gaps),
        fold_admissible(term_values(terms), ops, ops.len() as int),
    ensures
        eval(render(terms, ops, gaps)) == Ok::<i32, ParseError>(
            fold_upto(term_values(terms), ops, ops.len() as int) as i32,
        ),
{
    let vals = term_values(terms);
    let n = ops.len() as int;
    let s = render(terms, ops, gaps);
    let w0 = gaps[0];
    let d0 = terms[0];
    let rest = render_tail(terms, ops, gaps, 0);
    let p0 = w0.len() as int;
    let pd = p0 + d0.len() as int;
    let len = s.len() as int;
    assert(s == w0 + d0 + rest);
    assert(len == pd + rest.len());

    assert(forall|q: int| 0 <= q < w0.len() ==> #[trigger] s[q] == w0[q]);
    assert(forall|q: int| 0 <= q < d0.len() ==> #[trigger] s[p0 + q] == d0[q]);
    assert(forall|q: int| 0 <= q < rest.len() ==> #[trigger] s[pd + q] == rest[q]);
    assert(forall|q: int| 0 <= q < p0 ==> is_space_char(#[trigger] s[q])) by {
        assert(forall|q: int| 0 <= q < p0 ==> s[q] == w0[q]);
    }
    assert(forall|q: int| p0 <= q < pd ==> is_digit_char(#[trigger] s[q])) by {
        assert(forall|q: int| p0 <= q < pd ==> s[q] == d0[q - p0]);
    }

    // The initial term.
    assert(is_digit_char(s[p0]));
    assert(!is_space_char(s[p0]));
    lemma_skip_spaces_exact(s, 0, p0);
    lemma_render_tail_first(terms, ops, gaps, 0);
    if pd < len {
        assert(s[pd] == rest[0]);
        assert(is_space_char(s[pd]) || is_op_char(s[pd]));
        assert(!is_digit_char(s[pd]));
        assert(is_known_char(s[pd]));
    }
    lemma_digits_end_exact(s, p0, pd);
    lemma_digits_value_subrange(s, p0, pd);
    assert(s.subrange(p0, pd) =~= d0);
    let v0 = digits_value(s, p0, pd);
    assert(v0 == vals[0]);
    lemma_seq_digits_value_nonneg(d0);
    assert(term_at(s, 0) == Ok::<(int, int), ParseError>((v0, pd)));

    // The chain after it.
    assert(s.subrange(pd, len) =~= rest) by {
        assert(forall|q: int| 0 <= q < rest.len() ==> s.subrange(pd, len)[q] == s[pd + q]);
    }
    assert(v0 == fold_upto(vals, ops, 0));
    lemma_chain_render(s, terms, ops, gaps, 0, pd, v0);
    assert(expr_at(s, 0) == Ok::<(int, int), ParseError>((fold_upto(vals, ops, n), len)));
}

/// Whitespace insensitivity: two inputs made of the same digit runs and
/// the same operators, differing only in the whitespace gaps between
/// them, evaluate to the same result.
pub proof fn lemma_whitespace_insensitive(
    terms: Seq<Seq<char>>,
    ops: Seq<char>,
    gaps1: Seq<Seq<char>>,
    gaps2: Seq<Seq<char>>,
)
    requires
        render_wf(terms, ops, gaps1),
        render_wf(terms, ops, gaps2),
        fold_admissible(term_values(terms), ops, ops.len() as int),
    ensures
        eval(render(terms, ops, gaps1)) == eval(render(terms, ops, gaps2)),
{
    lemma_eval_left_fold(terms, ops, gaps1);
    lemma_eval_left_fold(terms, ops, gaps2);
}

} // verus!
