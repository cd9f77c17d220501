//! Texts in dictionary order.

use crate::text::rows;
use vstd::prelude::*;

verus! {

/// Whether `a` stands before `b` in the dictionary, or is `b`: at the first
/// place where they differ `a` has the smaller character, or `a` ends there.
pub open spec fn lex_le(a: Seq<char>, b: Seq<char>) -> bool
    decreases a.len(),
{
    if a.len() == 0 {
        true
    } else if b.len() == 0 {
        false
    } else if a[0] != b[0] {
        a[0] < b[0]
    } else {
        lex_le(a.skip(1), b.skip(1))
    }
}

/// The texts in order: no text stands behind a greater one.
pub open spec fn in_order(s: Seq<Seq<char>>) -> bool {
    forall|i: int, j: int| 0 <= i < j < s.len() ==> lex_le(#[trigger] s[i], #[trigger] s[j])
}

/// The ordered texts with `x` put in, behind everything that is not greater.
pub open spec fn inserted(sorted: Seq<Seq<char>>, x: Seq<char>) -> Seq<Seq<char>>
    decreases sorted.len(),
{
    if sorted.len() == 0 {
        seq![x]
    } else if lex_le(sorted.last(), x) {
        sorted.push(x)
    } else {
        inserted(sorted.drop_last(), x).push(sorted.last())
    }
}

/// The texts in dictionary order.
pub open spec fn ordered(s: Seq<Seq<char>>) -> Seq<Seq<char>>
    decreases s.len(),
{
    if s.len() == 0 {
        Seq::empty()
    } else {
        inserted(ordered(s.drop_last()), s.last())
    }
}

/// Of two texts one stands before the other, or they are the same.
pub proof fn lemma_lex_total(a: Seq<char>, b: Seq<char>)
    ensures
        lex_le(a, b) || lex_le(b, a),
    decreases a.len(),
{
    if a.len() > 0 && b.len() > 0 && a[0] == b[0] {
        lemma_lex_total(a.skip(1), b.skip(1));
    }
}

/// What stands before a text that stands before a third stands before the
/// third.
pub proof fn lemma_lex_transitive(a: Seq<char>, b: Seq<char>, c: Seq<char>)
    requires
        lex_le(a, b),
        lex_le(b, c),
    ensures
        lex_le(a, c),
    decreases a.len(),
{
    if a.len() > 0 && b.len() > 0 && c.len() > 0 && a[0] == b[0] && b[0] == c[0] {
        lemma_lex_transitive(a.skip(1), b.skip(1), c.skip(1));
    }
}

/// Putting a text into ordered texts leaves them ordered, adds the text and
/// loses none.
pub proof fn lemma_inserted(sorted: Seq<Seq<char>>, x: Seq<char>)
    requires
        in_order(sorted),
    ensures
        in_order(inserted(sorted, x)),
        inserted(sorted, x).len() == sorted.len() + 1,
        inserted(sorted, x).to_multiset() == sorted.to_multiset().insert(x),
        forall|i: int|
            0 <= i < inserted(sorted, x).len() ==> #[trigger] inserted(sorted, x)[i] == x
                || sorted.contains(inserted(sorted, x)[i]),
    decreases sorted.len(),
{
    broadcast use vstd::seq_lib::group_to_multiset_ensures;

    let out = inserted(sorted, x);
    if sorted.len() == 0 {
        assert(sorted =~= Seq::<Seq<char>>::empty());
        assert(out =~= Seq::<Seq<char>>::empty().push(x));
    } else if lex_le(sorted.last(), x) {
        assert forall|i: int, j: int| 0 <= i < j < out.len() implies lex_le(
            #[trigger] out[i],
            #[trigger] out[j],
        ) by {
            if j == sorted.len() {
                if i < sorted.len() - 1 {
                    assert(lex_le(sorted[i], sorted[sorted.len() - 1]));
                    lemma_lex_transitive(sorted[i], sorted.last(), x);
                }
            } else {
                assert(lex_le(sorted[i], sorted[j]));
            }
        }
        assert forall|i: int| 0 <= i < out.len() implies #[trigger] out[i] == x || sorted.contains(
            out[i],
        ) by {
            if i < sorted.len() {
                assert(sorted[i] == out[i]);
            }
        }
    } else {
        let front = sorted.drop_last();
        assert(in_order(front)) by {
            assert forall|i: int, j: int| 0 <= i < j < front.len() implies lex_le(
                #[trigger] front[i],
                #[trigger] front[j],
            ) by {
                assert(lex_le(sorted[i], sorted[j]));
            }
        }
        lemma_inserted(front, x);
        let inner = inserted(front, x);
        lemma_lex_total(sorted.last(), x);
        assert forall|i: int, j: int| 0 <= i < j < out.len() implies lex_le(
            #[trigger] out[i],
            #[trigger] out[j],
        ) by {
            if j == inner.len() {
                if inner[i] == x {
                } else {
                    assert(front.contains(inner[i]));
                    let k = choose|k: int| 0 <= k < front.len() && front[k] == inner[i];
                    assert(lex_le(sorted[k], sorted[sorted.len() - 1]));
                }
            } else {
                assert(lex_le(inner[i], inner[j]));
            }
        }
        assert(sorted =~= front.push(sorted.last()));
        assert(out.to_multiset() =~= sorted.to_multiset().insert(x));
        assert forall|i: int| 0 <= i < out.len() implies #[trigger] out[i] == x || sorted.contains(
            out[i],
        ) by {
            if i < inner.len() {
                if inner[i] != x {
                    let k = choose|k: int| 0 <= k < front.len() && front[k] == inner[i];
                    assert(sorted[k] == out[i]);
                }
            } else {
                assert(sorted[sorted.len() - 1] == out[i]);
            }
        }
    }
}

/// The texts in dictionary order are in order, and they are the same texts,
/// each as often as before.
pub proof fn law_ordered_is_sorted_permutation(s: Seq<Seq<char>>)
    ensures
        in_order(ordered(s)),
        ordered(s).len() == s.len(),
        ordered(s).to_multiset() == s.to_multiset(),
    decreases s.len(),
{
    broadcast use vstd::seq_lib::group_to_multiset_ensures;

    if s.len() > 0 {
        law_ordered_is_sorted_permutation(s.drop_last());
        lemma_inserted(ordered(s.drop_last()), s.last());
        assert(s =~= s.drop_last().push(s.last()));
    } else {
        assert(ordered(s) =~= s);
    }
}

/// Where everything from position `k` on is greater than `x` and what stands
/// before `k` is not, `x` is put in at `k`.
pub proof fn lemma_inserted_at(sorted: Seq<Seq<char>>, x: Seq<char>, k: int)
    requires
        0 <= k <= sorted.len(),
        forall|j: int| k <= j < sorted.len() ==> !lex_le(#[trigger] sorted[j], x),
        k > 0 ==> lex_le(sorted[k - 1], x),
    ensures
        inserted(sorted, x) == sorted.take(k).push(x) + sorted.skip(k),
    decreases sorted.len() - k,
{
    if k == sorted.len() {
        assert(sorted.take(k).push(x) + sorted.skip(k) =~= sorted.push(x));
        if sorted.len() == 0 {
            assert(sorted.push(x) =~= seq![x]);
        }
    } else {
        let front = sorted.drop_last();
        assert(!lex_le(sorted[sorted.len() - 1], x));
        lemma_inserted_at(front, x, k);
        assert((front.take(k).push(x) + front.skip(k)).push(sorted.last()) =~= sorted.take(
            k,
        ).push(x) + sorted.skip(k));
    }
}

/// Whether `a` stands before `b` in the dictionary, or is `b`.
pub fn text_le(a: &Vec<char>, b: &Vec<char>) -> (r: bool)
    ensures
        r == lex_le(a@, b@),
{
    let mut i: usize = 0;
    proof {
        assert(a@.skip(0) =~= a@);
        assert(b@.skip(0) =~= b@);
    }
    while i < a.len() && i < b.len()
        invariant
            i <= a@.len(),
            i <= b@.len(),
            lex_le(a@, b@) == lex_le(a@.skip(i as int), b@.skip(i as int)),
        decreases a@.len() - i,
    {
        proof {
            assert(a@.skip(i as int)[0] == a@[i as int]);
            assert(b@.skip(i as int)[0] == b@[i as int]);
            assert(a@.skip(i as int).skip(1) =~= a@.skip(i + 1));
            assert(b@.skip(i as int).skip(1) =~= b@.skip(i + 1));
        }
        if a[i] != b[i] {
            return a[i] < b[i];
        }
        i += 1;
    }
    proof {
        assert(a@.skip(i as int).len() == a@.len() - i);
        assert(b@.skip(i as int).len() == b@.len() - i);
    }
    i >= a.len()
}

/// Puts the texts in dictionary order.
pub fn sort(texts: Vec<Vec<char>>) -> (out: Vec<Vec<char>>)
    ensures
        rows(out@) == ordered(rows(texts@)),
{
    let mut out: Vec<Vec<char>> = Vec::new();
    let mut rest = texts;
    let ghost all = rows(texts@);
    let ghost mut done: int = 0;
    // the texts are taken from the end, so the rest is turned round first
    let mut turned: Vec<Vec<char>> = Vec::new();
    while rest.len() > 0
        invariant
            rows(turned@) + rows(rest@).reverse() == all.reverse(),
        decreases rest@.len(),
    {
        let ghost before = rows(turned@);
        let ghost left = rows(rest@);
        let x = rest.pop().unwrap();
        turned.push(x);
        proof {
            assert(rows(turned@) =~= before.push(x@));
            assert(rows(rest@) =~= left.drop_last());
            assert(left.last() == x@);
            assert(left.reverse() =~= seq![x@] + left.drop_last().reverse());
            assert(rows(turned@) + rows(rest@).reverse() =~= before + left.reverse());
        }
    }
    proof {
        assert(rows(rest@).reverse() =~= Seq::<Seq<char>>::empty());
        assert(rows(turned@) =~= all.reverse());
    }
    while turned.len() > 0
        invariant
            0 <= done <= all.len(),
            rows(turned@) == all.reverse().take(all.len() - done),
            rows(out@) == ordered(all.take(done)),
        decreases turned@.len(),
    {
        let ghost waiting = rows(turned@);
        let ghost sorted = rows(out@);
        let x = turned.pop().unwrap();
        proof {
            assert(rows(turned@) =~= waiting.drop_last());
            assert(x@ == waiting.last());
            assert(waiting.last() == all.reverse()[all.len() - done - 1]);
            assert(all.reverse()[all.len() - done - 1] == all[done]);
            assert(all.take(done + 1).drop_last() =~= all.take(done));
            assert(all.take(done + 1).last() == all[done]);
            assert(rows(turned@) =~= all.reverse().take(all.len() - done - 1));
        }
        let mut k: usize = out.len();
        while k > 0 && !text_le(&out[k - 1], &x)
            invariant
                k <= out@.len(),
                sorted == rows(out@),
                forall|j: int| k <= j < out@.len() ==> !lex_le(#[trigger] sorted[j], x@),
            decreases k,
        {
            assert(sorted[k - 1] == out@[k - 1]@);
            k -= 1;
        }
        proof {
            if k > 0 {
                assert(sorted[k - 1] == out@[k - 1]@);
            }
            lemma_inserted_at(sorted, x@, k as int);
        }
        out.insert(k, x);
        proof {
            assert(rows(out@) =~= sorted.take(k as int).push(x@) + sorted.skip(k as int));
            done = done + 1;
        }
    }
    proof {
        assert(rows(turned@).len() == 0);
        assert(all.take(all.len() as int) =~= all);
    }
    out
}

} // verus!
