//! Facts about sequences that the laws need.

use vstd::prelude::*;

verus! {

/// The numbers below `n` that satisfy `p` are those below `n - 1` that do, and `n - 1` if it does.
pub(crate) proof fn lemma_numbers_filter(n: nat, p: spec_fn(int) -> bool)
    ensures
        n == 0 ==> Seq::new(n, |i: int| i).filter(p) == Seq::<int>::empty(),
        n > 0 ==> Seq::new(n, |i: int| i).filter(p) == if p(n - 1) {
            Seq::new((n - 1) as nat, |i: int| i).filter(p).push(n - 1)
        } else {
            Seq::new((n - 1) as nat, |i: int| i).filter(p)
        },
{
    reveal(Seq::filter);
    let all = Seq::new(n, |i: int| i);
    if n == 0 {
        assert(all =~= Seq::<int>::empty());
    } else {
        assert(all.drop_last() =~= Seq::new((n - 1) as nat, |i: int| i));
    }
}

/// What is left of a sequence and one item more.
pub(crate) proof fn lemma_filter_step<A>(s: Seq<A>, p: spec_fn(A) -> bool)
    ensures
        s.len() == 0 ==> s.filter(p) == Seq::<A>::empty(),
        s.len() > 0 ==> s.filter(p) == if p(s.last()) {
            s.drop_last().filter(p).push(s.last())
        } else {
            s.drop_last().filter(p)
        },
{
    reveal(Seq::filter);
    if s.len() == 0 {
        assert(s =~= Seq::<A>::empty());
    }
}

/// What is left of a sequence is in it and satisfies `p`, and all that does is left.
pub(crate) proof fn lemma_filter_members<A>(s: Seq<A>, p: spec_fn(A) -> bool)
    ensures
        s.filter(p).len() <= s.len(),
        forall|i: int|
            0 <= i < s.filter(p).len() ==> s.contains(#[trigger] s.filter(p)[i]) && p(
                s.filter(p)[i],
            ),
        forall|i: int| 0 <= i < s.len() && p(#[trigger] s[i]) ==> s.filter(p).contains(s[i]),
    decreases s.len(),
{
    lemma_filter_step(s, p);
    if s.len() > 0 {
        let front = s.drop_last();
        lemma_filter_members(front, p);
        let kept = s.filter(p);
        let before = front.filter(p);
        assert forall|i: int| 0 <= i < kept.len() implies s.contains(#[trigger] kept[i]) && p(
            kept[i],
        ) by {
            if i < before.len() {
                assert(kept[i] == before[i]);
                let j = choose|j: int| 0 <= j < front.len() && front[j] == before[i];
                assert(s[j] == kept[i]);
            } else {
                assert(s[s.len() - 1] == kept[i]);
            }
        }
        assert forall|i: int| 0 <= i < s.len() && p(#[trigger] s[i]) implies kept.contains(
            s[i],
        ) by {
            if i < front.len() {
                assert(front[i] == s[i]);
                let j = choose|j: int| 0 <= j < before.len() && before[j] == s[i];
                assert(kept[j] == s[i]);
            } else {
                assert(kept[kept.len() - 1] == s[i]);
            }
        }
    }
}

/// Predicates that agree on the numbers below `n` leave the same ones.
pub(crate) proof fn lemma_numbers_agree(n: nat, p: spec_fn(int) -> bool, q: spec_fn(int) -> bool)
    requires
        forall|i: int| 0 <= i < n ==> #[trigger] p(i) == q(i),
    ensures
        Seq::new(n, |i: int| i).filter(p) == Seq::new(n, |i: int| i).filter(q),
    decreases n,
{
    lemma_numbers_filter(n, p);
    lemma_numbers_filter(n, q);
    if n > 0 {
        lemma_numbers_agree((n - 1) as nat, p, q);
    }
}

} // verus!
