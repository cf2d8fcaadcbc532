//! Facts about keeping part of a sequence.

use vstd::prelude::*;

verus! {

/// Two tests that agree on every element of a sequence keep the same part of
/// it.
pub proof fn lemma_filter_agree<A>(s: Seq<A>, p: spec_fn(A) -> bool, q: spec_fn(A) -> bool)
    requires
        forall|i: int| 0 <= i < s.len() ==> p(#[trigger] s[i]) == q(s[i]),
    ensures
        s.filter(p) == s.filter(q),
    decreases s.len(),
{
    reveal(Seq::filter);
    if s.len() > 0 {
        let front = s.drop_last();
        assert forall|i: int| 0 <= i < front.len() implies p(#[trigger] front[i]) == q(front[i]) by {
            assert(front[i] == s[i]);
        }
        lemma_filter_agree(front, p, q);
        assert(p(s.last()) == q(s.last()));
    }
}

/// Keeping by `q` what was kept by `p` is keeping by `q` alone, where `q`
/// holds only of elements of which `p` holds.
pub proof fn lemma_filter_of_filter<A>(s: Seq<A>, p: spec_fn(A) -> bool, q: spec_fn(A) -> bool)
    requires
        forall|i: int| 0 <= i < s.len() && q(#[trigger] s[i]) ==> p(s[i]),
    ensures
        s.filter(p).filter(q) == s.filter(q),
    decreases s.len(),
{
    reveal(Seq::filter);
    if s.len() > 0 {
        let front = s.drop_last();
        let last = s.last();
        assert forall|i: int| 0 <= i < front.len() && q(#[trigger] front[i]) implies p(
            front[i],
        ) by {
            assert(front[i] == s[i]);
        }
        lemma_filter_of_filter(front, p, q);
        if p(last) {
            front.filter(p).lemma_filter_push(last, q);
        } else {
            assert(!q(last));
        }
    }
}

/// The part kept of a sequence holds exactly the elements of the sequence
/// that pass the test, and none twice if the sequence held none twice.
pub proof fn lemma_filter_members<A>(s: Seq<A>, p: spec_fn(A) -> bool)
    ensures
        forall|x: A| s.filter(p).contains(x) <==> (s.contains(x) && p(x)),
        s.no_duplicates() ==> s.filter(p).no_duplicates(),
        s.filter(p).len() <= s.len(),
    decreases s.len(),
{
    reveal(Seq::filter);
    let kept = s.filter(p);
    if s.len() == 0 {
        assert forall|x: A| kept.contains(x) <==> (s.contains(x) && p(x)) by {}
    } else {
        let front = s.drop_last();
        let last = s.last();
        let kept_front = front.filter(p);
        lemma_filter_members(front, p);
        assert forall|x: A| front.contains(x) implies s.contains(x) by {
            let k = choose|k: int| 0 <= k < front.len() && front[k] == x;
            assert(s[k] == x);
        }
        assert forall|x: A| s.contains(x) implies front.contains(x) || x == last by {
            let k = choose|k: int| 0 <= k < s.len() && s[k] == x;
            if k < front.len() {
                assert(front[k] == x);
            }
        }
        assert(s.contains(last)) by {
            assert(s[s.len() - 1] == last);
        }
        if p(last) {
            assert(kept == kept_front.push(last));
            assert forall|x: A| kept.contains(x) <==> (s.contains(x) && p(x)) by {
                if kept.contains(x) {
                    let k = choose|k: int| 0 <= k < kept.len() && kept[k] == x;
                    if k < kept_front.len() {
                        assert(kept_front[k] == x);
                        assert(kept_front.contains(x));
                    }
                }
                if s.contains(x) && p(x) {
                    if front.contains(x) {
                        assert(kept_front.contains(x));
                        let k = choose|k: int| 0 <= k < kept_front.len() && kept_front[k] == x;
                        assert(kept[k] == x);
                    } else {
                        assert(kept[kept.len() - 1] == x);
                    }
                }
            }
            if s.no_duplicates() {
                assert(front.no_duplicates()) by {
                    assert forall|i: int, j: int|
                        0 <= i < front.len() && 0 <= j < front.len() && i != j implies front[i]
                        != front[j] by {
                        assert(front[i] == s[i] && front[j] == s[j]);
                    }
                }
                assert(!front.contains(last)) by {
                    if front.contains(last) {
                        let k = choose|k: int| 0 <= k < front.len() && front[k] == last;
                        assert(s[k] == s[s.len() - 1]);
                    }
                }
                assert forall|i: int, j: int|
                    0 <= i < kept.len() && 0 <= j < kept.len() && i != j implies kept[i]
                    != kept[j] by {
                    if i < kept_front.len() && j < kept_front.len() {
                        assert(kept_front[i] != kept_front[j]);
                    } else if i < kept_front.len() {
                        assert(kept_front.contains(kept_front[i]));
                    } else {
                        assert(kept_front.contains(kept_front[j]));
                    }
                }
            }
        } else {
            assert(kept == kept_front);
            if s.no_duplicates() {
                assert(front.no_duplicates()) by {
                    assert forall|i: int, j: int|
                        0 <= i < front.len() && 0 <= j < front.len() && i != j implies front[i]
                        != front[j] by {
                        assert(front[i] == s[i] && front[j] == s[j]);
                    }
                }
            }
        }
    }
}

} // verus!
