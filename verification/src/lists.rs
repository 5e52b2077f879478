//! Facts about filtered sequences.

use vstd::prelude::*;

verus! {

/// A filter keeps exactly the items that pass it.
pub proof fn lemma_filter_contains<A>(s: Seq<A>, pred: spec_fn(A) -> bool)
    ensures
        forall|x: A| s.filter(pred).contains(x) <==> s.contains(x) && pred(x),
    decreases s.len(),
{
    reveal(Seq::filter);
    if s.len() > 0 {
        let before = s.drop_last();
        lemma_filter_contains(before, pred);
        let kept = before.filter(pred);
        assert forall|x: A| s.filter(pred).contains(x) <==> s.contains(x) && pred(x) by {
            if s.contains(x) {
                let i = choose|i: int| 0 <= i < s.len() && s[i] == x;
                if i < before.len() {
                    assert(before[i] == x);
                }
            }
            if before.contains(x) {
                let i = choose|i: int| 0 <= i < before.len() && before[i] == x;
                assert(s[i] == x);
            }
            if pred(s.last()) {
                assert(kept.push(s.last())[kept.len() as int] == s.last());
                if kept.contains(x) {
                    let i = choose|i: int| 0 <= i < kept.len() && kept[i] == x;
                    assert(kept.push(s.last())[i] == x);
                }
                if s.filter(pred).contains(x) {
                    let i = choose|i: int| 0 <= i < kept.len() + 1 && kept.push(s.last())[i] == x;
                    if i < kept.len() {
                        assert(kept[i] == x);
                    }
                }
            }
            assert(s[s.len() - 1] == s.last());
        }
    }
}

/// A filter keeps distinct items distinct.
pub proof fn lemma_filter_distinct<A>(s: Seq<A>, pred: spec_fn(A) -> bool)
    requires
        s.no_duplicates(),
    ensures
        s.filter(pred).no_duplicates(),
    decreases s.len(),
{
    reveal(Seq::filter);
    if s.len() > 0 {
        let before = s.drop_last();
        lemma_filter_distinct(before, pred);
        lemma_filter_contains(before, pred);
        if before.contains(s.last()) {
            let i = choose|i: int| 0 <= i < before.len() && before[i] == s.last();
            assert(s[i] == s[s.len() - 1]);
        }
    }
}

} // verus!
