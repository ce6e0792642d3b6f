//! Facts about filtered sequences.

use vstd::prelude::*;

verus! {

/// Filtering twice keeps what passes both tests.
pub proof fn lemma_filter_twice<A>(
    s: Seq<A>,
    first: spec_fn(A) -> bool,
    second: spec_fn(A) -> bool,
    both: spec_fn(A) -> bool,
)
    requires
        forall|a: A| #[trigger] both(a) == (first(a) && second(a)),
    ensures
        s.filter(first).filter(second) == s.filter(both),
    decreases s.len(),
{
    reveal(Seq::filter);
    if s.len() > 0 {
        let head = s.drop_last();
        let x = s.last();
        lemma_filter_twice(head, first, second, both);
        if first(x) {
            let t = head.filter(first);
            assert(t.push(x).drop_last() =~= t);
            assert(t.push(x).last() == x);
        }
    }
}

/// Filtering by a test that everything passes keeps everything.
pub proof fn lemma_filter_all<A>(s: Seq<A>, keep: spec_fn(A) -> bool)
    requires
        forall|a: A| #[trigger] keep(a),
    ensures
        s.filter(keep) == s,
    decreases s.len(),
{
    reveal(Seq::filter);
    if s.len() > 0 {
        lemma_filter_all(s.drop_last(), keep);
        assert(s.drop_last().push(s.last()) =~= s);
    }
}

/// What passes a filter was there before.
pub proof fn lemma_filter_members<A>(s: Seq<A>, keep: spec_fn(A) -> bool)
    ensures
        forall|a: A| s.filter(keep).contains(a) ==> s.contains(a) && keep(a),
    decreases s.len(),
{
    reveal(Seq::filter);
    if s.len() > 0 {
        let head = s.drop_last();
        let last = s.last();
        let sooner = head.filter(keep);
        let kept = s.filter(keep);
        lemma_filter_members(head, keep);
        assert(kept == if keep(last) {
            sooner.push(last)
        } else {
            sooner
        });
        assert forall|a: A| kept.contains(a) implies s.contains(a) && keep(a) by {
            let i = choose|i: int| 0 <= i < kept.len() && kept[i] == a;
            if keep(last) && i == sooner.len() {
                assert(s[s.len() - 1] == a);
            } else {
                assert(sooner[i] == a);
                assert(sooner.contains(a));
                assert(head.filter(keep).contains(a));
                assert(head.contains(a));
                let k = choose|k: int| 0 <= k < head.len() && head[k] == a;
                assert(0 <= k < head.len() && head[k] == a);
                assert(s[k] == a);
            }
        }
    }
}

/// Filtering a sequence in which nothing occurs twice leaves one in which
/// nothing occurs twice.
pub proof fn lemma_filter_keeps_distinct<A>(s: Seq<A>, keep: spec_fn(A) -> bool)
    requires
        s.no_duplicates(),
    ensures
        s.filter(keep).no_duplicates(),
    decreases s.len(),
{
    reveal(Seq::filter);
    if s.len() > 0 {
        let head = s.drop_last();
        let last = s.last();
        let sooner = head.filter(keep);
        let kept = s.filter(keep);
        assert forall|i: int, j: int| 0 <= i < head.len() && 0 <= j < head.len() && i
            != j implies head[i] != head[j] by {
            assert(head[i] == s[i] && head[j] == s[j]);
        }
        lemma_filter_keeps_distinct(head, keep);
        lemma_filter_members(head, keep);
        assert(kept == if keep(last) {
            sooner.push(last)
        } else {
            sooner
        });
        if keep(last) {
            assert forall|i: int, j: int| 0 <= i < kept.len() && 0 <= j < kept.len() && i
                != j implies kept[i] != kept[j] by {
                let end = sooner.len() as int;
                if i < end && j < end {
                    assert(kept[i] == sooner[i] && kept[j] == sooner[j]);
                } else {
                    let other = if i == end { j } else { i };
                    assert(kept[other] == sooner[other]);
                    assert(sooner.contains(sooner[other]));
                    assert(head.contains(sooner[other]));
                    let k = choose|k: int| 0 <= k < head.len() && head[k] == sooner[other];
                    assert(s[k] == sooner[other]);
                    assert(s[k] != s[s.len() - 1]);
                }
            }
        }
    }
}

} // verus!
