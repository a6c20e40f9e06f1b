//! Facts about what a sequence holds as it grows and shrinks at its end.

use vstd::prelude::*;

verus! {

/// What the first `n + 1` entries of a sequence hold: what the first `n`
/// hold, and the entry after them. In a sequence without duplicates that
/// entry is not among the first `n`.
pub proof fn lemma_take_step<T>(s: Seq<T>, n: int)
    requires
        0 <= n < s.len(),
    ensures
        forall|x: T| #[trigger] s.take(n + 1).contains(x) <==> s.take(n).contains(x) || x == s[n],
        s.no_duplicates() ==> !s.take(n).contains(s[n]),
{
    let shorter = s.take(n);
    let longer = s.take(n + 1);
    assert forall|x: T| #[trigger] longer.contains(x) <==> shorter.contains(x) || x == s[n] by {
        if shorter.contains(x) {
            let i = choose|i: int| 0 <= i < shorter.len() && shorter[i] == x;
            assert(longer[i] == x);
        }
        if x == s[n] {
            assert(longer[n] == x);
        }
        if longer.contains(x) {
            let i = choose|i: int| 0 <= i < longer.len() && longer[i] == x;
            if i < n {
                assert(shorter[i] == x);
            }
        }
    }
    if s.no_duplicates() && shorter.contains(s[n]) {
        let i = choose|i: int| 0 <= i < shorter.len() && shorter[i] == s[n];
        assert(s[i] == s[n]);
    }
}

/// What a sequence holds once one more entry stands at its end.
pub proof fn lemma_push_contains<T>(s: Seq<T>, last: T)
    ensures
        forall|x: T| #[trigger] s.push(last).contains(x) <==> s.contains(x) || x == last,
        s.no_duplicates() && !s.contains(last) ==> s.push(last).no_duplicates(),
{
    let longer = s.push(last);
    assert forall|x: T| #[trigger] longer.contains(x) <==> s.contains(x) || x == last by {
        if s.contains(x) {
            let i = choose|i: int| 0 <= i < s.len() && s[i] == x;
            assert(longer[i] == x);
        }
        if x == last {
            assert(longer[s.len() as int] == x);
        }
        if longer.contains(x) {
            let i = choose|i: int| 0 <= i < longer.len() && longer[i] == x;
            if i < s.len() {
                assert(s[i] == x);
            }
        }
    }
    if s.no_duplicates() && !s.contains(last) {
        assert forall|i: int, j: int|
            0 <= i < longer.len() && 0 <= j < longer.len() && i != j implies longer[i]
            != longer[j] by {
            if i < s.len() {
                assert(s.contains(longer[i]));
            }
            if j < s.len() {
                assert(s.contains(longer[j]));
            }
        }
    }
}

/// What a sequence holds once its last entry is gone.
pub proof fn lemma_drop_last_contains<T>(s: Seq<T>)
    requires
        s.len() > 0,
    ensures
        forall|x: T| #[trigger] s.contains(x) ==> s.drop_last().contains(x) || x == s.last(),
{
    let shorter = s.drop_last();
    assert forall|x: T| #[trigger] s.contains(x) implies shorter.contains(x) || x == s.last() by {
        let i = choose|i: int| 0 <= i < s.len() && s[i] == x;
        if i < s.len() - 1 {
            assert(shorter[i] == x);
        }
    }
}

} // verus!
