//! The shared model of a candidate scan: every query family walks its
//! candidate list once, maps each candidate to an optional match, and keeps
//! the matches in candidate order. The facts proved here hold for any
//! per-candidate outcome.

use vstd::prelude::*;

verus! {

/// The matches among `outcomes[from .. to]`, in order.
pub open spec fn matches_of<Y>(outcomes: Seq<Option<Y>>, from: int, to: int) -> Seq<Y>
    decreases to - from,
{
    if from < to {
        match outcomes[from] {
            Option::Some(y) => seq![y] + matches_of(outcomes, from + 1, to),
            Option::None => matches_of(outcomes, from + 1, to),
        }
    } else {
        Seq::empty()
    }
}

/// Scanning a range is scanning its two halves in turn.
pub proof fn lemma_matches_of_split<Y>(outcomes: Seq<Option<Y>>, a: int, b: int, c: int)
    requires
        a <= b <= c,
    ensures
        matches_of(outcomes, a, c) == matches_of(outcomes, a, b) + matches_of(outcomes, b, c),
    decreases b - a,
{
    if a == b {
        assert(matches_of(outcomes, a, b) + matches_of(outcomes, b, c) =~= matches_of(
            outcomes,
            b,
            c,
        ));
    } else {
        lemma_matches_of_split(outcomes, a + 1, b, c);
        match outcomes[a] {
            Option::Some(y) => {
                assert(seq![y] + (matches_of(outcomes, a + 1, b) + matches_of(outcomes, b, c))
                    =~= (seq![y] + matches_of(outcomes, a + 1, b)) + matches_of(outcomes, b, c));
            },
            Option::None => {},
        }
    }
}

/// A range of failing candidates contributes no match.
pub proof fn lemma_matches_of_none<Y>(outcomes: Seq<Option<Y>>, a: int, b: int)
    requires
        a <= b,
        forall|i: int| a <= i < b ==> outcomes[i] is None,
    ensures
        matches_of(outcomes, a, b) == Seq::<Y>::empty(),
    decreases b - a,
{
    if a < b {
        lemma_matches_of_none(outcomes, a + 1, b);
    }
}

/// A single passing candidate contributes exactly its match.
pub proof fn lemma_matches_of_single<Y>(outcomes: Seq<Option<Y>>, a: int, y: Y)
    requires
        outcomes[a] == Option::Some(y),
    ensures
        matches_of(outcomes, a, a + 1) == seq![y],
{
    assert(seq![y] + matches_of(outcomes, a + 1, a + 1) =~= seq![y]);
}

/// A value is among the matches exactly when some candidate of the range
/// produced it.
pub proof fn lemma_matches_of_contains<Y>(outcomes: Seq<Option<Y>>, a: int, b: int, y: Y)
    requires
        a <= b,
    ensures
        matches_of(outcomes, a, b).contains(y) <==> exists|i: int|
            a <= i < b && outcomes[i] == Option::Some(y),
    decreases b - a,
{
    if a < b {
        lemma_matches_of_contains(outcomes, a + 1, b, y);
        let rest = matches_of(outcomes, a + 1, b);
        match outcomes[a] {
            Option::Some(z) => {
                let whole = seq![z] + rest;
                if y == z {
                    assert(whole[0] == y);
                    assert(whole.contains(y));
                    assert(a <= a < b && outcomes[a] == Option::Some(y));
                } else {
                    if whole.contains(y) {
                        let k = choose|k: int| 0 <= k < whole.len() && whole[k] == y;
                        assert(k >= 1);
                        assert(rest[k - 1] == y);
                        assert(rest.contains(y));
                    }
                    if rest.contains(y) {
                        let k = choose|k: int| 0 <= k < rest.len() && rest[k] == y;
                        assert(whole[k + 1] == y);
                        assert(whole.contains(y));
                    }
                }
            },
            Option::None => {
                if exists|i: int| a <= i < b && outcomes[i] == Option::Some(y) {
                    let i = choose|i: int| a <= i < b && outcomes[i] == Option::Some(y);
                    assert(a + 1 <= i < b);
                }
            },
        }
    }
}

/// Law: a scan's matches are a function of the candidate handles alone.
/// When two candidate lists hold the same handles, in whatever order and
/// multiplicity, and each handle always produces the same outcome, the two
/// scans produce the same collection of matches.
pub proof fn lemma_matches_of_requery<Y>(
    o1: Seq<Option<Y>>,
    h1: Seq<u64>,
    o2: Seq<Option<Y>>,
    h2: Seq<u64>,
)
    requires
        o1.len() == h1.len(),
        o2.len() == h2.len(),
        forall|i: int, j: int|
            0 <= i < h1.len() && 0 <= j < h2.len() && h1[i] == h2[j] ==> o1[i] == o2[j],
        forall|h: u64| h1.contains(h) <==> h2.contains(h),
    ensures
        forall|y: Y|
            matches_of(o1, 0, o1.len() as int).contains(y) <==> matches_of(
                o2,
                0,
                o2.len() as int,
            ).contains(y),
{
    assert forall|y: Y|
        matches_of(o1, 0, o1.len() as int).contains(y) <==> matches_of(
            o2,
            0,
            o2.len() as int,
        ).contains(y) by {
        lemma_matches_of_contains(o1, 0, o1.len() as int, y);
        lemma_matches_of_contains(o2, 0, o2.len() as int, y);
        if exists|i: int| 0 <= i < o1.len() && o1[i] == Option::Some(y) {
            let i = choose|i: int| 0 <= i < o1.len() && o1[i] == Option::Some(y);
            assert(h1.contains(h1[i]));
            assert(h2.contains(h1[i]));
            let j = choose|j: int| 0 <= j < h2.len() && h2[j] == h1[i];
            assert(o2[j] == o1[i]);
        }
        if exists|j: int| 0 <= j < o2.len() && o2[j] == Option::Some(y) {
            let j = choose|j: int| 0 <= j < o2.len() && o2[j] == Option::Some(y);
            assert(h2.contains(h2[j]));
            assert(h1.contains(h2[j]));
            let i = choose|i: int| 0 <= i < h1.len() && h1[i] == h2[j];
            assert(o1[i] == o2[j]);
        }
    }
}

} // verus!
