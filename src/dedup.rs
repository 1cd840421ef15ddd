//! Removing clones that share a fingerprint: the first clone met with a given
//! fingerprint stays, every later one goes to the duplicate area.

use vstd::prelude::*;
use std::collections::HashMap;
use crate::fingerprint::fingerprint_of;

verus! {

/// What the deduplication pass decides for one repository.
#[derive(Clone, Copy, Debug, PartialEq, Eq, Structural)]
pub enum Classification {
    /// The first repository met with its fingerprint: it stays.
    Unique,
    /// A later repository with the fingerprint of the one at the given
    /// position: it moves to the duplicate area.
    DuplicateOf(usize),
}

/// The decisions of a deduplication pass, one per repository in the order met,
/// with the number kept and the number moved.
#[derive(Clone, Debug)]
pub struct DedupOutcome {
    pub decisions: Vec<Classification>,
    pub unique_kept: usize,
    pub duplicates: usize,
}

/// No repository before position `i` has the fingerprint of the one at `i`.
pub open spec fn first_with(fps: Seq<u64>, i: int) -> bool {
    forall|j: int| 0 <= j < i ==> fps[j] != fps[i]
}

/// The decision owed to the repository at position `i`: kept if it is the first
/// with its fingerprint, else a duplicate of the first one that has it.
pub open spec fn decided(fps: Seq<u64>, i: int, c: Classification) -> bool {
    match c {
        Classification::Unique => first_with(fps, i),
        Classification::DuplicateOf(j) => j < i && fps[j as int] == fps[i] && first_with(fps, j as int),
    }
}

/// The number of duplicates among the decisions.
pub open spec fn duplicate_count(cs: Seq<Classification>) -> nat
    decreases cs.len(),
{
    if cs.len() == 0 {
        0
    } else {
        duplicate_count(cs.drop_last()) + if cs.last() is DuplicateOf {
            1nat
        } else {
            0nat
        }
    }
}

/// The fingerprints of the repositories that a pass keeps, in order.
pub open spec fn survivors(fps: Seq<u64>) -> Seq<u64>
    decreases fps.len(),
{
    if fps.len() == 0 {
        Seq::empty()
    } else {
        survivors(fps.drop_last()) + if first_with(fps, fps.len() - 1) {
            seq![fps.last()]
        } else {
            Seq::empty()
        }
    }
}

/// Decides, for repositories met in the order given with fingerprints `fps`,
/// which stay and which are duplicates, and counts both.
pub fn move_duplicate_recovered_repos(fps: &Vec<u64>) -> (r: DedupOutcome)
    ensures
        r.decisions@.len() == fps@.len(),
        forall|i: int| 0 <= i < fps@.len() ==> decided(fps@, i, #[trigger] r.decisions@[i]),
        r.duplicates == duplicate_count(r.decisions@),
        r.unique_kept + r.duplicates == fps@.len(),
        fps@.no_duplicates() ==> r.duplicates == 0,
{
    let mut seen: HashMap<u64, usize> = HashMap::new();
    let mut decisions: Vec<Classification> = Vec::new();
    let mut unique_kept: usize = 0;
    let mut duplicates: usize = 0;
    let mut i: usize = 0;
    while i < fps.len()
        invariant
            0 <= i <= fps.len(),
            decisions@.len() == i,
            forall|k: int| 0 <= k < i ==> decided(fps@, k, #[trigger] decisions@[k]),
            forall|f: u64| #[trigger] seen@.contains_key(f) <==> exists|j: int| 0 <= j < i && fps@[j] == f,
            forall|f: u64|
                #[trigger] seen@.contains_key(f) ==> seen@[f] < i && fps@[seen@[f] as int] == f && first_with(
                    fps@,
                    seen@[f] as int,
                ),
            duplicates == duplicate_count(decisions@),
            unique_kept + duplicates == i,
            fps@.no_duplicates() ==> duplicates == 0,
        decreases fps.len() - i,
    {
        let f = fps[i];
        let ghost before = decisions@;
        match seen.get(&f) {
            Some(first) => {
                let j = *first;
                decisions.push(Classification::DuplicateOf(j));
                duplicates = duplicates + 1;
                assert(fps@[j as int] == fps@[i as int]);
            },
            None => {
                assert(first_with(fps@, i as int)) by {
                    assert forall|j: int| 0 <= j < i implies fps@[j] != fps@[i as int] by {
                        if fps@[j] == f {
                            assert(seen@.contains_key(f));
                        }
                    }
                }
                seen.insert(f, i);
                decisions.push(Classification::Unique);
                unique_kept = unique_kept + 1;
            },
        }
        assert(decisions@.drop_last() =~= before);
        i = i + 1;
    }
    DedupOutcome { decisions, unique_kept, duplicates }
}

proof fn lemma_survivors_from(fps: Seq<u64>)
    ensures
        forall|f: u64| #[trigger] survivors(fps).contains(f) ==> fps.contains(f),
        survivors(fps).no_duplicates(),
    decreases fps.len(),
{
    if fps.len() > 0 {
        let init = fps.drop_last();
        lemma_survivors_from(init);
        assert forall|f: u64| #[trigger] survivors(fps).contains(f) implies fps.contains(f) by {
            let k = choose|k: int| 0 <= k < survivors(fps).len() && survivors(fps)[k] == f;
            if k < survivors(init).len() {
                assert(survivors(init)[k] == f);
                assert(survivors(init).contains(f));
                let m = choose|m: int| 0 <= m < init.len() && init[m] == f;
                assert(fps[m] == f);
            } else {
                assert(fps[fps.len() - 1] == f);
            }
        }
        if first_with(fps, fps.len() - 1) {
            let last = fps.last();
            if survivors(init).contains(last) {
                let m = choose|m: int| 0 <= m < init.len() && init[m] == last;
                assert(fps[m] == last);
            }
            let all = survivors(fps);
            assert forall|a: int, b: int| 0 <= a < all.len() && 0 <= b < all.len() && a != b implies all[a] != all[b] by {
                if a == all.len() - 1 {
                    assert(survivors(init)[b] == all[b]);
                    assert(survivors(init).contains(all[b]));
                } else if b == all.len() - 1 {
                    assert(survivors(init)[a] == all[a]);
                    assert(survivors(init).contains(all[a]));
                } else {
                    assert(survivors(init)[a] == all[a] && survivors(init)[b] == all[b]);
                }
            }
        } else {
            assert(survivors(fps) =~= survivors(init));
        }
    }
}

/// A second pass over what a first pass kept moves nothing: the kept
/// repositories' fingerprints are pairwise distinct, so each of them is the
/// first with its fingerprint.
pub proof fn lemma_dedup_is_idempotent(fps: Seq<u64>)
    ensures
        survivors(fps).no_duplicates(),
        forall|i: int| 0 <= i < survivors(fps).len() ==> #[trigger] first_with(survivors(fps), i),
{
    lemma_survivors_from(fps);
    let s = survivors(fps);
    assert forall|i: int| 0 <= i < s.len() implies #[trigger] first_with(s, i) by {
        assert forall|j: int| 0 <= j < i implies s[j] != s[i] by {}
    }
}

/// Two clones of one history (the same reference lines and the same origin)
/// and a third repository known only by its HEAD, met in that order: the
/// first two share a fingerprint, so the pass keeps the first and moves the
/// second as its duplicate, and keeps the third unless its digest happens to
/// equal theirs. Two repositories stay and one moves.
pub proof fn lemma_two_clones_one_other(
    refs: Seq<Seq<char>>,
    origin: Seq<char>,
    head: Seq<char>,
    fps: Seq<u64>,
)
    requires
        fps.len() == 3,
        fps[0] == fingerprint_of(Some(refs), None, Some(origin)),
        fps[1] == fingerprint_of(Some(refs), None, Some(origin)),
        fps[2] == fingerprint_of(None, Some(Ok(head)), None),
        fps[2] != fps[0],
    ensures
        decided(fps, 0, Classification::Unique),
        decided(fps, 1, Classification::DuplicateOf(0)),
        decided(fps, 2, Classification::Unique),
        survivors(fps) == seq![fps[0], fps[2]],
{
    let one = fps.drop_last().drop_last();
    assert(one.len() == 1 && one.last() == fps[0]);
    assert(one.drop_last() =~= Seq::<u64>::empty());
    assert(first_with(one, 0));
    assert(survivors(one.drop_last()) =~= Seq::<u64>::empty());
    assert(survivors(one) =~= seq![fps[0]]);
    assert(!first_with(fps.drop_last(), 1)) by {
        assert(fps.drop_last()[0] == fps.drop_last()[1]);
    }
    assert(first_with(fps, 2));
    assert(survivors(fps.drop_last()) =~= seq![fps[0]]);
    assert(survivors(fps) =~= seq![fps[0], fps[2]]);
}

} // verus!
