//! Picking out the recovered clones that hold nothing but version-control
//! metadata, and the directories of the recovery area that hold repositories.

use vstd::prelude::*;
use crate::texts;
use crate::error::PipelineError;

verus! {

/// An entry of the recovery area as it was read: its path, whether its
/// metadata says "directory", and the names of its direct contents (read for
/// directories only; empty otherwise).
#[derive(Clone, Debug)]
pub struct AreaEntry {
    pub path: String,
    pub is_dir: bool,
    pub contents: Vec<String>,
}

/// The name of a repository's internal bookkeeping directory.
pub open spec fn metadata_marker() -> Seq<char> {
    ".git"@
}

/// A clone is empty when its direct contents are the metadata directory alone.
pub open spec fn empty_clone(contents: Seq<String>) -> bool {
    contents.len() == 1 && contents[0]@ == metadata_marker()
}

/// An entry of the recovery area that holds a repository: neither the empty
/// area nor the duplicate area, which live alongside the clones.
pub open spec fn holds_repository(e: AreaEntry, empty_root: Seq<char>, duplicate_root: Seq<char>) -> bool {
    e.path@ != empty_root && e.path@ != duplicate_root
}

/// The paths of the empty clones among `es`, in order.
pub open spec fn empty_clones(es: Seq<AreaEntry>, empty_root: Seq<char>, duplicate_root: Seq<char>) -> Seq<Seq<char>>
    decreases es.len(),
{
    if es.len() == 0 {
        Seq::empty()
    } else {
        let e = es.last();
        empty_clones(es.drop_last(), empty_root, duplicate_root) + if holds_repository(e, empty_root, duplicate_root)
            && empty_clone(e.contents@) {
            seq![e.path@]
        } else {
            Seq::empty()
        }
    }
}

/// No two entries of the listing share a path, as in any directory read.
pub open spec fn distinct_paths(es: Seq<AreaEntry>) -> bool {
    forall|i: int, j: int| 0 <= i < es.len() && 0 <= j < es.len() && i != j ==> #[trigger] es[i].path@ != #[trigger] es[j].path@
}

proof fn lemma_empty_clones_members(es: Seq<AreaEntry>, empty_root: Seq<char>, duplicate_root: Seq<char>)
    ensures
        forall|p: Seq<char>| #[trigger] empty_clones(es, empty_root, duplicate_root).contains(p) ==> exists|j: int|
            0 <= j < es.len() && #[trigger] es[j].path@ == p && holds_repository(es[j], empty_root, duplicate_root)
                && empty_clone(es[j].contents@),
        forall|j: int|
            0 <= j < es.len() && holds_repository(es[j], empty_root, duplicate_root) && empty_clone(es[j].contents@)
                ==> empty_clones(es, empty_root, duplicate_root).contains(#[trigger] es[j].path@),
    decreases es.len(),
{
    if es.len() > 0 {
        let init = es.drop_last();
        lemma_empty_clones_members(init, empty_root, duplicate_root);
        let all = empty_clones(es, empty_root, duplicate_root);
        let before = empty_clones(init, empty_root, duplicate_root);
        assert forall|p: Seq<char>| #[trigger] all.contains(p) implies exists|j: int|
            0 <= j < es.len() && #[trigger] es[j].path@ == p && holds_repository(es[j], empty_root, duplicate_root)
                && empty_clone(es[j].contents@) by {
            let k = choose|k: int| 0 <= k < all.len() && all[k] == p;
            if k < before.len() {
                assert(before[k] == p);
                assert(before.contains(p));
                let j = choose|j: int|
                    0 <= j < init.len() && #[trigger] init[j].path@ == p && holds_repository(init[j], empty_root, duplicate_root)
                        && empty_clone(init[j].contents@);
                assert(es[j] == init[j]);
            } else {
                assert(es[es.len() - 1] == es.last());
            }
        }
        assert forall|j: int|
            0 <= j < es.len() && holds_repository(es[j], empty_root, duplicate_root) && empty_clone(es[j].contents@)
                implies all.contains(#[trigger] es[j].path@) by {
            if j < init.len() {
                assert(init[j] == es[j]);
                assert(before.contains(init[j].path@));
                let k = choose|k: int| 0 <= k < before.len() && before[k] == es[j].path@;
                assert(all[k] == es[j].path@);
            } else {
                assert(all[all.len() - 1] == es[j].path@);
            }
        }
    }
}

/// A clone of the recovery area moves to the empty area if and only if its
/// direct contents are the metadata directory alone: the marker beside any
/// other entry keeps it where it is.
pub proof fn lemma_moved_iff_marker_alone(es: Seq<AreaEntry>, i: int, empty_root: Seq<char>, duplicate_root: Seq<char>)
    requires
        distinct_paths(es),
        0 <= i < es.len(),
        holds_repository(es[i], empty_root, duplicate_root),
    ensures
        empty_clones(es, empty_root, duplicate_root).contains(es[i].path@) <==> empty_clone(es[i].contents@),
        es[i].contents@.len() > 1 ==> !empty_clones(es, empty_root, duplicate_root).contains(es[i].path@),
{
    lemma_empty_clones_members(es, empty_root, duplicate_root);
    if empty_clones(es, empty_root, duplicate_root).contains(es[i].path@) {
        let j = choose|j: int|
            0 <= j < es.len() && #[trigger] es[j].path@ == es[i].path@ && holds_repository(es[j], empty_root, duplicate_root)
                && empty_clone(es[j].contents@);
        assert(j == i);
    }
}

/// The paths of the directories among `es` that hold repositories, in order;
/// entries that are no directory are passed over.
pub open spec fn repository_dirs(es: Seq<AreaEntry>, empty_root: Seq<char>, duplicate_root: Seq<char>) -> Seq<Seq<char>>
    decreases es.len(),
{
    if es.len() == 0 {
        Seq::empty()
    } else {
        let e = es.last();
        repository_dirs(es.drop_last(), empty_root, duplicate_root) + if e.is_dir && holds_repository(
            e,
            empty_root,
            duplicate_root,
        ) {
            seq![e.path@]
        } else {
            Seq::empty()
        }
    }
}

/// Whether a clone whose direct contents are named `contents` is empty: the
/// metadata directory and nothing else. The marker beside any other entry
/// leaves the clone where it is.
pub fn is_empty_clone(contents: &Vec<String>) -> (r: bool)
    ensures
        r == empty_clone(contents@),
{
    let marker = ".git".to_owned();
    proof {
        reveal_strlit(".git");
    }
    contents.len() == 1 && contents[0] == marker
}

/// Decides which clones of the recovery area move to the empty area: the
/// directories that hold a repository and whose contents are the metadata
/// directory alone. An entry of the area that is no directory stops the pass.
pub fn move_empty_recovered_repos(entries: &Vec<AreaEntry>, empty_root: &String, duplicate_root: &String) -> (r:
    Result<Vec<String>, PipelineError>)
    ensures
        r is Ok <==> forall|i: int| 0 <= i < entries@.len() ==> #[trigger] entries@[i].is_dir,
        r is Ok ==> texts(r->Ok_0@) == empty_clones(entries@, empty_root@, duplicate_root@),
        r is Err ==> exists|i: int|
            0 <= i < entries@.len() && !(#[trigger] entries@[i]).is_dir
                && (forall|k: int| 0 <= k < i ==> #[trigger] entries@[k].is_dir)
                && r->Err_0 is Classification && r->Err_0->Classification_path == entries@[i].path,
{
    let mut moves: Vec<String> = Vec::new();
    let mut i: usize = 0;
    while i < entries.len()
        invariant
            0 <= i <= entries.len(),
            forall|k: int| 0 <= k < i ==> #[trigger] entries@[k].is_dir,
            texts(moves@) == empty_clones(entries@.take(i as int), empty_root@, duplicate_root@),
        decreases entries.len() - i,
    {
        let e = &entries[i];
        proof {
            assert(entries@.take(i + 1).drop_last() =~= entries@.take(i as int));
            assert(entries@.take(i + 1).last() == *e);
        }
        if !e.is_dir {
            return Err(PipelineError::Classification { path: e.path.clone(), detail: "not a directory".to_owned() });
        }
        if !(e.path == *empty_root) && !(e.path == *duplicate_root) && is_empty_clone(&e.contents) {
            let ghost before = moves@;
            moves.push(e.path.clone());
            assert(texts(moves@) =~= texts(before).push(e.path@));
        } else {
            assert(empty_clones(entries@.take(i + 1), empty_root@, duplicate_root@) =~= empty_clones(
                entries@.take(i as int),
                empty_root@,
                duplicate_root@,
            ));
        }
        i = i + 1;
    }
    assert(entries@.take(i as int) =~= entries@);
    Ok(moves)
}

/// The directories of the recovery area that hold repositories, in the order
/// they were listed: entries that are no directory are passed over, as are the
/// empty and duplicate areas.
pub fn repository_paths(entries: &Vec<AreaEntry>, empty_root: &String, duplicate_root: &String) -> (r: Vec<String>)
    ensures
        texts(r@) == repository_dirs(entries@, empty_root@, duplicate_root@),
{
    let mut dirs: Vec<String> = Vec::new();
    let mut i: usize = 0;
    while i < entries.len()
        invariant
            0 <= i <= entries.len(),
            texts(dirs@) == repository_dirs(entries@.take(i as int), empty_root@, duplicate_root@),
        decreases entries.len() - i,
    {
        let e = &entries[i];
        proof {
            assert(entries@.take(i + 1).drop_last() =~= entries@.take(i as int));
            assert(entries@.take(i + 1).last() == *e);
        }
        if e.is_dir && !(e.path == *empty_root) && !(e.path == *duplicate_root) {
            let ghost before = dirs@;
            dirs.push(e.path.clone());
            assert(texts(dirs@) =~= texts(before).push(e.path@));
        } else {
            assert(repository_dirs(entries@.take(i + 1), empty_root@, duplicate_root@) =~= repository_dirs(
                entries@.take(i as int),
                empty_root@,
                duplicate_root@,
            ));
        }
        i = i + 1;
    }
    assert(entries@.take(i as int) =~= entries@);
    dirs
}

/// The number of directories among `es`.
pub open spec fn dir_count(es: Seq<AreaEntry>) -> nat
    decreases es.len(),
{
    if es.len() == 0 {
        0
    } else {
        dir_count(es.drop_last()) + if es.last().is_dir {
            1nat
        } else {
            0nat
        }
    }
}

/// Counts the directories of a listing, as the run reports for each area.
pub fn count_directories(entries: &Vec<AreaEntry>) -> (r: usize)
    ensures
        r == dir_count(entries@),
{
    let mut count: usize = 0;
    let mut i: usize = 0;
    while i < entries.len()
        invariant
            0 <= i <= entries.len(),
            count == dir_count(entries@.take(i as int)),
            count <= i,
        decreases entries.len() - i,
    {
        proof {
            assert(entries@.take(i + 1).drop_last() =~= entries@.take(i as int));
        }
        if entries[i].is_dir {
            count = count + 1;
        }
        i = i + 1;
    }
    assert(entries@.take(i as int) =~= entries@);
    count
}

} // verus!
