//! Walking a directory tree and collecting every directory shaped like a bare
//! repository, nested ones included.

use vstd::prelude::*;
use vstd::seq_lib::group_to_multiset_ensures;
use vstd::multiset::Multiset;
use crate::texts;
use crate::shape::{DirEntry, bare_shape, looks_like_bare_repo};

verus! {

broadcast use group_to_multiset_ensures;

/// A directory as it was read: its path, its listing, and its subdirectories
/// (the entries of the listing whose metadata says "directory"), each read in
/// turn.
#[derive(Debug)]
pub struct DirTree {
    pub path: String,
    pub entries: Vec<DirEntry>,
    pub subdirs: Vec<DirTree>,
}

/// Every directory of the tree `t`, its root first, in depth-first pre-order.
pub open spec fn nodes_of(t: DirTree) -> Seq<DirTree> {
    seq![t] + nodes_below(t)
}

/// No two directories of the tree share a path, as in any tree read from disk.
pub open spec fn wf_tree(t: DirTree) -> bool {
    forall|i: int, j: int|
        0 <= i < nodes_of(t).len() && 0 <= j < nodes_of(t).len() && i != j
            ==> #[trigger] nodes_of(t)[i].path@ != #[trigger] nodes_of(t)[j].path@
}

/// Every directory strictly below `t`, in depth-first pre-order.
pub open spec fn nodes_below(t: DirTree) -> Seq<DirTree>
    decreases t, 1int,
{
    nodes_in(t.subdirs@)
}

/// Every directory in the trees `ts` (roots included), in depth-first pre-order.
pub open spec fn nodes_in(ts: Seq<DirTree>) -> Seq<DirTree>
    decreases ts, 0int,
{
    if ts.len() == 0 {
        Seq::empty()
    } else {
        nodes_in(ts.drop_last()) + seq![ts.last()] + nodes_below(ts.last())
    }
}

/// The paths of the directories among `nodes` that have the shape of a bare
/// repository, in order.
pub open spec fn shaped_paths(nodes: Seq<DirTree>) -> Seq<Seq<char>>
    decreases nodes.len(),
{
    if nodes.len() == 0 {
        Seq::empty()
    } else {
        shaped_paths(nodes.drop_last()) + if bare_shape(nodes.last().entries@) {
            seq![nodes.last().path@]
        } else {
            Seq::empty()
        }
    }
}

proof fn lemma_shaped_paths_concat(a: Seq<DirTree>, b: Seq<DirTree>)
    ensures
        shaped_paths(a + b) == shaped_paths(a) + shaped_paths(b),
    decreases b.len(),
{
    if b.len() == 0 {
        assert(a + b =~= a);
        assert(shaped_paths(b) =~= Seq::empty());
        assert(shaped_paths(a) + shaped_paths(b) =~= shaped_paths(a));
    } else {
        lemma_shaped_paths_concat(a, b.drop_last());
        assert((a + b).drop_last() =~= a + b.drop_last());
        assert((a + b).last() == b.last());
    }
}

/// Appends the paths of the shaped directories strictly below `dir`.
fn collect_below(dir: &DirTree, candidates: &mut Vec<String>)
    ensures
        texts(final(candidates)@) == texts(old(candidates)@) + shaped_paths(nodes_below(*dir)),
    decreases dir,
{
    let ghost start = texts(candidates@);
    let mut i: usize = 0;
    assert(dir.subdirs@.subrange(0, 0) =~= Seq::<DirTree>::empty());
    assert(start =~= start + shaped_paths(Seq::<DirTree>::empty()));
    while i < dir.subdirs.len()
        invariant
            0 <= i <= dir.subdirs.len(),
            start == texts(old(candidates)@),
            texts(candidates@) == start + shaped_paths(nodes_in(dir.subdirs@.subrange(0, i as int))),
        decreases dir.subdirs.len() - i,
    {
        let d = &dir.subdirs[i];
        let ghost before = nodes_in(dir.subdirs@.subrange(0, i as int));
        proof {
            let next = dir.subdirs@.subrange(0, i + 1);
            assert(next.drop_last() =~= dir.subdirs@.subrange(0, i as int));
            assert(next.last() == *d);
            assert(decreases_to!(dir.subdirs => dir.subdirs[i as int]));
        }
        let ghost pre = candidates@;
        if looks_like_bare_repo(&d.entries) {
            candidates.push(d.path.clone());
            assert(texts(candidates@) =~= texts(pre) + seq![d.path@]);
        }
        let ghost mid = texts(candidates@);
        proof {
            lemma_shaped_paths_concat(before, seq![*d]);
            assert(seq![*d].drop_last() =~= Seq::<DirTree>::empty());
            assert(seq![*d].last() == *d);
            assert(shaped_paths(seq![*d]) =~= shaped_paths(Seq::<DirTree>::empty()) + if bare_shape(d.entries@) {
                seq![d.path@]
            } else {
                Seq::<Seq<char>>::empty()
            });
            assert(mid =~= start + shaped_paths(before + seq![*d]));
        }
        collect_below(d, candidates);
        proof {
            lemma_shaped_paths_concat(before + seq![*d], nodes_below(*d));
            assert(texts(candidates@) =~= start + shaped_paths(before + seq![*d] + nodes_below(*d)));
        }
        i = i + 1;
    }
    assert(dir.subdirs@.subrange(0, i as int) =~= dir.subdirs@);
}

proof fn lemma_shaped_paths_members(nodes: Seq<DirTree>)
    ensures
        forall|p: Seq<char>|
            #[trigger] shaped_paths(nodes).contains(p) <==> exists|i: int|
                0 <= i < nodes.len() && bare_shape(nodes[i].entries@) && #[trigger] nodes[i].path@ == p,
        (forall|i: int, j: int|
            0 <= i < nodes.len() && 0 <= j < nodes.len() && i != j ==> #[trigger] nodes[i].path@ != #[trigger] nodes[j].path@)
            ==> shaped_paths(nodes).no_duplicates(),
    decreases nodes.len(),
{
    if nodes.len() > 0 {
        let init = nodes.drop_last();
        lemma_shaped_paths_members(init);
        let last = nodes.last();
        let tail = if bare_shape(last.entries@) { seq![last.path@] } else { Seq::<Seq<char>>::empty() };
        assert(shaped_paths(nodes) == shaped_paths(init) + tail);
        assert forall|p: Seq<char>|
            #[trigger] shaped_paths(nodes).contains(p) <==> exists|i: int|
                0 <= i < nodes.len() && bare_shape(nodes[i].entries@) && #[trigger] nodes[i].path@ == p by {
            if shaped_paths(nodes).contains(p) {
                let k = choose|k: int| 0 <= k < shaped_paths(nodes).len() && shaped_paths(nodes)[k] == p;
                if k < shaped_paths(init).len() {
                    assert(shaped_paths(init)[k] == p);
                    assert(shaped_paths(init).contains(p));
                    let i = choose|i: int| 0 <= i < init.len() && bare_shape(init[i].entries@) && #[trigger] init[i].path@ == p;
                    assert(nodes[i] == init[i]);
                } else {
                    assert(nodes[nodes.len() - 1] == last);
                }
            }
            if exists|i: int| 0 <= i < nodes.len() && bare_shape(nodes[i].entries@) && #[trigger] nodes[i].path@ == p {
                let i = choose|i: int| 0 <= i < nodes.len() && bare_shape(nodes[i].entries@) && #[trigger] nodes[i].path@ == p;
                if i < init.len() {
                    assert(init[i] == nodes[i]);
                    assert(shaped_paths(init).contains(p));
                    let k = choose|k: int| 0 <= k < shaped_paths(init).len() && shaped_paths(init)[k] == p;
                    assert(shaped_paths(nodes)[k] == p);
                } else {
                    assert(shaped_paths(nodes)[shaped_paths(nodes).len() - 1] == p);
                }
            }
        }
        if forall|i: int, j: int|
            0 <= i < nodes.len() && 0 <= j < nodes.len() && i != j ==> #[trigger] nodes[i].path@ != #[trigger] nodes[j].path@ {
            assert forall|i: int, j: int|
                0 <= i < init.len() && 0 <= j < init.len() && i != j implies #[trigger] init[i].path@ != #[trigger] init[j].path@ by {
                assert(init[i] == nodes[i] && init[j] == nodes[j]);
            }
            if bare_shape(last.entries@) {
                if shaped_paths(init).contains(last.path@) {
                    let i = choose|i: int| 0 <= i < init.len() && bare_shape(init[i].entries@) && #[trigger] init[i].path@ == last.path@;
                    assert(nodes[i] == init[i]);
                    assert(nodes[nodes.len() - 1] == last);
                }
                let all = shaped_paths(nodes);
                assert forall|a: int, b: int| 0 <= a < all.len() && 0 <= b < all.len() && a != b implies all[a] != all[b] by {
                    if a == all.len() - 1 {
                        assert(shaped_paths(init)[b] == all[b]);
                    } else if b == all.len() - 1 {
                        assert(shaped_paths(init)[a] == all[a]);
                    } else {
                        assert(shaped_paths(init)[a] == all[a] && shaped_paths(init)[b] == all[b]);
                    }
                }
            } else {
                assert(shaped_paths(nodes) =~= shaped_paths(init));
            }
        }
    }
}

/// Appends to `candidates` the path of every directory of the tree `dir`, the
/// root included, that has the shape of a bare repository, in depth-first
/// pre-order. The walk goes on below a directory that matched: repositories
/// may be nested.
pub fn find_candidate_repos(dir: &DirTree, candidates: &mut Vec<String>)
    ensures
        texts(final(candidates)@) == texts(old(candidates)@) + shaped_paths(nodes_of(*dir)),
{
    let ghost start = texts(candidates@);
    if looks_like_bare_repo(&dir.entries) {
        candidates.push(dir.path.clone());
        assert(texts(candidates@) =~= start + seq![dir.path@]);
    } else {
        assert(texts(candidates@) =~= start + Seq::<Seq<char>>::empty());
    }
    proof {
        assert(seq![*dir].drop_last() =~= Seq::<DirTree>::empty());
        assert(seq![*dir].last() == *dir);
        assert(shaped_paths(seq![*dir]) =~= shaped_paths(Seq::<DirTree>::empty()) + if bare_shape(dir.entries@) {
            seq![dir.path@]
        } else {
            Seq::<Seq<char>>::empty()
        });
        assert(texts(candidates@) =~= start + shaped_paths(seq![*dir]));
    }
    collect_below(dir, candidates);
    proof {
        lemma_shaped_paths_concat(seq![*dir], nodes_below(*dir));
        assert(texts(candidates@) =~= start + shaped_paths(seq![*dir] + nodes_below(*dir)));
    }
}

/// A directory's path, and whether it has the shape of a bare repository.
pub open spec fn path_and_shape(nodes: Seq<DirTree>) -> Seq<(Seq<char>, bool)> {
    nodes.map_values(|n: DirTree| (n.path@, bare_shape(n.entries@)))
}

/// The paths of the shaped entries among `ps`, in order.
pub open spec fn shaped_of(ps: Seq<(Seq<char>, bool)>) -> Seq<Seq<char>>
    decreases ps.len(),
{
    if ps.len() == 0 {
        Seq::empty()
    } else {
        shaped_of(ps.drop_last()) + if ps.last().1 {
            seq![ps.last().0]
        } else {
            Seq::empty()
        }
    }
}

proof fn lemma_shaped_of_nodes(nodes: Seq<DirTree>)
    ensures
        shaped_paths(nodes) == shaped_of(path_and_shape(nodes)),
    decreases nodes.len(),
{
    if nodes.len() > 0 {
        lemma_shaped_paths_concat(nodes.drop_last(), seq![nodes.last()]);
        lemma_shaped_of_nodes(nodes.drop_last());
        assert(path_and_shape(nodes).drop_last() =~= path_and_shape(nodes.drop_last()));
    }
}

/// What the entry `x` adds to the paths found.
pub open spec fn shaped_one(x: (Seq<char>, bool)) -> Multiset<Seq<char>> {
    if x.1 {
        Multiset::singleton(x.0)
    } else {
        Multiset::empty()
    }
}

proof fn lemma_shaped_of_remove(ps: Seq<(Seq<char>, bool)>, k: int)
    requires
        0 <= k < ps.len(),
    ensures
        shaped_of(ps).to_multiset() == shaped_of(ps.remove(k)).to_multiset().add(shaped_one(ps[k])),
    decreases ps.len(),
{
    let last = ps.last();
    let tail = if last.1 { seq![last.0] } else { Seq::<Seq<char>>::empty() };
    assert(shaped_of(ps) == shaped_of(ps.drop_last()) + tail);
    vstd::seq_lib::lemma_multiset_commutative(shaped_of(ps.drop_last()), tail);
    if last.1 {
        assert(tail.to_multiset() =~= Multiset::singleton(last.0)) by {
            assert(tail =~= Seq::<Seq<char>>::empty().push(last.0));
            Seq::<Seq<char>>::empty().to_multiset_ensures();
        }
    } else {
        assert(tail.to_multiset() =~= Multiset::empty()) by {
            tail.to_multiset_ensures();
        }
    }
    if k == ps.len() - 1 {
        assert(ps.remove(k) =~= ps.drop_last());
    } else {
        lemma_shaped_of_remove(ps.drop_last(), k);
        let r = ps.remove(k);
        assert(r.drop_last() =~= ps.drop_last().remove(k));
        assert(r.last() == last);
        assert(shaped_of(r) == shaped_of(r.drop_last()) + tail);
        vstd::seq_lib::lemma_multiset_commutative(shaped_of(r.drop_last()), tail);
        assert(shaped_of(ps).to_multiset() =~= shaped_of(r).to_multiset().add(shaped_one(ps[k])));
    }
}

proof fn lemma_shaped_of_permutation(a: Seq<(Seq<char>, bool)>, b: Seq<(Seq<char>, bool)>)
    requires
        a.to_multiset() == b.to_multiset(),
    ensures
        shaped_of(a).to_multiset() == shaped_of(b).to_multiset(),
    decreases a.len(),
{
    a.to_multiset_ensures();
    b.to_multiset_ensures();
    if a.len() == 0 {
        assert(b.len() == 0);
        assert(a =~= b);
    } else {
        let x = a.last();
        assert(a.contains(x)) by {
            assert(a[a.len() - 1] == x);
        }
        assert(b.to_multiset().count(x) > 0);
        assert(b.contains(x));
        let k = choose|k: int| 0 <= k < b.len() && b[k] == x;
        assert(a.remove(a.len() - 1) =~= a.drop_last());
        assert(a.drop_last().to_multiset() == b.remove(k).to_multiset());
        lemma_shaped_of_permutation(a.drop_last(), b.remove(k));
        lemma_shaped_of_remove(a, a.len() - 1);
        lemma_shaped_of_remove(b, k);
    }
}

/// The directories a scan reports do not depend on the order in which
/// listings came back: two trees that hold the same directories, with the same
/// paths and shapes, each as often, give the same paths, each as often.
pub proof fn lemma_scan_ignores_listing_order(t1: DirTree, t2: DirTree)
    requires
        path_and_shape(nodes_of(t1)).to_multiset() == path_and_shape(nodes_of(t2)).to_multiset(),
    ensures
        shaped_paths(nodes_of(t1)).to_multiset() == shaped_paths(nodes_of(t2)).to_multiset(),
{
    lemma_shaped_of_nodes(nodes_of(t1));
    lemma_shaped_of_nodes(nodes_of(t2));
    lemma_shaped_of_permutation(path_and_shape(nodes_of(t1)), path_and_shape(nodes_of(t2)));
}

/// A scan reports exactly the directories of the tree, its root included, that
/// have the shape of a bare repository: a path is reported if and only if some
/// directory of the tree with that path has the shape; in a well-formed tree
/// none is reported twice.
pub proof fn lemma_scan_reports_each_match_once(t: DirTree)
    ensures
        forall|p: Seq<char>|
            #[trigger] shaped_paths(nodes_of(t)).contains(p) <==> exists|i: int|
                0 <= i < nodes_of(t).len() && bare_shape(nodes_of(t)[i].entries@)
                    && #[trigger] nodes_of(t)[i].path@ == p,
        wf_tree(t) ==> shaped_paths(nodes_of(t)).no_duplicates(),
{
    lemma_shaped_paths_members(nodes_of(t));
}

} // verus!
