//! A repository's fingerprint: a 64-bit digest of its reference lines (or of
//! its HEAD when the references cannot be listed) and of its origin URL.

use vstd::prelude::*;
use vstd::seq_lib::group_to_multiset_ensures;
use vstd::std_specs::hash::DefaultHasherAdditionalSpecFns;
use vstd::utf8::encode_utf8;
use std::collections::hash_map::DefaultHasher;
use std::hash::Hasher;
use crate::texts;
use crate::validate::{trim_of, trimmed};

verus! {

broadcast use group_to_multiset_ensures;

/// `a` comes no later than `b` when comparing character by character, by code
/// point, a proper prefix first.
pub open spec fn text_le(a: Seq<char>, b: Seq<char>) -> bool
    decreases a.len(),
{
    if a.len() == 0 {
        true
    } else if b.len() == 0 {
        false
    } else if a[0] != b[0] {
        (a[0] as u32) < (b[0] as u32)
    } else {
        text_le(a.drop_first(), b.drop_first())
    }
}

/// The lines are in ascending order.
pub open spec fn lines_sorted(s: Seq<Seq<char>>) -> bool {
    forall|i: int, j: int| 0 <= i < j < s.len() ==> text_le(#[trigger] s[i], #[trigger] s[j])
}

/// The lines in ascending order: the ordered sequence that holds each line as
/// many times as `lines` does.
pub open spec fn sorted_of(lines: Seq<Seq<char>>) -> Seq<Seq<char>> {
    choose|s: Seq<Seq<char>>| lines_sorted(s) && s.to_multiset() == lines.to_multiset()
}

/// What identifies a repository's history, in the order it is hashed: its
/// reference lines in ascending order when they could be listed; else its
/// trimmed HEAD, or the tool's error text when HEAD could not be read either.
/// The trimmed origin URL follows where there is one.
pub open spec fn fingerprint_parts(
    refs: Option<Seq<Seq<char>>>,
    head: Option<Result<Seq<char>, Seq<char>>>,
    origin: Option<Seq<char>>,
) -> Seq<Seq<char>> {
    let identity = match refs {
        Some(lines) => sorted_of(lines),
        None => match head {
            Some(Ok(h)) => seq![trim_of(h)],
            Some(Err(e)) => seq![e],
            None => Seq::empty(),
        },
    };
    identity + match origin {
        Some(u) => seq![trim_of(u)],
        None => Seq::empty(),
    }
}

/// The writes made into the hasher for `parts`: each part's UTF-8 bytes, then
/// the byte `0xff` that ends it (as hashing a `str` does).
pub open spec fn hash_writes(parts: Seq<Seq<char>>) -> Seq<Seq<u8>>
    decreases parts.len(),
{
    if parts.len() == 0 {
        Seq::empty()
    } else {
        hash_writes(parts.drop_last()) + seq![encode_utf8(parts.last()), seq![0xffu8]]
    }
}

/// The fingerprint of a repository whose sources read as given.
pub open spec fn fingerprint_of(
    refs: Option<Seq<Seq<char>>>,
    head: Option<Result<Seq<char>, Seq<char>>>,
    origin: Option<Seq<char>>,
) -> u64 {
    DefaultHasher::spec_finish(hash_writes(fingerprint_parts(refs, head, origin)))
}

/// The reference lines, as text, if they could be listed.
pub open spec fn refs_view(refs: Option<Vec<String>>) -> Option<Seq<Seq<char>>> {
    match refs {
        Some(v) => Some(texts(v@)),
        None => None,
    }
}

/// HEAD's answer, as text, if it was asked for.
pub open spec fn head_view(head: Option<Result<String, String>>) -> Option<Result<Seq<char>, Seq<char>>> {
    match head {
        Some(Ok(h)) => Some(Ok(h@)),
        Some(Err(e)) => Some(Err(e@)),
        None => None,
    }
}

/// The origin URL, as text, if there is one.
pub open spec fn origin_view(origin: Option<String>) -> Option<Seq<char>> {
    match origin {
        Some(u) => Some(u@),
        None => None,
    }
}

/// Relies on `slice::sort`: the result holds the same lines, ordered by
/// `Ord for String`, which compares the UTF-8 bytes lexicographically and so
/// orders as comparing characters by code point does.
#[verifier::external_body]
fn sort_lines(lines: &mut Vec<String>)
    ensures
        texts(final(lines)@).to_multiset() == texts(old(lines)@).to_multiset(),
        lines_sorted(texts(final(lines)@)),
{
    lines.sort();
}

proof fn lemma_text_le_antisymmetric(a: Seq<char>, b: Seq<char>)
    requires
        text_le(a, b),
        text_le(b, a),
    ensures
        a == b,
    decreases a.len(),
{
    if a.len() > 0 {
        lemma_text_le_antisymmetric(a.drop_first(), b.drop_first());
        assert(a =~= seq![a[0]] + a.drop_first());
        assert(b =~= seq![b[0]] + b.drop_first());
    } else {
        assert(b.len() == 0);
        assert(a =~= b);
    }
}

proof fn lemma_sorted_unique(x: Seq<Seq<char>>, y: Seq<Seq<char>>)
    requires
        lines_sorted(x),
        lines_sorted(y),
        x.to_multiset() == y.to_multiset(),
    ensures
        x == y,
    decreases x.len(),
{
    x.to_multiset_ensures();
    y.to_multiset_ensures();
    assert(x.len() == y.len());
    if x.len() > 0 {
        assert(y.to_multiset().count(x[0]) > 0);
        assert(y.contains(x[0]));
        let k = choose|k: int| 0 <= k < y.len() && y[k] == x[0];
        assert(x.to_multiset().count(y[0]) > 0);
        assert(x.contains(y[0]));
        let m = choose|m: int| 0 <= m < x.len() && x[m] == y[0];
        if k != 0 && m != 0 {
            assert(text_le(y[0], y[k]));
            assert(text_le(x[0], x[m]));
            lemma_text_le_antisymmetric(x[0], y[0]);
        }
        assert(x[0] == y[0]);
        assert(x.remove(0) =~= x.drop_first());
        assert(y.remove(0) =~= y.drop_first());
        assert(x.drop_first().to_multiset() == y.drop_first().to_multiset());
        assert(lines_sorted(x.drop_first())) by {
            assert forall|i: int, j: int| 0 <= i < j < x.drop_first().len() implies text_le(
                #[trigger] x.drop_first()[i],
                #[trigger] x.drop_first()[j],
            ) by {
                assert(x.drop_first()[i] == x[i + 1] && x.drop_first()[j] == x[j + 1]);
            }
        }
        assert(lines_sorted(y.drop_first())) by {
            assert forall|i: int, j: int| 0 <= i < j < y.drop_first().len() implies text_le(
                #[trigger] y.drop_first()[i],
                #[trigger] y.drop_first()[j],
            ) by {
                assert(y.drop_first()[i] == y[i + 1] && y.drop_first()[j] == y[j + 1]);
            }
        }
        lemma_sorted_unique(x.drop_first(), y.drop_first());
        assert(x =~= seq![x[0]] + x.drop_first());
        assert(y =~= seq![y[0]] + y.drop_first());
    } else {
        assert(x =~= y);
    }
}

/// The fingerprint of a repository from what its sources gave: `refs`, the
/// reference lines (heads and tags) if they could be listed; `head`, what
/// reading HEAD gave (its output, or the tool's error text), asked for when the
/// references could not be listed; `origin`, the origin URL if it could be read.
/// Only the fallback chain above decides; the result is always a fingerprint.
pub fn compute_git_fingerprint(
    refs: Option<Vec<String>>,
    head: Option<Result<String, String>>,
    origin: Option<String>,
) -> (r: u64)
    ensures
        r == fingerprint_of(refs_view(refs), head_view(head), origin_view(origin)),
{
    let ghost refs_v = refs_view(refs);
    let ghost head_v = head_view(head);
    let ghost origin_v = origin_view(origin);
    let mut parts: Vec<String> = match refs {
        Some(lines) => {
            let mut lines = lines;
            sort_lines(&mut lines);
            proof {
                let l = refs_v->Some_0;
                assert(lines_sorted(texts(lines@)) && texts(lines@).to_multiset() == l.to_multiset());
                let s = sorted_of(l);
                assert(lines_sorted(s) && s.to_multiset() == l.to_multiset());
                lemma_sorted_unique(s, texts(lines@));
            }
            lines
        },
        None => match head {
            Some(Ok(h)) => {
                let t = trimmed(&h);
                let v = vec![t];
                assert(texts(v@) =~= seq![trim_of(h@)]);
                v
            },
            Some(Err(e)) => {
                let v = vec![e];
                assert(texts(v@) =~= seq![head_v->Some_0->Err_0]);
                v
            },
            None => {
                let v: Vec<String> = Vec::new();
                assert(texts(v@) =~= Seq::<Seq<char>>::empty());
                v
            },
        },
    };
    let ghost identity = texts(parts@);
    match origin {
        Some(u) => {
            parts.push(trimmed(&u));
            assert(texts(parts@) =~= identity + seq![trim_of(u@)]);
        },
        None => {
            assert(texts(parts@) =~= identity + Seq::<Seq<char>>::empty());
        },
    }
    assert(texts(parts@) == fingerprint_parts(refs_v, head_v, origin_v));
    let end: Vec<u8> = vec![0xffu8];
    let mut hasher = DefaultHasher::new();
    let mut i: usize = 0;
    assert(texts(parts@).take(0) =~= Seq::<Seq<char>>::empty());
    while i < parts.len()
        invariant
            0 <= i <= parts.len(),
            end@ == seq![0xffu8],
            hasher@ == hash_writes(texts(parts@).take(i as int)),
        decreases parts.len() - i,
    {
        hasher.write(parts[i].as_str().as_bytes());
        hasher.write(end.as_slice());
        proof {
            let t = texts(parts@).take(i + 1);
            assert(t.drop_last() =~= texts(parts@).take(i as int));
            assert(t.last() == parts@[i as int]@);
        }
        i = i + 1;
    }
    assert(texts(parts@).take(i as int) =~= texts(parts@));
    hasher.finish()
}

/// The fingerprint does not depend on the order in which the reference lines
/// were listed: two listings that hold the same lines, each as many times,
/// give the same fingerprint.
pub proof fn lemma_fingerprint_ignores_ref_order(
    a: Seq<Seq<char>>,
    b: Seq<Seq<char>>,
    head: Option<Result<Seq<char>, Seq<char>>>,
    origin: Option<Seq<char>>,
)
    requires
        a.to_multiset() == b.to_multiset(),
    ensures
        fingerprint_of(Some(a), head, origin) == fingerprint_of(Some(b), head, origin),
{
    assert(sorted_of(a) == sorted_of(b));
}

} // verus!
