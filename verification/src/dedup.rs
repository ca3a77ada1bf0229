//! First-occurrence deduplication of corner keys: the compressed vertex list
//! that a corner-key stream produces, the index each key compresses to, and
//! the interning step that builds both.

use vstd::prelude::*;

use crate::model::CornerKey;

verus! {

/// The deduplicated vertex list of a corner-key stream: every distinct key
/// once, in order of first appearance.
pub open spec fn dedup_keys(s: Seq<CornerKey>) -> Seq<CornerKey>
    decreases s.len(),
{
    if s.len() == 0 {
        Seq::empty()
    } else {
        let prev = dedup_keys(s.drop_last());
        if prev.contains(s.last()) {
            prev
        } else {
            prev.push(s.last())
        }
    }
}

/// The position of key `k` in the vertex list `verts`: the index of its last
/// occurrence (in a list without duplicates, of its only one), or 0 when the
/// key is absent.
pub open spec fn index_in(verts: Seq<CornerKey>, k: CornerKey) -> int
    decreases verts.len(),
{
    if verts.len() == 0 {
        0
    } else if verts.last() == k {
        verts.len() - 1
    } else {
        index_in(verts.drop_last(), k)
    }
}

/// Dropping the last element of a duplicate-free list leaves it
/// duplicate-free.
proof fn lemma_no_dup_drop_last(s: Seq<CornerKey>)
    requires
        s.len() > 0,
        s.no_duplicates(),
    ensures
        s.drop_last().no_duplicates(),
{
}

/// Appending a fresh element keeps a list duplicate-free.
proof fn lemma_push_no_dup(s: Seq<CornerKey>, k: CornerKey)
    requires
        s.no_duplicates(),
        !s.contains(k),
    ensures
        s.push(k).no_duplicates(),
{
    let d = s.push(k);
    assert forall|i: int, j: int| 0 <= i < j < d.len() implies d[i] != d[j] by {
        if j < s.len() {
            assert(d[i] == s[i] && d[j] == s[j]);
        } else {
            assert(d[j] == k);
            assert(d[i] == s[i]);
            if s[i] == k {
                assert(s.contains(k));
            }
        }
    }
}

/// In a duplicate-free list, `index_in` returns the position where the key
/// was found.
pub proof fn lemma_index_of_no_dup(s: Seq<CornerKey>, k: CornerKey, i: int)
    requires
        s.no_duplicates(),
        0 <= i < s.len(),
        s[i] == k,
    ensures
        index_in(s, k) == i,
    decreases s.len(),
{
    if i == s.len() - 1 {
        assert(s.last() == k);
    } else {
        assert(s.last() != k);
        lemma_no_dup_drop_last(s);
        assert(s.drop_last()[i] == k);
        lemma_index_of_no_dup(s.drop_last(), k, i);
    }
}

/// A present key's index is a valid offset, and the list holds the key there.
pub proof fn lemma_index_in_bounds(s: Seq<CornerKey>, k: CornerKey)
    requires
        s.contains(k),
    ensures
        0 <= index_in(s, k) < s.len(),
        s[index_in(s, k)] == k,
    decreases s.len(),
{
    if s.last() == k {
    } else {
        let i = choose|i: int| 0 <= i < s.len() && s[i] == k;
        assert(s.drop_last()[i] == k);
        assert(s.drop_last().contains(k));
        lemma_index_in_bounds(s.drop_last(), k);
    }
}

/// Extending a duplicate-free vertex list never moves a key that is already
/// in it: its index is the same in every extension.
pub proof fn lemma_index_in_prefix(s1: Seq<CornerKey>, s2: Seq<CornerKey>, k: CornerKey)
    requires
        s1.is_prefix_of(s2),
        s2.no_duplicates(),
        s1.contains(k),
    ensures
        index_in(s2, k) == index_in(s1, k),
    decreases s2.len(),
{
    if s2.len() == s1.len() {
        assert(s1 =~= s2);
    } else {
        let i = choose|i: int| 0 <= i < s1.len() && s1[i] == k;
        assert(s2[i] == s1[i]);
        assert(s2.last() == s2[s2.len() - 1]);
        assert(s2.last() != k);
        lemma_no_dup_drop_last(s2);
        assert(s1.is_prefix_of(s2.drop_last()));
        lemma_index_in_prefix(s1, s2.drop_last(), k);
    }
}

/// One step of deduplication: what appending one key to the stream does to
/// the vertex list.
pub proof fn lemma_dedup_push(s: Seq<CornerKey>, k: CornerKey)
    ensures
        dedup_keys(s.push(k)) == (if dedup_keys(s).contains(k) {
            dedup_keys(s)
        } else {
            dedup_keys(s).push(k)
        }),
{
    assert(s.push(k).drop_last() =~= s);
    assert(s.push(k).last() == k);
}

/// The deduplicated list is duplicate-free, holds exactly the keys of the
/// stream, and is never longer than the stream.
pub proof fn lemma_dedup_props(s: Seq<CornerKey>)
    ensures
        dedup_keys(s).no_duplicates(),
        forall|k: CornerKey| #[trigger] dedup_keys(s).contains(k) <==> s.contains(k),
        dedup_keys(s).len() <= s.len(),
    decreases s.len(),
{
    broadcast use vstd::seq_lib::group_seq_properties;

    if s.len() == 0 {
    } else {
        let rest = s.drop_last();
        lemma_dedup_props(rest);
        let prev = dedup_keys(rest);
        assert forall|k: CornerKey| s.contains(k) implies (rest.contains(k) || s.last() == k) by {
            let i = choose|i: int| 0 <= i < s.len() && s[i] == k;
            if i < s.len() - 1 {
                assert(rest[i] == k);
            }
        }
        assert forall|k: CornerKey| rest.contains(k) implies s.contains(k) by {
            let i = choose|i: int| 0 <= i < rest.len() && rest[i] == k;
            assert(s[i] == k);
        }
        assert(s[s.len() - 1] == s.last());
        assert(s.contains(s.last()));
        if !prev.contains(s.last()) {
            lemma_push_no_dup(prev, s.last());
        }
    }
}

/// Whether two corner keys are equal.
fn key_eq(a: &CornerKey, b: &CornerKey) -> (r: bool)
    ensures
        r == (*a == *b),
{
    a.position == b.position && match (a.attribute, b.attribute) {
        (Some(x), Some(y)) => x == y,
        (None, None) => true,
        _ => false,
    }
}

/// Look the key up in the vertex list and append it when absent; either way,
/// return the key's compressed 16-bit index.
pub fn intern(verts: &mut Vec<CornerKey>, k: CornerKey) -> (i: u16)
    requires
        old(verts)@.no_duplicates(),
        old(verts)@.len() < 0x10000,
    ensures
        final(verts)@ == (if old(verts)@.contains(k) {
            old(verts)@
        } else {
            old(verts)@.push(k)
        }),
        final(verts)@.no_duplicates(),
        final(verts)@.contains(k),
        i as int == index_in(final(verts)@, k),
        (i as int) < final(verts)@.len(),
{
    let n = verts.len();
    let mut j: usize = 0;
    while j < n
        invariant
            j <= n,
            n == verts@.len(),
            n < 0x10000,
            verts@ == old(verts)@,
            verts@.no_duplicates(),
            forall|t: int| 0 <= t < j ==> verts@[t] != k,
        decreases n - j,
    {
        if key_eq(&verts[j], &k) {
            proof {
                lemma_index_of_no_dup(verts@, k, j as int);
                assert(verts@.contains(k));
            }
            return j as u16;
        }
        j += 1;
    }
    proof {
        assert(!verts@.contains(k));
        lemma_push_no_dup(verts@, k);
    }
    let i = verts.len() as u16;
    verts.push(k);
    proof {
        assert(verts@.last() == k);
        assert(verts@[verts@.len() - 1] == k);
        assert(verts@.contains(k));
    }
    i
}

} // verus!
