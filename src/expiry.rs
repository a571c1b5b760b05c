//! The expiry index: the expiry keys of the notes that expire, each with its
//! note's identifier, in increasing order.
use crate::model::{notes_consistent, unexpired, StoredNote};
use crate::note_id::NoteId;
use vstd::prelude::*;

verus! {

/// An entry of the expiry index.
pub struct ExpiryEntry {
    pub expire_at: u64,
    /// The creation key of the entry's note, by which the note is found.
    pub created_at: u64,
    pub id: NoteId,
}

/// Whether entry `e` stands for note `n`.
pub open spec fn entry_of(n: StoredNote, e: ExpiryEntry) -> bool {
    &&& n.expire_key() == Some(e.expire_at as int)
    &&& n.created_at == e.created_at
    &&& n.id.bytes() == e.id.bytes()
}

/// Whether some note of `s` is the one that entry `e` stands for.
pub open spec fn entry_listed(s: Seq<StoredNote>, e: ExpiryEntry) -> bool {
    exists|i: int| 0 <= i < s.len() && entry_of(#[trigger] s[i], e)
}

/// Whether some entry of `x` stands for note `n`.
pub open spec fn note_indexed(x: Seq<ExpiryEntry>, n: StoredNote) -> bool {
    exists|a: int| 0 <= a < x.len() && entry_of(n, #[trigger] x[a])
}

/// The keys of the index increase strictly.
pub open spec fn index_sorted(x: Seq<ExpiryEntry>) -> bool {
    forall|a: int, b: int| 0 <= a < b < x.len() ==> x[a].expire_at < x[b].expire_at
}

/// `x` is the expiry index of notes `s`: sorted, every entry stands for a
/// note, and every note that expires has an entry.
pub open spec fn index_matches(s: Seq<StoredNote>, x: Seq<ExpiryEntry>) -> bool {
    &&& index_sorted(x)
    &&& forall|a: int| 0 <= a < x.len() ==> #[trigger] entry_listed(s, x[a])
    &&& forall|i: int|
        0 <= i < s.len() && s[i].expire_key() is Some ==> #[trigger] note_indexed(x, s[i])
}

/// Removing a note and its entry keeps the index.
pub proof fn lemma_remove_pair(s: Seq<StoredNote>, x: Seq<ExpiryEntry>, i: int, a: int)
    requires
        notes_consistent(s),
        index_matches(s, x),
        0 <= i < s.len(),
        0 <= a < x.len(),
        entry_of(s[i], x[a]),
    ensures
        index_matches(s.remove(i), x.remove(a)),
{
    let s2 = s.remove(i);
    let x2 = x.remove(a);
    assert forall|b: int| 0 <= b < x2.len() implies #[trigger] entry_listed(s2, x2[b]) by {
        let bb = if b < a { b } else { b + 1 };
        assert(x2[b] == x[bb]);
        assert(entry_listed(s, x[bb]));
        let j = choose|j: int| 0 <= j < s.len() && entry_of(#[trigger] s[j], x[bb]);
        assert(j != i);
        let jj = if j < i { j } else { j - 1 };
        assert(s2[jj] == s[j]);
    }
    assert forall|k: int| 0 <= k < s2.len() && s2[k].expire_key() is Some implies #[trigger] note_indexed(
        x2,
        s2[k],
    ) by {
        let kk = if k < i { k } else { k + 1 };
        assert(s2[k] == s[kk]);
        assert(note_indexed(x, s[kk]));
        let b = choose|b: int| 0 <= b < x.len() && entry_of(s[kk], #[trigger] x[b]);
        assert(b != a);
        let bb = if b < a { b } else { b - 1 };
        assert(x2[bb] == x[b]);
    }
}

/// Removing a note that does not expire keeps the index.
pub proof fn lemma_remove_plain(s: Seq<StoredNote>, x: Seq<ExpiryEntry>, i: int)
    requires
        index_matches(s, x),
        0 <= i < s.len(),
        s[i].expire_key() is None,
    ensures
        index_matches(s.remove(i), x),
{
    let s2 = s.remove(i);
    assert forall|b: int| 0 <= b < x.len() implies #[trigger] entry_listed(s2, x[b]) by {
        assert(entry_listed(s, x[b]));
        let j = choose|j: int| 0 <= j < s.len() && entry_of(#[trigger] s[j], x[b]);
        assert(j != i);
        let jj = if j < i { j } else { j - 1 };
        assert(s2[jj] == s[j]);
    }
    assert forall|k: int| 0 <= k < s2.len() && s2[k].expire_key() is Some implies #[trigger] note_indexed(
        x,
        s2[k],
    ) by {
        let kk = if k < i { k } else { k + 1 };
        assert(s2[k] == s[kk]);
        assert(note_indexed(x, s[kk]));
    }
}

/// Appending a note that expires, with its entry at its place, keeps the
/// index.
pub proof fn lemma_push_pair(s: Seq<StoredNote>, x: Seq<ExpiryEntry>, n: StoredNote, p: int, e: ExpiryEntry)
    requires
        index_matches(s, x),
        entry_of(n, e),
        0 <= p <= x.len(),
        forall|b: int| 0 <= b < p ==> (#[trigger] x[b]).expire_at < e.expire_at,
        forall|b: int| p <= b < x.len() ==> (#[trigger] x[b]).expire_at > e.expire_at,
    ensures
        index_matches(s.push(n), x.insert(p, e)),
{
    let s2 = s.push(n);
    let x2 = x.insert(p, e);
    assert forall|b: int| 0 <= b < x2.len() implies #[trigger] entry_listed(s2, x2[b]) by {
        if b == p {
            assert(s2[s.len() as int] == n);
        } else {
            let bb = if b < p { b } else { b - 1 };
            assert(x2[b] == x[bb]);
            assert(entry_listed(s, x[bb]));
            let j = choose|j: int| 0 <= j < s.len() && entry_of(#[trigger] s[j], x[bb]);
            assert(s2[j] == s[j]);
        }
    }
    assert forall|k: int| 0 <= k < s2.len() && s2[k].expire_key() is Some implies #[trigger] note_indexed(
        x2,
        s2[k],
    ) by {
        if k == s.len() {
            assert(x2[p] == e);
        } else {
            assert(s2[k] == s[k]);
            assert(note_indexed(x, s[k]));
            let b = choose|b: int| 0 <= b < x.len() && entry_of(s[k], #[trigger] x[b]);
            let bb = if b < p { b } else { b + 1 };
            assert(x2[bb] == x[b]);
        }
    }
}

/// Appending a note that does not expire keeps the index.
pub proof fn lemma_push_plain(s: Seq<StoredNote>, x: Seq<ExpiryEntry>, n: StoredNote)
    requires
        index_matches(s, x),
        n.expire_key() is None,
    ensures
        index_matches(s.push(n), x),
{
    let s2 = s.push(n);
    assert forall|b: int| 0 <= b < x.len() implies #[trigger] entry_listed(s2, x[b]) by {
        assert(entry_listed(s, x[b]));
        let j = choose|j: int| 0 <= j < s.len() && entry_of(#[trigger] s[j], x[b]);
        assert(s2[j] == s[j]);
    }
    assert forall|k: int| 0 <= k < s2.len() && s2[k].expire_key() is Some implies #[trigger] note_indexed(
        x,
        s2[k],
    ) by {
        assert(s2[k] == s[k]);
    }
}

/// Replacing a note by one with the same identifier, creation key and
/// expiry key keeps the index.
pub proof fn lemma_update_same_key(s: Seq<StoredNote>, x: Seq<ExpiryEntry>, i: int, n: StoredNote)
    requires
        index_matches(s, x),
        0 <= i < s.len(),
        n.id == s[i].id,
        n.created_at == s[i].created_at,
        n.expire_key() == s[i].expire_key(),
    ensures
        index_matches(s.update(i, n), x),
{
    let s2 = s.update(i, n);
    assert forall|b: int| 0 <= b < x.len() implies #[trigger] entry_listed(s2, x[b]) by {
        assert(entry_listed(s, x[b]));
        let j = choose|j: int| 0 <= j < s.len() && entry_of(#[trigger] s[j], x[b]);
        assert(entry_of(s2[j], x[b]));
    }
    assert forall|k: int| 0 <= k < s2.len() && s2[k].expire_key() is Some implies #[trigger] note_indexed(
        x,
        s2[k],
    ) by {
        assert(note_indexed(x, s[k]));
        let b = choose|b: int| 0 <= b < x.len() && entry_of(s[k], #[trigger] x[b]);
        assert(entry_of(s2[k], x[b]));
    }
}

/// Sweeping at `b` and then at a later `t` sweeps as much as sweeping at
/// `t` once.
pub proof fn lemma_unexpired_twice(o: Seq<StoredNote>, b: int, t: int)
    requires
        b <= t,
    ensures
        unexpired(unexpired(o, b), t) == unexpired(o, t),
    decreases o.len(),
{
    if o.len() > 0 {
        let e = o.drop_last();
        lemma_unexpired_twice(e, b, t);
        if !o.last().is_expired(b) {
            let u = unexpired(e, b).push(o.last());
            assert(u.drop_last() =~= unexpired(e, b));
            assert(u.last() == o.last());
        }
    }
}

/// A sweep at which no note has expired keeps every note.
pub proof fn lemma_unexpired_none(c: Seq<StoredNote>, t: int)
    requires
        forall|i: int| 0 <= i < c.len() ==> !(#[trigger] c[i]).is_expired(t),
    ensures
        unexpired(c, t) == c,
    decreases c.len(),
{
    if c.len() > 0 {
        let e = c.drop_last();
        assert forall|i: int| 0 <= i < e.len() implies !(#[trigger] e[i]).is_expired(t) by {
            assert(e[i] == c[i]);
        }
        lemma_unexpired_none(e, t);
        assert(c[c.len() - 1] == c.last());
        assert(e.push(c.last()) =~= c);
    }
}

/// A sweep at which only note `i` has expired removes just that note.
pub proof fn lemma_unexpired_one(c: Seq<StoredNote>, t: int, i: int)
    requires
        0 <= i < c.len(),
        c[i].is_expired(t),
        forall|j: int| 0 <= j < c.len() && j != i ==> !(#[trigger] c[j]).is_expired(t),
    ensures
        unexpired(c, t) == c.remove(i),
    decreases c.len(),
{
    let e = c.drop_last();
    let l = c.len() - 1;
    assert(c[l] == c.last());
    if i == l {
        assert forall|j: int| 0 <= j < e.len() implies !(#[trigger] e[j]).is_expired(t) by {
            assert(e[j] == c[j]);
        }
        lemma_unexpired_none(e, t);
        assert(c.remove(i) =~= e);
    } else {
        assert forall|j: int| 0 <= j < e.len() && j != i implies !(#[trigger] e[j]).is_expired(t) by {
            assert(e[j] == c[j]);
        }
        assert(e[i] == c[i]);
        lemma_unexpired_one(e, t, i);
        assert(e.remove(i).push(c.last()) =~= c.remove(i));
    }
}

} // verus!
