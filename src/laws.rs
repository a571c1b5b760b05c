//! Laws of the note store, stated over the contracts of adding and reading.
use crate::model::{
    creation_base, has_id, note_added, note_read, notes_consistent, notes_within, read_outcome,
    remaining_ttl, total_cost, unexpired, evicted, NoteContent, NoteReadContent, StoredNote,
    NANOS_PER_SEC,
};
use crate::note_id::NoteId;
use vstd::prelude::*;

verus! {

/// Every note that a sweep keeps was a note before it.
pub proof fn lemma_unexpired_within(s: Seq<StoredNote>, now: int)
    ensures
        notes_within(unexpired(s, now), s),
    decreases s.len(),
{
    if s.len() > 0 {
        let e = s.drop_last();
        lemma_unexpired_within(e, now);
        let u = unexpired(e, now);
        let w = unexpired(s, now);
        assert forall|k: int| 0 <= k < w.len() implies s.contains(#[trigger] w[k]) by {
            if k < u.len() {
                assert(w[k] == u[k]);
                assert(e.contains(u[k]));
                let j = choose|j: int| 0 <= j < e.len() && e[j] == u[k];
                assert(s[j] == u[k]);
            } else {
                assert(w[k] == s.last());
                assert(s[s.len() - 1] == s.last());
            }
        }
    }
}

/// In consistent notes, no note but the newest has the newest note's
/// identifier, before or after a sweep.
pub proof fn lemma_newest_id_alone(s: Seq<StoredNote>, now: int)
    requires
        notes_consistent(s),
        s.len() > 0,
    ensures
        !has_id(unexpired(s.drop_last(), now), s.last().id.bytes()),
        !s.last().is_expired(now) ==> unexpired(s, now) == unexpired(s.drop_last(), now).push(
            s.last(),
        ),
        s.last().is_expired(now) ==> unexpired(s, now) == unexpired(s.drop_last(), now),
{
    let e = s.drop_last();
    let u = unexpired(e, now);
    lemma_unexpired_within(e, now);
    assert forall|k: int| 0 <= k < u.len() implies (#[trigger] u[k]).id.bytes() != s.last().id.bytes() by {
        assert(e.contains(u[k]));
        let j = choose|j: int| 0 <= j < e.len() && e[j] == u[k];
        assert(s[j] == u[k]);
        assert(s[s.len() - 1] == s.last());
    }
}

/// A note added with unlimited views and no time to live is read back
/// whole, and reported with unlimited views and no expiry.
pub proof fn law_round_trip(
    before: Seq<StoredNote>,
    added: Seq<StoredNote>,
    id: NoteId,
    content: NoteContent,
    now_add: int,
    max: int,
    now_read: int,
    after: Seq<StoredNote>,
    r: Option<NoteReadContent>,
)
    requires
        note_added(before, added, id, content, now_add, max),
        notes_consistent(added),
        content.expires_after == 0,
        content.remaining_views == 0,
        read_outcome(added, id.bytes(), now_read, after, r),
    ensures
        r is Some,
        r->Some_0.data@ == content.data@,
        r->Some_0.expires_after is None,
        r->Some_0.remaining_views is None,
{
    let n = added.last();
    lemma_newest_id_alone(added, now_read);
    let s = unexpired(added, now_read);
    let last = s.len() - 1;
    assert(s[last] == n);
    assert(has_id(s, id.bytes()));
    let i = choose|i: int|
        0 <= i < s.len() && (#[trigger] s[i]).id.bytes() == id.bytes() && note_read(
            s,
            i,
            now_read,
            after,
            r->Some_0,
        );
    if i != last {
        assert(s[i] == unexpired(added.drop_last(), now_read)[i]);
    }
}

/// A note added with a single view is read once, reported with no view
/// left, and is gone for the next read.
pub proof fn law_view_exhaustion(
    before: Seq<StoredNote>,
    added: Seq<StoredNote>,
    id: NoteId,
    content: NoteContent,
    now_add: int,
    max: int,
    now1: int,
    read1: Seq<StoredNote>,
    r1: Option<NoteReadContent>,
    now2: int,
    read2: Seq<StoredNote>,
    r2: Option<NoteReadContent>,
)
    requires
        note_added(before, added, id, content, now_add, max),
        notes_consistent(added),
        content.remaining_views == 1,
        !added.last().is_expired(now1),
        read_outcome(added, id.bytes(), now1, read1, r1),
        read_outcome(read1, id.bytes(), now2, read2, r2),
    ensures
        r1 is Some,
        r1->Some_0.remaining_views == Some(0u32),
        r2 is None,
{
    let n = added.last();
    lemma_newest_id_alone(added, now1);
    let e = unexpired(added.drop_last(), now1);
    let s = unexpired(added, now1);
    let last = s.len() - 1;
    assert(s[last] == n);
    assert(has_id(s, id.bytes()));
    let i = choose|i: int|
        0 <= i < s.len() && (#[trigger] s[i]).id.bytes() == id.bytes() && note_read(
            s,
            i,
            now1,
            read1,
            r1->Some_0,
        );
    if i != last {
        assert(s[i] == e[i]);
    }
    assert(read1 =~= e);
    lemma_unexpired_within(e, now2);
    if has_id(unexpired(read1, now2), id.bytes()) {
        let k = choose|k: int|
            0 <= k < unexpired(read1, now2).len() && (#[trigger] unexpired(read1, now2)[k]).id.bytes()
                == id.bytes();
        assert(read1.contains(unexpired(read1, now2)[k]));
    }
}

/// A note with a time to live of one second is gone for a read more than a
/// second past its creation key, and up to that point is read with at least
/// one second reported left, unless the read uses up its last view.
pub proof fn law_ttl_expiry(
    before: Seq<StoredNote>,
    added: Seq<StoredNote>,
    id: NoteId,
    content: NoteContent,
    now_add: int,
    max: int,
    now_read: int,
    after: Seq<StoredNote>,
    r: Option<NoteReadContent>,
)
    requires
        note_added(before, added, id, content, now_add, max),
        notes_consistent(added),
        content.expires_after == 1,
        content.remaining_views != 1,
        read_outcome(added, id.bytes(), now_read, after, r),
    ensures
        now_read > added.last().created_at + NANOS_PER_SEC ==> r is None,
        now_read <= added.last().created_at + NANOS_PER_SEC ==> r is Some
            && r->Some_0.expires_after is Some && r->Some_0.expires_after->Some_0 >= 1,
{
    let n = added.last();
    lemma_newest_id_alone(added, now_read);
    let s = unexpired(added, now_read);
    if now_read <= n.created_at + NANOS_PER_SEC {
        let last = s.len() - 1;
        assert(s[last] == n);
        assert(has_id(s, id.bytes()));
        let i = choose|i: int|
            0 <= i < s.len() && (#[trigger] s[i]).id.bytes() == id.bytes() && note_read(
                s,
                i,
                now_read,
                after,
                r->Some_0,
            );
        if i != last {
            assert(s[i] == unexpired(added.drop_last(), now_read)[i]);
        }
        assert(remaining_ttl(n, now_read) is Some);
    }
}

/// Under budget `max`, with note A alone in the store, adding a note B that
/// fits the budget but not beside A evicts A and keeps B: a read of A finds
/// nothing, and a later read of B finds it, if B never expires or has not
/// expired yet.
pub proof fn law_oldest_evicted_first(
    empty: Seq<StoredNote>,
    one: Seq<StoredNote>,
    two: Seq<StoredNote>,
    max: int,
    id_a: NoteId,
    content_a: NoteContent,
    now_a: int,
    id_b: NoteId,
    content_b: NoteContent,
    now_b: int,
    now_ra: int,
    after_a: Seq<StoredNote>,
    r_a: Option<NoteReadContent>,
    now_rb: int,
    after_b: Seq<StoredNote>,
    r_b: Option<NoteReadContent>,
)
    requires
        empty.len() == 0,
        note_added(empty, one, id_a, content_a, now_a, max),
        note_added(one, two, id_b, content_b, now_b, max),
        !has_id(one, id_b.bytes()),
        content_a.cost() < max,
        content_a.cost() + content_b.cost() > max,
        content_b.cost() <= max,
        read_outcome(two, id_a.bytes(), now_ra, after_a, r_a),
        read_outcome(after_a, id_b.bytes(), now_rb, after_b, r_b),
        now_ra <= now_rb,
        content_b.expires_after == 0 || !two.last().is_expired(now_rb),
    ensures
        two.len() == 1,
        r_a is None,
        r_b is Some,
{
    let a = one.last();
    let b = two.last();
    assert(unexpired(empty, now_a) == empty);
    assert(evicted(empty, content_a.cost(), max) == empty);
    assert(one =~= seq![a]);
    assert(one[0] == a);
    assert(a.id.bytes() != id_b.bytes());
    let ua = unexpired(one, now_b);
    assert(one.drop_last() =~= Seq::<StoredNote>::empty());
    assert(unexpired(one.drop_last(), now_b) == Seq::<StoredNote>::empty());
    assert(ua =~= seq![a] || ua =~= Seq::<StoredNote>::empty());
    assert(seq![a].drop_last() =~= Seq::<StoredNote>::empty());
    assert(seq![a].last() == a);
    assert(total_cost(Seq::<StoredNote>::empty()) == 0);
    assert(total_cost(seq![a]) == a.cost());
    assert(seq![a].drop_first() =~= Seq::<StoredNote>::empty());
    assert(evicted(Seq::<StoredNote>::empty(), content_b.cost(), max) == Seq::<StoredNote>::empty());
    assert(evicted(ua, content_b.cost(), max) == Seq::<StoredNote>::empty());
    assert(two =~= seq![b]);
    assert(two.drop_last() =~= Seq::<StoredNote>::empty());
    assert(unexpired(two.drop_last(), now_ra) == Seq::<StoredNote>::empty());
    assert(unexpired(two, now_ra) =~= seq![b]);
    assert(seq![b][0] == b);
    assert(!has_id(unexpired(two, now_ra), id_a.bytes()));
    assert(after_a == seq![b]);
    assert(after_a == two);
    assert(two.last() == b);
    assert(unexpired(two.drop_last(), now_rb) == Seq::<StoredNote>::empty());
    assert(unexpired(two, now_rb) =~= seq![b]);
    assert(has_id(unexpired(after_a, now_rb), id_b.bytes()));
}

/// Two notes added one after the other, at any times, get distinct
/// identifiers and strictly increasing creation keys, and distinct expiry
/// keys when they have the same time to live.
pub proof fn law_ordering_unique(
    s0: Seq<StoredNote>,
    s1: Seq<StoredNote>,
    s2: Seq<StoredNote>,
    max: int,
    id1: NoteId,
    c1: NoteContent,
    t1: int,
    id2: NoteId,
    c2: NoteContent,
    t2: int,
)
    requires
        note_added(s0, s1, id1, c1, t1, max),
        note_added(s1, s2, id2, c2, t2, max),
        !has_id(s1, id2.bytes()),
    ensures
        id1.bytes() != id2.bytes(),
        s1.last().created_at < s2.last().created_at,
        c1.expires_after == c2.expires_after ==> s1.last().expire_key() != s2.last().expire_key()
            || c1.expires_after == 0,
{
    assert(s1[s1.len() - 1] == s1.last());
    assert(creation_base(s1, t2) > s1.last().created_at);
}

} // verus!
