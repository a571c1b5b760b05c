//! The store's model: notes as values, what they cost, when they expire,
//! and what sweeping, evicting, adding and reading do to a sequence of them.
use crate::note_id::{NoteId, NOTE_ID_LEN};
use vstd::prelude::*;

verus! {

/// Nanoseconds in one second: creation and expiry keys count nanoseconds.
pub const NANOS_PER_SEC: u64 = 1_000_000_000;

/// Bookkeeping cost of one note besides its payload: three copies of the
/// identifier, three keys, and the content's own fields.
pub const NOTE_BASE_MEMORY_USAGE: usize = 3 * NOTE_ID_LEN + 3 * 8 + 32;

/// What a caller hands to the store.
pub struct NoteContent {
    pub data: Vec<u8>,
    /// Number of seconds before this note is removed, 0 for no expiration
    pub expires_after: u32,
    /// Number of views before this note is removed, 0 for no limits
    pub remaining_views: u32,
}

/// What a read hands back.
pub struct NoteReadContent {
    pub data: Vec<u8>,
    /// Number of seconds before this note is removed
    pub expires_after: Option<u32>,
    /// Number of views before this note is removed
    pub remaining_views: Option<u32>,
}

/// A live note: its identifier, its creation key and its content.
pub struct StoredNote {
    pub id: NoteId,
    pub created_at: u64,
    pub content: NoteContent,
}

/// Memory that a note with a payload of `len` bytes costs.
pub open spec fn cost_of_len(len: int) -> int {
    len + NOTE_BASE_MEMORY_USAGE
}

impl NoteContent {
    /// Memory that this content costs in the store.
    pub open spec fn cost(&self) -> int {
        cost_of_len(self.data@.len() as int)
    }

    /// The time to live in nanoseconds.
    pub open spec fn ttl_nanos(&self) -> int {
        self.expires_after as int * NANOS_PER_SEC
    }

    /// The expiry key of this content created at `created_at`, if it expires.
    pub open spec fn expire_key(&self, created_at: int) -> Option<int> {
        if self.expires_after > 0 {
            Some(created_at + self.ttl_nanos())
        } else {
            None
        }
    }
}

impl StoredNote {
    /// Memory that this note costs in the store.
    pub open spec fn cost(&self) -> int {
        self.content.cost()
    }

    /// This note's expiry key, if it expires.
    pub open spec fn expire_key(&self) -> Option<int> {
        self.content.expire_key(self.created_at as int)
    }

    /// Whether the sweep at time `now` removes this note.
    pub open spec fn is_expired(&self, now: int) -> bool {
        match self.expire_key() {
            Some(t) => t < now,
            None => false,
        }
    }
}

/// Sum of the costs of the notes.
pub open spec fn total_cost(s: Seq<StoredNote>) -> int
    decreases s.len(),
{
    if s.len() == 0 {
        0
    } else {
        total_cost(s.drop_last()) + s.last().cost()
    }
}

/// The notes that a sweep at time `now` keeps, in the same order.
pub open spec fn unexpired(s: Seq<StoredNote>, now: int) -> Seq<StoredNote>
    decreases s.len(),
{
    if s.len() == 0 {
        s
    } else if s.last().is_expired(now) {
        unexpired(s.drop_last(), now)
    } else {
        unexpired(s.drop_last(), now).push(s.last())
    }
}

/// The notes left after dropping the oldest ones until a note of cost `need`
/// fits under `max`.
pub open spec fn evicted(s: Seq<StoredNote>, need: int, max: int) -> Seq<StoredNote>
    decreases s.len(),
{
    if s.len() > 0 && total_cost(s) + need > max {
        evicted(s.drop_first(), need, max)
    } else {
        s
    }
}

/// Whether some note carries identifier bytes `id`.
pub open spec fn has_id(s: Seq<StoredNote>, id: Seq<u8>) -> bool {
    exists|i: int| 0 <= i < s.len() && (#[trigger] s[i]).id.bytes() == id
}

/// Whether some note has expiry key `k`.
pub open spec fn has_expire_key(s: Seq<StoredNote>, k: int) -> bool {
    exists|i: int| 0 <= i < s.len() && (#[trigger] s[i]).expire_key() == Some(k)
}

/// The notes are strictly ordered by creation key, their identifiers and
/// expiry keys are unique, and every expiry key fits in 64 bits.
pub open spec fn notes_consistent(s: Seq<StoredNote>) -> bool {
    &&& forall|i: int, j: int| 0 <= i < j < s.len() ==> s[i].created_at < s[j].created_at
    &&& forall|i: int, j: int|
        0 <= i < s.len() && 0 <= j < s.len() && i != j ==> s[i].id.bytes() != s[j].id.bytes()
    &&& forall|i: int, j: int|
        0 <= i < s.len() && 0 <= j < s.len() && i != j && (#[trigger] s[i].expire_key()) is Some
            ==> s[i].expire_key() != (#[trigger] s[j].expire_key())
    &&& forall|i: int|
        0 <= i < s.len() ==> match (#[trigger] s[i]).expire_key() {
            Some(t) => t <= u64::MAX,
            None => true,
        }
}

/// Every note of `a` is a note of `b`.
pub open spec fn notes_within(a: Seq<StoredNote>, b: Seq<StoredNote>) -> bool {
    forall|k: int| 0 <= k < a.len() ==> b.contains(#[trigger] a[k])
}

/// The cost of two runs of notes is the sum of their costs.
pub proof fn lemma_total_cost_concat(a: Seq<StoredNote>, b: Seq<StoredNote>)
    ensures
        total_cost(a + b) == total_cost(a) + total_cost(b),
    decreases b.len(),
{
    if b.len() == 0 {
        assert(a + b =~= a);
    } else {
        lemma_total_cost_concat(a, b.drop_last());
        assert((a + b).drop_last() =~= a + b.drop_last());
    }
}

/// Removing a note takes its cost off the total.
pub proof fn lemma_total_cost_remove(s: Seq<StoredNote>, i: int)
    requires
        0 <= i < s.len(),
    ensures
        total_cost(s.remove(i)) == total_cost(s) - s[i].cost(),
        total_cost(s) >= s[i].cost(),
{
    let a = s.take(i);
    let b = s.skip(i + 1);
    lemma_total_cost_concat(a, b);
    lemma_total_cost_concat(a.push(s[i]), b);
    lemma_total_cost_concat(a, seq![s[i]]);
    lemma_total_cost_nonneg(a);
    lemma_total_cost_nonneg(b);
    assert(s.remove(i) =~= a + b);
    assert(s =~= a.push(s[i]) + b);
    assert(a.push(s[i]) =~= a + seq![s[i]]);
    assert(seq![s[i]].drop_last() =~= Seq::<StoredNote>::empty());
    assert(total_cost(Seq::<StoredNote>::empty()) == 0);
    assert(total_cost(seq![s[i]]) == s[i].cost());
    assert(total_cost(s) == total_cost(a.push(s[i])) + total_cost(b));
}

/// The least creation key that a note added at `now` may take: one past the
/// newest note's key when that is not before `now`, else `now`.
pub open spec fn creation_base(s: Seq<StoredNote>, now: int) -> int {
    if s.len() > 0 && s.last().created_at >= now {
        s.last().created_at + 1
    } else {
        now
    }
}

/// Whether creation key `c` would give a note that expires after
/// `expires_after` seconds an expiry key that a note of `s` already has.
pub open spec fn key_taken(s: Seq<StoredNote>, expires_after: u32, c: int) -> bool {
    expires_after > 0 && has_expire_key(s, c + expires_after as int * NANOS_PER_SEC)
}

/// Whether `c` is the creation key of a note added at `now`: the least key
/// from the base on whose expiry key is free, with that expiry key within
/// 64 bits.
pub open spec fn is_creation_key(s: Seq<StoredNote>, now: int, expires_after: u32, c: int) -> bool {
    &&& creation_base(s, now) <= c
    &&& c + expires_after as int * NANOS_PER_SEC <= u64::MAX
    &&& !key_taken(s, expires_after, c)
    &&& forall|d: int| creation_base(s, now) <= d < c ==> #[trigger] key_taken(s, expires_after, d)
}

/// Whether no creation key within 64 bits is left for a note added at `now`.
pub open spec fn keys_exhausted(s: Seq<StoredNote>, now: int, expires_after: u32) -> bool {
    forall|c: int|
        creation_base(s, now) <= c && c + expires_after as int * NANOS_PER_SEC <= u64::MAX
            ==> #[trigger] key_taken(s, expires_after, c)
}

/// Whether `after` is `before` once a note with identifier `id` and content
/// `content` was added at `now` under budget `max`: expired notes swept,
/// the oldest evicted until the note fits, and the note appended with its
/// creation key.
pub open spec fn note_added(
    before: Seq<StoredNote>,
    after: Seq<StoredNote>,
    id: NoteId,
    content: NoteContent,
    now: int,
    max: int,
) -> bool {
    &&& after.len() > 0
    &&& after == evicted(unexpired(before, now), content.cost(), max).push(
        (StoredNote { id, created_at: after.last().created_at, content }),
    )
    &&& is_creation_key(before, now, content.expires_after, after.last().created_at as int)
}

/// The remaining time to live, in seconds, that a read at `now` reports for
/// a note that expires: its time to live less the whole seconds since its
/// creation (none when `now` is not past it, none either when they do not
/// fit in 32 bits), and at least one.
pub open spec fn remaining_ttl(n: StoredNote, now: int) -> Option<u32> {
    if n.content.expires_after > 0 {
        let elapsed = if now > n.created_at {
            (now - n.created_at) / (NANOS_PER_SEC as int)
        } else {
            0
        };
        let e = if elapsed > u32::MAX {
            0
        } else {
            elapsed
        };
        let left = n.content.expires_after - e;
        Some(
            if left < 1 {
                1u32
            } else {
                left as u32
            },
        )
    } else {
        None
    }
}

/// The note `n` with `v` views left.
pub open spec fn with_views(n: StoredNote, v: u32) -> StoredNote {
    StoredNote { content: NoteContent { remaining_views: v, ..n.content }, ..n }
}

/// Whether reading note `i` of the swept notes `s` at `now` leaves `after`
/// and hands out `out`: the payload always; on the last allowed view the
/// note is removed and zero views are reported; on an earlier one a view is
/// used up and the views and time left are reported; with unlimited views
/// the note stays as it is and only the time left is reported.
pub open spec fn note_read(
    s: Seq<StoredNote>,
    i: int,
    now: int,
    after: Seq<StoredNote>,
    out: NoteReadContent,
) -> bool {
    let n = s[i];
    let views = n.content.remaining_views;
    &&& out.data@ == n.content.data@
    &&& if views == 1 {
        &&& after == s.remove(i)
        &&& out.expires_after is None
        &&& out.remaining_views == Some(0u32)
    } else if views > 1 {
        &&& after == s.update(i, with_views(n, (views - 1) as u32))
        &&& out.expires_after == remaining_ttl(n, now)
        &&& out.remaining_views == Some((views - 1) as u32)
    } else {
        &&& after == s
        &&& out.expires_after == remaining_ttl(n, now)
        &&& out.remaining_views is None
    }
}

/// Whether reading identifier `id` at `now` from notes `before` leaves
/// `after` and hands out `r`: after the sweep, nothing and no change when no
/// note has that identifier, else the read of that note.
pub open spec fn read_outcome(
    before: Seq<StoredNote>,
    id: Seq<u8>,
    now: int,
    after: Seq<StoredNote>,
    r: Option<NoteReadContent>,
) -> bool {
    let s = unexpired(before, now);
    &&& r is None <==> !has_id(s, id)
    &&& r is None ==> after == s
    &&& r is Some ==> exists|i: int|
        0 <= i < s.len() && (#[trigger] s[i]).id.bytes() == id && note_read(s, i, now, after, r->Some_0)
}

/// Replacing a note by one of the same cost keeps the total.
pub proof fn lemma_total_cost_update(s: Seq<StoredNote>, i: int, x: StoredNote)
    requires
        0 <= i < s.len(),
        x.cost() == s[i].cost(),
    ensures
        total_cost(s.update(i, x)) == total_cost(s),
{
    lemma_total_cost_remove(s, i);
    lemma_total_cost_remove(s.update(i, x), i);
    assert(s.update(i, x).remove(i) =~= s.remove(i));
}

/// Costs are never negative.
pub proof fn lemma_total_cost_nonneg(s: Seq<StoredNote>)
    ensures
        total_cost(s) >= 0,
    decreases s.len(),
{
    if s.len() > 0 {
        lemma_total_cost_nonneg(s.drop_last());
    }
}

/// Removing a note keeps the notes consistent and within `o`.
pub proof fn lemma_remove_keeps(s: Seq<StoredNote>, i: int, o: Seq<StoredNote>)
    requires
        0 <= i < s.len(),
        notes_consistent(s),
        notes_within(s, o),
    ensures
        notes_consistent(s.remove(i)),
        notes_within(s.remove(i), o),
{
    let r = s.remove(i);
    assert forall|k: int| 0 <= k < r.len() implies r[k] == s[if k < i { k } else { k + 1 }] by {}
    assert forall|k: int| 0 <= k < r.len() implies o.contains(#[trigger] r[k]) by {
        let kk = if k < i { k } else { k + 1 };
        assert(s[kk] == r[k]);
        assert(o.contains(s[kk]));
    }
}

} // verus!
