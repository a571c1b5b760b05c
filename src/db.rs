//! The note store: live notes in creation order, which own their payloads,
//! an expiry index over them, and the memory that they use, under a fixed
//! budget.
use crate::expiry::{
    entry_listed, entry_of, index_matches, index_sorted, lemma_push_pair, lemma_push_plain,
    lemma_remove_pair, lemma_remove_plain, lemma_unexpired_none, lemma_unexpired_one,
    lemma_unexpired_twice, lemma_update_same_key, note_indexed, ExpiryEntry,
};
pub use crate::model::{NoteContent, NoteReadContent, NANOS_PER_SEC, NOTE_BASE_MEMORY_USAGE};
use crate::model::{
    creation_base, evicted, has_expire_key, has_id, is_creation_key, key_taken, keys_exhausted,
    lemma_remove_keeps, lemma_total_cost_nonneg, lemma_total_cost_remove, lemma_total_cost_update,
    note_added, note_read, notes_consistent, notes_within, read_outcome, remaining_ttl, total_cost,
    unexpired, with_views, StoredNote,
};
use crate::note_id::NoteId;
use vstd::prelude::*;

verus! {

#[verifier::external_type_specification]
#[verifier::external_body]
pub struct ExInstant(std::time::Instant);

/// Relies on `std::time::Instant::now`: a point of the monotonic clock.
/// Nothing is known of it.
#[verifier::external_body]
fn clock_now() -> (r: std::time::Instant) {
    std::time::Instant::now()
}

/// Relies on `std::time::Instant::elapsed`: the time since `start`. Nothing
/// is known of it.
#[verifier::external_body]
fn elapsed_since(start: &std::time::Instant) -> (r: std::time::Duration) {
    start.elapsed()
}

/// Relies on `std::time::Duration::as_nanos`: the whole nanoseconds of `d`.
/// Nothing is stated of them.
#[verifier::external_body]
fn duration_nanos(d: &std::time::Duration) -> (r: u128) {
    d.as_nanos()
}

/// Nanoseconds since `start`, saturated to 64 bits.
fn nanos_since(start: &std::time::Instant) -> (r: u64) {
    let n = duration_nanos(&elapsed_since(start));
    if n > u64::MAX as u128 {
        u64::MAX
    } else {
        n as u64
    }
}

/// A time to live in seconds, in nanoseconds.
fn secs_to_nanos(secs: u32) -> (r: u64)
    ensures
        r == secs as int * NANOS_PER_SEC,
{
    proof {
        assert(secs as int * NANOS_PER_SEC <= u32::MAX as int * NANOS_PER_SEC) by (nonlinear_arith)
            requires
                secs <= u32::MAX,
        ;
    }
    secs as u64 * NANOS_PER_SEC
}

impl NoteContent {
    /// Memory that this note costs in the store.
    pub fn note_memory_usage(&self) -> (r: usize)
        requires
            self.cost() <= usize::MAX,
        ensures
            r == self.cost(),
    {
        self.data.len() + NOTE_BASE_MEMORY_USAGE
    }
}

impl NoteReadContent {
    /// Whether this read used up the note's last view.
    pub fn expired(&self) -> (r: bool)
        ensures
            r == (self.remaining_views == Some(0u32)),
    {
        match self.remaining_views {
            Some(v) => v == 0,
            None => false,
        }
    }
}

/// A copy of some bytes.
fn copy_bytes(v: &Vec<u8>) -> (r: Vec<u8>)
    ensures
        r@ == v@,
{
    let r = v.clone();
    assert(r@ =~= v@);
    r
}

/// Why a note was not added.
#[derive(Clone, Copy, Debug, PartialEq, Eq, Structural)]
pub enum AddNoteError {
    /// The note alone costs more than the memory budget.
    TooLarge,
    /// The identifier is already in use.
    IdTaken,
    /// No creation key is left within 64 bits of nanoseconds.
    ClockExhausted,
}

impl AddNoteError {
    pub fn message(&self) -> (r: &'static str)
        ensures
            *self == AddNoteError::TooLarge ==> r@ == "note too big"@,
            *self == AddNoteError::IdTaken ==> r@ == "note id already in use"@,
            *self == AddNoteError::ClockExhausted ==> r@ == "no creation time left"@,
    {
        match self {
            AddNoteError::TooLarge => "note too big",
            AddNoteError::IdTaken => "note id already in use",
            AddNoteError::ClockExhausted => "no creation time left",
        }
    }
}

/// How many identifiers are drawn before giving up on a fresh one.
pub const MAX_ID_ATTEMPTS: usize = 8;

/// The store: live notes in creation order, which own their payloads, the
/// expiry index over them, and the memory that they use.
pub struct Database {
    /// Notes sorted by created_at order
    notes: Vec<StoredNote>,
    /// Note ids sorted by expiration order
    expiring: Vec<ExpiryEntry>,
    /// Sum of notes sizes (ie. memory usage)
    memory_usage: usize,
    max_memory_usage: usize,
    /// The origin of creation and expiry keys.
    started: std::time::Instant,
}

impl View for Database {
    type V = Seq<StoredNote>;

    closed spec fn view(&self) -> Seq<StoredNote> {
        self.notes@
    }
}

impl Database {
    /// The memory budget.
    pub closed spec fn max_memory(&self) -> int {
        self.max_memory_usage as int
    }

    /// The store's invariant: consistent notes, whose total cost is the
    /// recorded memory usage and stays within the budget.
    pub closed spec fn wf(&self) -> bool {
        &&& notes_consistent(self.notes@)
        &&& index_matches(self.notes@, self.expiring@)
        &&& self.memory_usage == total_cost(self.notes@)
        &&& total_cost(self.notes@) <= self.max_memory_usage
    }

    /// A valid store holds consistent notes within its budget.
    pub proof fn lemma_valid_store(&self)
        requires
            self.wf(),
        ensures
            notes_consistent(self@),
            total_cost(self@) <= self.max_memory(),
    {
    }

    /// An empty store with a budget of `max_memory_usage` bytes.
    pub fn new(max_memory_usage: usize) -> (r: Database)
        ensures
            r.wf(),
            r@ == Seq::<StoredNote>::empty(),
            r.max_memory() == max_memory_usage,
    {
        Database {
            notes: Vec::new(),
            expiring: Vec::new(),
            memory_usage: 0,
            max_memory_usage,
            started: clock_now(),
        }
    }

    /// The memory that the live notes use.
    pub fn memory_usage(&self) -> (r: usize)
        requires
            self.wf(),
        ensures
            r == total_cost(self@),
    {
        self.memory_usage
    }

    /// Whether a live note has identifier `id`.
    fn contains_id(&self, id: &NoteId) -> (r: bool)
        ensures
            r == has_id(self@, id.bytes()),
    {
        let mut i: usize = 0;
        while i < self.notes.len()
            invariant
                i <= self.notes@.len(),
                forall|k: int| 0 <= k < i ==> self.notes@[k].id.bytes() != id.bytes(),
            decreases self.notes.len() - i,
        {
            if self.notes[i].id.same_as(id) {
                return true;
            }
            i = i + 1;
        }
        false
    }

    /// Whether a live note has expiry key `k`: a lookup in the expiry index.
    fn expire_key_taken(&self, k: u64) -> (r: bool)
        requires
            self.wf(),
        ensures
            r == has_expire_key(self@, k as int),
    {
        let ghost s = self.notes@;
        let ghost x = self.expiring@;
        match self.entry_position(k) {
            Some(a) => {
                assert(entry_listed(s, x[a as int]));
                true
            },
            None => {
                assert forall|i: int| 0 <= i < s.len() implies (#[trigger] s[i]).expire_key() != Some(
                    k as int,
                ) by {
                    if s[i].expire_key() is Some {
                        assert(note_indexed(x, s[i]));
                    }
                }
                false
            },
        }
    }

    /// The creation key of a note that expires after `expires_after` seconds
    /// added at `now`, or `None` when none is left.
    fn creation_key(&self, now: u64, expires_after: u32) -> (r: Option<u64>)
        requires
            self.wf(),
        ensures
            match r {
                Some(c) => is_creation_key(self@, now as int, expires_after, c as int),
                None => keys_exhausted(self@, now as int, expires_after),
            },
    {
        let len = self.notes.len();
        let mut c: u64 = now;
        if len > 0 && self.notes[len - 1].created_at >= now {
            if self.notes[len - 1].created_at == u64::MAX {
                return None;
            }
            c = self.notes[len - 1].created_at + 1;
        }
        let ghost base = c as int;
        assert(base == creation_base(self@, now as int));
        let ttl = secs_to_nanos(expires_after);
        if c > u64::MAX - ttl {
            return None;
        }
        if expires_after == 0 {
            return Some(c);
        }
        while self.expire_key_taken(c + ttl)
            invariant
                self.wf(),
                expires_after > 0,
                ttl == expires_after as int * NANOS_PER_SEC,
                base <= c <= u64::MAX - ttl,
                base == creation_base(self@, now as int),
                forall|d: int| base <= d < c ==> #[trigger] key_taken(self@, expires_after, d),
            decreases u64::MAX - c,
        {
            assert(key_taken(self@, expires_after, c as int));
            if c == u64::MAX - ttl {
                return None;
            }
            c = c + 1;
        }
        Some(c)
    }

    /// Adds a note under identifier `id` at time `now`.
    pub fn insert_note(&mut self, id: NoteId, content: NoteContent, now: u64) -> (r: Result<
        NoteId,
        AddNoteError,
    >)
        requires
            old(self).wf(),
        ensures
            final(self).wf(),
            final(self).max_memory() == old(self).max_memory(),
            content.cost() > old(self).max_memory() ==> r == Err::<NoteId, AddNoteError>(
                AddNoteError::TooLarge,
            ),
            content.cost() <= old(self).max_memory() && keys_exhausted(
                old(self)@,
                now as int,
                content.expires_after,
            ) ==> r == Err::<NoteId, AddNoteError>(AddNoteError::ClockExhausted),
            content.cost() <= old(self).max_memory() && !keys_exhausted(
                old(self)@,
                now as int,
                content.expires_after,
            ) && has_id(old(self)@, id.bytes()) ==> r == Err::<NoteId, AddNoteError>(
                AddNoteError::IdTaken,
            ),
            content.cost() <= old(self).max_memory() && !keys_exhausted(
                old(self)@,
                now as int,
                content.expires_after,
            ) && !has_id(old(self)@, id.bytes()) ==> r == Ok::<NoteId, AddNoteError>(id),
            r is Err ==> final(self)@ == old(self)@,
            r is Ok ==> note_added(
                old(self)@,
                final(self)@,
                id,
                content,
                now as int,
                old(self).max_memory(),
            ),
    {
        let len = content.data.len();
        if self.max_memory_usage < NOTE_BASE_MEMORY_USAGE || len > self.max_memory_usage
            - NOTE_BASE_MEMORY_USAGE {
            return Err(AddNoteError::TooLarge);
        }
        let cost = len + NOTE_BASE_MEMORY_USAGE;
        let c = match self.creation_key(now, content.expires_after) {
            None => {
                return Err(AddNoteError::ClockExhausted);
            },
            Some(c) => c,
        };
        if self.contains_id(&id) {
            return Err(AddNoteError::IdTaken);
        }
        let ghost o = self.notes@;
        let ghost ttl = content.expires_after as int * NANOS_PER_SEC;
        proof {
            assert(!key_taken(o, content.expires_after, c as int));
            assert forall|k: int| 0 <= k < o.len() implies {
                &&& (#[trigger] o[k]).created_at < c
                &&& o[k].id.bytes() != id.bytes()
                &&& (content.expires_after > 0 ==> o[k].expire_key() != Some(c + ttl))
            } by {
                assert(o[k].created_at <= o.last().created_at);
            }
        }
        self.collect_expired_notes(now);
        self.reclaim_memory_to_fit_note(cost);
        let ghost mid = self.notes@;
        proof {
            assert forall|k: int| 0 <= k < mid.len() implies {
                &&& (#[trigger] mid[k]).created_at < c
                &&& mid[k].id.bytes() != id.bytes()
                &&& (content.expires_after > 0 ==> mid[k].expire_key() != Some(c + ttl))
            } by {
                assert(unexpired(o, now as int).contains(mid[k]));
                let j1 = choose|j1: int| 0 <= j1 < unexpired(o, now as int).len()
                    && unexpired(o, now as int)[j1] == mid[k];
                assert(o.contains(unexpired(o, now as int)[j1]));
                let j = choose|j: int| 0 <= j < o.len() && o[j] == mid[k];
                assert(o[j] == mid[k]);
            }
        }
        let ghost x = self.expiring@;
        let expires_after = content.expires_after;
        let n = StoredNote { id, created_at: c, content };
        if expires_after > 0 {
            let k = c + secs_to_nanos(expires_after);
            let p = self.insertion_point(k);
            proof {
                assert forall|b: int| p <= b < x.len() implies (#[trigger] x[b]).expire_at > k by {
                    assert(entry_listed(mid, x[b]));
                    let j = choose|j: int| 0 <= j < mid.len() && entry_of(#[trigger] mid[j], x[b]);
                }
                lemma_push_pair(mid, x, n, p as int, ExpiryEntry { expire_at: k, created_at: c, id });
            }
            self.expiring.insert(p, ExpiryEntry { expire_at: k, created_at: c, id });
        } else {
            proof {
                lemma_push_plain(mid, x, n);
            }
        }
        self.notes.push(n);
        proof {
            assert(self.notes@.drop_last() =~= mid);
        }
        self.memory_usage = self.memory_usage + cost;
        Ok(id)
    }

    /// Where the live note with identifier `id` stands, if there is one.
    fn position_of(&self, id: &NoteId) -> (r: Option<usize>)
        ensures
            match r {
                Some(i) => i < self@.len() && self@[i as int].id.bytes() == id.bytes(),
                None => !has_id(self@, id.bytes()),
            },
    {
        let mut i: usize = 0;
        while i < self.notes.len()
            invariant
                i <= self.notes@.len(),
                forall|k: int| 0 <= k < i ==> self.notes@[k].id.bytes() != id.bytes(),
            decreases self.notes.len() - i,
        {
            if self.notes[i].id.same_as(id) {
                return Some(i);
            }
            i = i + 1;
        }
        None
    }

    /// The time to live that a read at `now` reports for note `n`.
    fn remaining_ttl_secs(n: &StoredNote, now: u64) -> (r: Option<u32>)
        ensures
            r == remaining_ttl(*n, now as int),
    {
        if n.content.expires_after > 0 {
            let elapsed: u64 = if now > n.created_at {
                (now - n.created_at) / NANOS_PER_SEC
            } else {
                0
            };
            let e: u32 = if elapsed > u32::MAX as u64 {
                0
            } else {
                elapsed as u32
            };
            let left: u32 = if n.content.expires_after > e {
                n.content.expires_after - e
            } else {
                0
            };
            Some(
                if left < 1 {
                    1
                } else {
                    left
                },
            )
        } else {
            None
        }
    }

    /// Reads the note with identifier `id` at time `now`, after sweeping the
    /// notes that expired before `now`.
    pub fn read_note_at(&mut self, note_id: NoteId, now: u64) -> (r: Option<NoteReadContent>)
        requires
            old(self).wf(),
        ensures
            final(self).wf(),
            final(self).max_memory() == old(self).max_memory(),
            read_outcome(old(self)@, note_id.bytes(), now as int, final(self)@, r),
    {
        self.collect_expired_notes(now);
        let ghost s = self.notes@;
        let i = match self.position_of(&note_id) {
            None => {
                return None;
            },
            Some(i) => i,
        };
        let views = self.notes[i].content.remaining_views;
        if views == 1 {
            let n = self.remove_note_at(i);
            let out = NoteReadContent { data: n.content.data, expires_after: None, remaining_views: Some(0) };
            assert(note_read(s, i as int, now as int, self.notes@, out));
            Some(out)
        } else if views > 1 {
            let mut n = self.notes.remove(i);
            n.content.remaining_views = views - 1;
            let data = copy_bytes(&n.content.data);
            let expires_after = Self::remaining_ttl_secs(&n, now);
            self.notes.insert(i, n);
            proof {
                let x = with_views(s[i as int], (views - 1) as u32);
                assert(self.notes@ =~= s.update(i as int, x));
                lemma_total_cost_update(s, i as int, x);
                lemma_update_same_key(s, self.expiring@, i as int, x);
                let u = self.notes@;
                assert forall|k: int| 0 <= k < u.len() implies {
                    &&& (#[trigger] u[k]).created_at == s[k].created_at
                    &&& u[k].id == s[k].id
                    &&& u[k].expire_key() == s[k].expire_key()
                } by {}
            }
            let out = NoteReadContent { data, expires_after, remaining_views: Some(views - 1) };
            assert(note_read(s, i as int, now as int, self.notes@, out));
            Some(out)
        } else {
            let n = &self.notes[i];
            let out = NoteReadContent {
                data: copy_bytes(&n.content.data),
                expires_after: Self::remaining_ttl_secs(n, now),
                remaining_views: None,
            };
            assert(note_read(s, i as int, now as int, self.notes@, out));
            Some(out)
        }
    }

    /// Adds a note at time `now` under a freshly drawn identifier.
    pub fn add_note_at(&mut self, content: NoteContent, now: u64) -> (r: Result<NoteId, AddNoteError>)
        requires
            old(self).wf(),
        ensures
            final(self).wf(),
            final(self).max_memory() == old(self).max_memory(),
            content.cost() > old(self).max_memory() <==> r == Err::<NoteId, AddNoteError>(
                AddNoteError::TooLarge,
            ),
            content.cost() <= old(self).max_memory() && keys_exhausted(
                old(self)@,
                now as int,
                content.expires_after,
            ) <==> r == Err::<NoteId, AddNoteError>(AddNoteError::ClockExhausted),
            r == Err::<NoteId, AddNoteError>(AddNoteError::IdTaken) ==> old(self)@.len() > 0
                && exists|id: NoteId| has_id(old(self)@, #[trigger] id.bytes()),
            old(self)@.len() == 0 && content.cost() <= old(self).max_memory() && !keys_exhausted(
                old(self)@,
                now as int,
                content.expires_after,
            ) ==> r is Ok,
            r is Err ==> final(self)@ == old(self)@,
            r is Ok ==> !has_id(old(self)@, r->Ok_0.bytes()) && note_added(
                old(self)@,
                final(self)@,
                r->Ok_0,
                content,
                now as int,
                old(self).max_memory(),
            ),
    {
        let mut id = NoteId::generate();
        let mut attempts: usize = 1;
        while attempts < MAX_ID_ATTEMPTS && self.contains_id(&id)
            invariant
                1 <= attempts <= MAX_ID_ATTEMPTS,
            decreases MAX_ID_ATTEMPTS - attempts,
        {
            // collision, try again
            id = NoteId::generate();
            attempts = attempts + 1;
        }
        self.insert_note(id, content, now)
    }

    /// Adds a note now; see [`Database::add_note_at`].
    pub fn add_note(&mut self, content: NoteContent) -> (r: Result<NoteId, AddNoteError>)
        requires
            old(self).wf(),
        ensures
            final(self).wf(),
            final(self).max_memory() == old(self).max_memory(),
            content.cost() > old(self).max_memory() <==> r == Err::<NoteId, AddNoteError>(
                AddNoteError::TooLarge,
            ),
            r == Err::<NoteId, AddNoteError>(AddNoteError::IdTaken) ==> old(self)@.len() > 0
                && exists|id: NoteId| has_id(old(self)@, #[trigger] id.bytes()),
            r == Err::<NoteId, AddNoteError>(AddNoteError::ClockExhausted) ==> exists|now: u64|
                keys_exhausted(old(self)@, now as int, content.expires_after),
            r is Err ==> final(self)@ == old(self)@,
            r is Ok ==> !has_id(old(self)@, r->Ok_0.bytes()) && exists|now: u64|
                note_added(
                    old(self)@,
                    final(self)@,
                    r->Ok_0,
                    content,
                    now as int,
                    old(self).max_memory(),
                ),
    {
        let now = nanos_since(&self.started);
        self.add_note_at(content, now)
    }

    /// Reads a note now; see [`Database::read_note_at`].
    pub fn read_note(&mut self, note_id: NoteId) -> (r: Option<NoteReadContent>)
        requires
            old(self).wf(),
        ensures
            final(self).wf(),
            final(self).max_memory() == old(self).max_memory(),
            exists|now: u64| read_outcome(old(self)@, note_id.bytes(), now as int, final(self)@, r),
    {
        let now = nanos_since(&self.started);
        self.read_note_at(note_id, now)
    }

    /// The number of live notes, expired ones not yet swept included.
    pub fn len(&self) -> (r: usize)
        ensures
            r == self@.len(),
    {
        self.notes.len()
    }

    /// The creation key of the live note with identifier `id`.
    pub fn created_at_of(&self, id: &NoteId) -> (r: Option<u64>)
        ensures
            match r {
                Some(c) => exists|i: int|
                    0 <= i < self@.len() && (#[trigger] self@[i]).id.bytes() == id.bytes()
                        && self@[i].created_at == c,
                None => !has_id(self@, id.bytes()),
            },
    {
        match self.position_of(id) {
            Some(i) => Some(self.notes[i].created_at),
            None => None,
        }
    }

    /// The expiry key of the live note with identifier `id`, if it has one.
    pub fn expire_at_of(&self, id: &NoteId) -> (r: Option<u64>)
        requires
            self.wf(),
        ensures
            match r {
                Some(t) => exists|i: int|
                    0 <= i < self@.len() && (#[trigger] self@[i]).id.bytes() == id.bytes()
                        && self@[i].expire_key() == Some(t as int),
                None => forall|i: int|
                    0 <= i < self@.len() && (#[trigger] self@[i]).id.bytes() == id.bytes()
                        ==> self@[i].expire_key() is None,
            },
    {
        match self.position_of(id) {
            Some(i) => {
                let n = &self.notes[i];
                assert(n.expire_key() == self@[i as int].expire_key());
                if n.content.expires_after > 0 {
                    Some(n.created_at + secs_to_nanos(n.content.expires_after))
                } else {
                    None
                }
            },
            None => None,
        }
    }

    /// Where the live note with creation key `c` stands, if there is one: a
    /// binary search over the notes in creation order.
    fn position_of_created(&self, c: u64) -> (r: Option<usize>)
        requires
            self.wf(),
        ensures
            match r {
                Some(i) => i < self.notes@.len() && self.notes@[i as int].created_at == c,
                None => forall|i: int|
                    0 <= i < self.notes@.len() ==> (#[trigger] self.notes@[i]).created_at != c,
            },
    {
        let mut lo: usize = 0;
        let mut hi: usize = self.notes.len();
        while lo < hi
            invariant
                self.wf(),
                lo <= hi <= self.notes@.len(),
                forall|i: int| 0 <= i < lo ==> (#[trigger] self.notes@[i]).created_at < c,
                forall|i: int| hi <= i < self.notes@.len() ==> (#[trigger] self.notes@[i]).created_at > c,
            decreases hi - lo,
        {
            let mid = lo + (hi - lo) / 2;
            let m = self.notes[mid].created_at;
            if m == c {
                return Some(mid);
            } else if m < c {
                assert forall|i: int| 0 <= i <= mid implies (#[trigger] self.notes@[i]).created_at < c by {
                    if i < mid {
                        assert(self.notes@[i].created_at < self.notes@[mid as int].created_at);
                    }
                }
                lo = mid + 1;
            } else {
                assert forall|i: int| mid <= i < self.notes@.len() implies (
                #[trigger] self.notes@[i]).created_at > c by {
                    if i > mid {
                        assert(self.notes@[mid as int].created_at < self.notes@[i].created_at);
                    }
                }
                hi = mid;
            }
        }
        None
    }

    /// Where the entry with key `k` stands in the expiry index, if anywhere.
    fn entry_position(&self, k: u64) -> (r: Option<usize>)
        requires
            index_sorted(self.expiring@),
        ensures
            match r {
                Some(a) => a < self.expiring@.len() && self.expiring@[a as int].expire_at == k,
                None => forall|a: int|
                    0 <= a < self.expiring@.len() ==> (#[trigger] self.expiring@[a]).expire_at != k,
            },
    {
        let p = self.insertion_point(k);
        if p < self.expiring.len() && self.expiring[p].expire_at == k {
            Some(p)
        } else {
            assert forall|a: int| 0 <= a < self.expiring@.len() implies (
            #[trigger] self.expiring@[a]).expire_at != k by {
                if a > p {
                    assert(self.expiring@[p as int].expire_at < self.expiring@[a].expire_at);
                }
            }
            None
        }
    }

    /// Where an entry with key `k` goes in the sorted expiry index: a binary
    /// search.
    fn insertion_point(&self, k: u64) -> (p: usize)
        requires
            index_sorted(self.expiring@),
        ensures
            p <= self.expiring@.len(),
            forall|b: int| 0 <= b < p ==> (#[trigger] self.expiring@[b]).expire_at < k,
            forall|b: int|
                p <= b < self.expiring@.len() ==> (#[trigger] self.expiring@[b]).expire_at >= k,
    {
        let mut lo: usize = 0;
        let mut hi: usize = self.expiring.len();
        while lo < hi
            invariant
                index_sorted(self.expiring@),
                lo <= hi <= self.expiring@.len(),
                forall|b: int| 0 <= b < lo ==> (#[trigger] self.expiring@[b]).expire_at < k,
                forall|b: int|
                    hi <= b < self.expiring@.len() ==> (#[trigger] self.expiring@[b]).expire_at >= k,
            decreases hi - lo,
        {
            let mid = lo + (hi - lo) / 2;
            if self.expiring[mid].expire_at < k {
                assert forall|b: int| 0 <= b <= mid implies (#[trigger] self.expiring@[b]).expire_at
                    < k by {
                    if b < mid {
                        assert(self.expiring@[b].expire_at < self.expiring@[mid as int].expire_at);
                    }
                }
                lo = mid + 1;
            } else {
                assert forall|b: int| mid <= b < self.expiring@.len() implies (
                #[trigger] self.expiring@[b]).expire_at >= k by {
                    if b > mid {
                        assert(self.expiring@[mid as int].expire_at < self.expiring@[b].expire_at);
                    }
                }
                hi = mid;
            }
        }
        lo
    }

    /// Removes note `i` from the notes, and its entry from the expiry index.
    fn remove_note_at(&mut self, i: usize) -> (n: StoredNote)
        requires
            old(self).wf(),
            i < old(self)@.len(),
        ensures
            final(self).wf(),
            n == old(self)@[i as int],
            final(self)@ == old(self)@.remove(i as int),
            final(self).max_memory_usage == old(self).max_memory_usage,
            n.expire_key() is None ==> final(self).expiring@ == old(self).expiring@,
            n.expire_key() is Some ==> exists|a: int|
                0 <= a < old(self).expiring@.len() && entry_of(n, #[trigger] old(self).expiring@[a])
                    && final(self).expiring@ == old(self).expiring@.remove(a),
    {
        let ghost s = self.notes@;
        let ghost x = self.expiring@;
        proof {
            lemma_total_cost_remove(s, i as int);
            lemma_remove_keeps(s, i as int, s);
        }
        let n = self.notes.remove(i);
        if n.content.expires_after > 0 {
            assert(n.expire_key() == s[i as int].expire_key());
            let k = n.created_at + secs_to_nanos(n.content.expires_after);
            assert(note_indexed(x, s[i as int]));
            let ghost b = choose|b: int| 0 <= b < x.len() && entry_of(s[i as int], #[trigger] x[b]);
            match self.entry_position(k) {
                Some(a) => {
                    proof {
                        if a < b {
                            assert(x[a as int].expire_at < x[b].expire_at);
                        } else if a > b {
                            assert(x[b].expire_at < x[a as int].expire_at);
                        }
                        lemma_remove_pair(s, x, i as int, a as int);
                    }
                    self.expiring.remove(a);
                },
                None => {
                    assert(x[b].expire_at == k);
                },
            }
        } else {
            proof {
                lemma_remove_plain(s, x, i as int);
            }
        }
        self.memory_usage = self.memory_usage - (n.content.data.len() + NOTE_BASE_MEMORY_USAGE);
        n
    }

    /// Removes every note whose expiry key is before `now`, walking the
    /// expiry index from its smallest key.
    fn collect_expired_notes(&mut self, now: u64)
        requires
            old(self).wf(),
        ensures
            final(self).wf(),
            final(self)@ == unexpired(old(self)@, now as int),
            notes_within(final(self)@, old(self)@),
            final(self).max_memory_usage == old(self).max_memory_usage,
    {
        let ghost o = self.notes@;
        let ghost mut bound: int = 0;
        proof {
            lemma_unexpired_none(o, 0);
        }
        while self.expiring.len() > 0 && self.expiring[0].expire_at < now
            invariant
                self.wf(),
                self.max_memory_usage == old(self).max_memory_usage,
                notes_within(self.notes@, o),
                bound <= now,
                self.notes@ == unexpired(o, bound),
                forall|a: int| 0 <= a < self.expiring@.len() ==> (#[trigger] self.expiring@[a]).expire_at >= bound,
            decreases self.expiring.len(),
        {
            let ghost c = self.notes@;
            let ghost x = self.expiring@;
            let ghost k = x[0].expire_at as int;
            assert(entry_listed(c, x[0]));
            let ghost j = choose|j: int| 0 <= j < c.len() && entry_of(#[trigger] c[j], x[0]);
            let created_at = self.expiring[0].created_at;
            match self.position_of_created(created_at) {
                Some(i) => {
                    assert(i == j);
                    proof {
                        lemma_remove_keeps(c, i as int, o);
                    }
                    let n = self.remove_note_at(i);
                    proof {
                        let a = choose|a: int| 0 <= a < x.len() && entry_of(n, #[trigger] x[a])
                            && self.expiring@ == x.remove(a);
                        if a > 0 {
                            assert(x[0].expire_at < x[a].expire_at);
                        }
                        assert forall|jj: int| 0 <= jj < c.len() && jj != i implies !(
                        #[trigger] c[jj]).is_expired(k + 1) by {
                            if c[jj].expire_key() is Some {
                                assert(note_indexed(x, c[jj]));
                                let bb = choose|bb: int| 0 <= bb < x.len() && entry_of(c[jj], #[trigger] x[bb]);
                                if bb == 0 {
                                    assert(c[jj].expire_key() == c[j].expire_key());
                                } else {
                                    assert(x[0].expire_at < x[bb].expire_at);
                                }
                            }
                        }
                        lemma_unexpired_one(c, k + 1, i as int);
                        lemma_unexpired_twice(o, bound, k + 1);
                        assert forall|aa: int| 0 <= aa < self.expiring@.len() implies (
                        #[trigger] self.expiring@[aa]).expire_at >= k + 1 by {
                            assert(self.expiring@[aa] == x[aa + 1]);
                            assert(x[0].expire_at < x[aa + 1].expire_at);
                        }
                        bound = k + 1;
                    }
                },
                None => {
                    assert(c[j].created_at == created_at);
                },
            }
        }
        proof {
            let c = self.notes@;
            let x = self.expiring@;
            assert forall|jj: int| 0 <= jj < c.len() implies !(#[trigger] c[jj]).is_expired(now as int) by {
                if c[jj].expire_key() is Some {
                    assert(note_indexed(x, c[jj]));
                    let bb = choose|bb: int| 0 <= bb < x.len() && entry_of(c[jj], #[trigger] x[bb]);
                    if bb > 0 {
                        assert(x[0].expire_at < x[bb].expire_at);
                    }
                }
            }
            lemma_unexpired_none(c, now as int);
            lemma_unexpired_twice(o, bound, now as int);
        }
    }

    /// Evicts the oldest notes until a note of cost `need` fits.
    fn reclaim_memory_to_fit_note(&mut self, need: usize)
        requires
            old(self).wf(),
            need <= old(self).max_memory_usage,
        ensures
            final(self).wf(),
            final(self)@ == evicted(old(self)@, need as int, old(self).max_memory_usage as int),
            notes_within(final(self)@, old(self)@),
            total_cost(final(self)@) + need <= final(self).max_memory_usage,
            final(self).max_memory_usage == old(self).max_memory_usage,
    {
        let ghost o = self.notes@;
        let ghost max = self.max_memory_usage as int;
        while self.notes.len() > 0 && self.memory_usage > self.max_memory_usage - need
            invariant
                self.wf(),
                evicted(self.notes@, need as int, max) == evicted(o, need as int, max),
                notes_within(self.notes@, o),
                self.max_memory_usage == max,
                need <= max,
            decreases self.notes.len(),
        {
            let ghost before = self.notes@;
            proof {
                lemma_remove_keeps(before, 0, o);
            }
            let _ = self.remove_note_at(0);
            assert(self.notes@ =~= before.drop_first());
        }
        proof {
            lemma_total_cost_nonneg(self.notes@);
        }
    }
}

} // verus!
