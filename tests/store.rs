use rsecnotes::db::{AddNoteError, Database, NoteContent, NOTE_BASE_MEMORY_USAGE};
use rsecnotes::note_id::NoteId;

const SEC: u64 = 1_000_000_000;

fn content(data: Vec<u8>, expires_after: u32, remaining_views: u32) -> NoteContent {
    NoteContent {
        data,
        expires_after,
        remaining_views,
    }
}

fn id_of(b: u8) -> NoteId {
    NoteId { id: [b; 32] }
}

#[test]
fn base_memory_usage_value() {
    assert_eq!(NOTE_BASE_MEMORY_USAGE, 152);
    assert_eq!(content(vec![0; 10], 0, 0).note_memory_usage(), 162);
}

#[test]
fn round_trip_unlimited() {
    let mut db = Database::new(10_000);
    let id = db.add_note_at(content(vec![1, 2, 3], 0, 0), 0).unwrap();
    for t in [0u64, 5, 100 * SEC] {
        let r = db.read_note_at(id, t).unwrap();
        assert_eq!(r.data, vec![1, 2, 3]);
        assert_eq!(r.expires_after, None);
        assert_eq!(r.remaining_views, None);
        assert!(!r.expired());
    }
    assert_eq!(db.len(), 1);
}

#[test]
fn view_exhaustion() {
    let mut db = Database::new(10_000);
    let id = db.add_note_at(content(vec![9; 4], 0, 1), 0).unwrap();
    assert_eq!(db.memory_usage(), 156);
    let r = db.read_note_at(id, 1).unwrap();
    assert_eq!(r.data, vec![9; 4]);
    assert_eq!(r.remaining_views, Some(0));
    assert_eq!(r.expires_after, None);
    assert!(r.expired());
    assert!(db.read_note_at(id, 2).is_none());
    assert_eq!(db.memory_usage(), 0);
    assert_eq!(db.len(), 0);
}

#[test]
fn views_count_down() {
    let mut db = Database::new(10_000);
    let id = db.add_note_at(content(vec![7], 0, 3), 0).unwrap();
    assert_eq!(db.read_note_at(id, 1).unwrap().remaining_views, Some(2));
    assert_eq!(db.read_note_at(id, 2).unwrap().remaining_views, Some(1));
    assert_eq!(db.read_note_at(id, 3).unwrap().remaining_views, Some(0));
    assert!(db.read_note_at(id, 4).is_none());
}

#[test]
fn ttl_expiry_after_boundary() {
    let mut db = Database::new(10_000);
    let id = db.add_note_at(content(vec![1], 1, 0), 0).unwrap();
    assert!(db.read_note_at(id, SEC + 1).is_none());
    assert_eq!(db.len(), 0);
    assert_eq!(db.memory_usage(), 0);
}

#[test]
fn ttl_expiry_before_boundary() {
    let mut db = Database::new(10_000);
    let id = db.add_note_at(content(vec![1], 1, 0), 0).unwrap();
    let r = db.read_note_at(id, 0).unwrap();
    assert_eq!(r.expires_after, Some(1));
    let r = db.read_note_at(id, SEC).unwrap();
    assert_eq!(r.expires_after, Some(1));
    assert_eq!(r.remaining_views, None);
}

#[test]
fn remaining_ttl_counts_whole_seconds() {
    let mut db = Database::new(10_000);
    let id = db.add_note_at(content(vec![1], 10, 5), 0).unwrap();
    let r = db.read_note_at(id, 3 * SEC + SEC / 2).unwrap();
    assert_eq!(r.expires_after, Some(7));
    assert_eq!(r.remaining_views, Some(4));
}

#[test]
fn remaining_ttl_floor_is_one() {
    let mut db = Database::new(10_000);
    let id = db.add_note_at(content(vec![1], 2, 0), 0).unwrap();
    let r = db.read_note_at(id, 2 * SEC).unwrap();
    assert_eq!(r.expires_after, Some(1));
}

#[test]
fn oldest_evicted_first() {
    let budget = 2 * NOTE_BASE_MEMORY_USAGE + 100;
    let mut db = Database::new(budget);
    let a = db.add_note_at(content(vec![1; 100], 0, 0), 0).unwrap();
    let b = db.add_note_at(content(vec![2; 100], 0, 0), 1).unwrap();
    assert!(db.read_note_at(a, 2).is_none());
    let r = db.read_note_at(b, 3).unwrap();
    assert_eq!(r.data, vec![2; 100]);
    assert_eq!(db.memory_usage(), NOTE_BASE_MEMORY_USAGE + 100);
}

#[test]
fn eviction_ignores_ttl_and_views() {
    let budget = 3 * NOTE_BASE_MEMORY_USAGE;
    let mut db = Database::new(budget);
    let a = db.add_note_at(content(vec![], 0, 0), 0).unwrap();
    let b = db.add_note_at(content(vec![], 5, 2), 1).unwrap();
    let c = db.add_note_at(content(vec![], 0, 0), 2).unwrap();
    let d = db.add_note_at(content(vec![], 0, 0), 3).unwrap();
    assert!(db.read_note_at(a, 4).is_none());
    assert!(db.read_note_at(b, 4).is_some());
    assert!(db.read_note_at(c, 4).is_some());
    assert!(db.read_note_at(d, 4).is_some());
}

#[test]
fn oversize_rejected_store_unchanged() {
    let budget = 2 * NOTE_BASE_MEMORY_USAGE + 100;
    let mut db = Database::new(budget);
    let a = db.add_note_at(content(vec![1; 10], 0, 0), 0).unwrap();
    let before = db.memory_usage();
    let r = db.add_note_at(content(vec![0; budget - NOTE_BASE_MEMORY_USAGE + 1], 0, 0), 1);
    assert_eq!(r, Err(AddNoteError::TooLarge));
    assert_eq!(AddNoteError::TooLarge.message(), "note too big");
    assert_eq!(db.memory_usage(), before);
    assert_eq!(db.len(), 1);
    assert_eq!(db.read_note_at(a, 2).unwrap().data, vec![1; 10]);
}

#[test]
fn exact_fit_accepted() {
    let budget = NOTE_BASE_MEMORY_USAGE + 50;
    let mut db = Database::new(budget);
    let id = db.add_note_at(content(vec![3; 50], 0, 0), 0).unwrap();
    assert_eq!(db.memory_usage(), budget);
    assert!(db.read_note_at(id, 1).is_some());
}

#[test]
fn budget_below_overhead_rejects_all() {
    let mut db = Database::new(NOTE_BASE_MEMORY_USAGE - 1);
    assert_eq!(
        db.add_note_at(content(vec![], 0, 0), 0),
        Err(AddNoteError::TooLarge)
    );
}

#[test]
fn ordering_unique_in_succession() {
    let mut db = Database::new(10_000);
    let a = db.add_note_at(content(vec![1], 10, 0), 5).unwrap();
    let b = db.add_note_at(content(vec![2], 10, 0), 5).unwrap();
    assert!(!a.same_as(&b));
    assert_eq!(db.created_at_of(&a), Some(5));
    assert_eq!(db.created_at_of(&b), Some(6));
    assert_eq!(db.expire_at_of(&a), Some(5 + 10 * SEC));
    assert_eq!(db.expire_at_of(&b), Some(6 + 10 * SEC));
}

#[test]
fn creation_key_monotonic_when_clock_goes_back() {
    let mut db = Database::new(10_000);
    let a = db.add_note_at(content(vec![1], 0, 0), 100).unwrap();
    let b = db.add_note_at(content(vec![2], 0, 0), 50).unwrap();
    assert_eq!(db.created_at_of(&a), Some(100));
    assert_eq!(db.created_at_of(&b), Some(101));
    assert_eq!(db.expire_at_of(&b), None);
}

#[test]
fn expiry_key_collision_nudges_creation_key() {
    let mut db = Database::new(10_000);
    let a = db.add_note_at(content(vec![1], 2, 0), 0).unwrap();
    let b = db.add_note_at(content(vec![2], 1, 0), SEC).unwrap();
    assert_eq!(db.expire_at_of(&a), Some(2 * SEC));
    assert_eq!(db.created_at_of(&b), Some(SEC + 1));
    assert_eq!(db.expire_at_of(&b), Some(2 * SEC + 1));
}

#[test]
fn add_sweeps_expired_notes() {
    let mut db = Database::new(10_000);
    let _a = db.add_note_at(content(vec![1; 8], 1, 0), 0).unwrap();
    let b = db.add_note_at(content(vec![2; 8], 0, 0), 3 * SEC).unwrap();
    assert_eq!(db.len(), 1);
    assert_eq!(db.memory_usage(), NOTE_BASE_MEMORY_USAGE + 8);
    assert!(db.read_note_at(b, 3 * SEC).is_some());
}

#[test]
fn insert_with_taken_id() {
    let mut db = Database::new(10_000);
    assert_eq!(
        db.insert_note(id_of(1), content(vec![1], 0, 0), 0),
        Ok(id_of(1))
    );
    assert_eq!(
        db.insert_note(id_of(1), content(vec![2], 0, 0), 1),
        Err(AddNoteError::IdTaken)
    );
    assert_eq!(db.len(), 1);
    assert_eq!(db.read_note_at(id_of(1), 2).unwrap().data, vec![1]);
}

#[test]
fn clock_exhausted() {
    let mut db = Database::new(10_000);
    assert_eq!(
        db.insert_note(id_of(1), content(vec![1], 1, 0), u64::MAX),
        Err(AddNoteError::ClockExhausted)
    );
    assert_eq!(db.len(), 0);
    assert_eq!(
        db.insert_note(id_of(2), content(vec![1], 0, 0), u64::MAX),
        Ok(id_of(2))
    );
    assert_eq!(
        db.insert_note(id_of(3), content(vec![1], 0, 0), 0),
        Err(AddNoteError::ClockExhausted)
    );
}

#[test]
fn unknown_id_not_found() {
    let mut db = Database::new(10_000);
    db.insert_note(id_of(1), content(vec![1], 0, 0), 0).unwrap();
    assert!(db.read_note_at(id_of(2), 1).is_none());
    assert_eq!(db.len(), 1);
}

#[test]
fn live_clock_round_trip() {
    let mut db = Database::new(10_000);
    let id = db.add_note(content(vec![4, 5], 60, 2)).unwrap();
    let r = db.read_note(id).unwrap();
    assert_eq!(r.data, vec![4, 5]);
    assert_eq!(r.remaining_views, Some(1));
    assert!(r.expires_after.unwrap() >= 1);
    let r = db.read_note(id).unwrap();
    assert_eq!(r.remaining_views, Some(0));
    assert!(db.read_note(id).is_none());
}

#[test]
fn last_view_reports_no_ttl() {
    let mut db = Database::new(10_000);
    let id = db.add_note_at(content(vec![1], 30, 1), 0).unwrap();
    let r = db.read_note_at(id, SEC).unwrap();
    assert_eq!(r.expires_after, None);
    assert_eq!(r.remaining_views, Some(0));
}

#[test]
fn read_sweeps_expired_notes() {
    let mut db = Database::new(10_000);
    let _a = db.add_note_at(content(vec![1; 5], 1, 0), 0).unwrap();
    let _b = db.add_note_at(content(vec![2; 5], 5, 0), 0).unwrap();
    let c = db.add_note_at(content(vec![3; 5], 0, 0), 0).unwrap();
    assert_eq!(db.len(), 3);
    assert!(db.read_note_at(c, 2 * SEC).is_some());
    assert_eq!(db.len(), 2);
    assert!(db.read_note_at(c, 6 * SEC).is_some());
    assert_eq!(db.len(), 1);
    assert_eq!(db.memory_usage(), NOTE_BASE_MEMORY_USAGE + 5);
}

#[test]
fn sweep_over_many_notes_in_expiry_order() {
    let mut db = Database::new(100_000);
    let ttls: [u32; 8] = [5, 1, 7, 3, 0, 2, 6, 4];
    let mut ids = Vec::new();
    for (k, ttl) in ttls.iter().enumerate() {
        ids.push(db.add_note_at(content(vec![k as u8], *ttl, 0), 0).unwrap());
    }
    let keep = db.add_note_at(content(vec![], 0, 0), 0).unwrap();
    for secs in 1..=8u64 {
        assert!(db.read_note_at(keep, secs * SEC + SEC / 2).is_some());
        let live = ttls
            .iter()
            .filter(|t| **t == 0 || (**t as u64) >= secs + 1)
            .count();
        assert_eq!(db.len(), live + 1);
    }
    assert!(db.read_note_at(ids[4], 9 * SEC).is_some());
    assert!(db.read_note_at(ids[2], 9 * SEC).is_none());
}
