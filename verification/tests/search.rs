use ashmaize_solver::preimage::preimage;
use ashmaize_solver::search::{
    batch_preimages, consecutive_nonces, first_good_hash, BatchSearch, NonceSearch, NUM_THREADS,
};

const BAD: [u8; 64] = [0xff; 64];

fn good() -> [u8; 64] {
    let mut h = [0xffu8; 64];
    h[0] = 0;
    h[1] = 0;
    h
}

const MASK: u32 = 0x0000_ffff;

#[test]
fn nonce_search_walks_by_stride() {
    let mut s = NonceSearch::new(3, NUM_THREADS);
    assert_eq!(s.current_nonce(), 3);
    assert!(s.can_record(&BAD, MASK));
    s.record(&BAD, MASK);
    assert_eq!(s.current_nonce(), 8);
    s.record(&BAD, MASK);
    assert_eq!(s.current_nonce(), 13);
    assert_eq!(s.hashes_done(), 2);
    assert_eq!(s.solution(), None);
    assert_eq!(s.current_preimage("sfx"), preimage(13, "sfx"));
}

#[test]
fn nonce_search_stops_at_first_good_hash() {
    let mut s = NonceSearch::new(0, 1);
    s.record(&BAD, MASK);
    s.record(&good(), MASK);
    assert_eq!(s.solution(), Some(1));
    assert_eq!(s.current_nonce(), 1);
    assert_eq!(s.hashes_done(), 2);
    assert!(!s.can_record(&BAD, MASK));
}

#[test]
fn nonce_search_refuses_overflowing_step() {
    let s = NonceSearch::new(u64::MAX - 1, 5);
    assert!(!s.can_record(&BAD, MASK));
    assert!(s.can_record(&good(), MASK));
}

#[test]
fn workers_do_not_share_nonces() {
    let mut seen = std::collections::HashSet::new();
    for t in 0..NUM_THREADS {
        let mut s = NonceSearch::new(t, NUM_THREADS);
        for _ in 0..50 {
            assert!(seen.insert(s.current_nonce()));
            s.record(&BAD, MASK);
        }
    }
    assert_eq!(seen.len(), 250);
}

#[test]
fn first_good_hash_finds_first() {
    assert_eq!(first_good_hash(&[], MASK), None);
    assert_eq!(first_good_hash(&[BAD, BAD], MASK), None);
    assert_eq!(first_good_hash(&[BAD, good(), good()], MASK), Some(1));
}

#[test]
fn batches_are_consecutive() {
    let mut b = BatchSearch::new(4);
    assert!(b.can_make_batch());
    assert_eq!(b.batch_nonces(), vec![0, 1, 2, 3]);
    let hashes = [BAD, BAD, BAD, BAD];
    assert!(b.can_record_batch(&hashes));
    b.record_batch(&hashes, MASK);
    assert_eq!(b.total_hashes(), 4);
    assert_eq!(b.solution(), None);
    assert_eq!(b.batch_nonces(), vec![4, 5, 6, 7]);
    b.record_batch(&[BAD, BAD, good(), good()], MASK);
    assert_eq!(b.solution(), Some(6));
    assert_eq!(b.total_hashes(), 7);
    assert!(!b.can_record_batch(&hashes));
}

#[test]
fn batch_helpers() {
    assert_eq!(consecutive_nonces(10, 3), vec![10, 11, 12]);
    assert_eq!(consecutive_nonces(u64::MAX, 1), vec![u64::MAX]);
    let pre = batch_preimages(&[5, 6], "abc");
    assert_eq!(pre, vec![preimage(5, "abc"), preimage(6, "abc")]);
}
