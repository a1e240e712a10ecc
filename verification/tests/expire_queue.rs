use rust_upload::expire_queue::ExpireQueue;
use rust_upload::expire_queue::InvalidUploadIdError;
use rust_upload::expire_queue::UploadId;

#[test]
fn test_generate_upload_id() {
    let id = UploadId::generate(12345);
    assert_eq!(12345, id.get_expire());
}

#[test]
fn test_queue() {
    let mut queue = ExpireQueue::new();

    let id1 = UploadId::generate(10);
    let id2 = UploadId::generate(15);

    queue.push(id1);
    queue.push(id2);

    assert_eq!(vec![id1], queue.get_expired(12));

    assert_eq!(vec![id2], queue.get_expired(20));

    let id3 = UploadId::generate(10);
    let id4 = UploadId::generate(15);
    let id5 = UploadId::generate(20);

    queue.push(id3);
    queue.push(id4);
    queue.push(id5);

    assert_eq!(vec![id3, id4, id5], queue.get_expired(20));
}

#[test]
fn test_expire_roundtrip_edges() {
    assert_eq!(0, UploadId::generate(0).get_expire());
    let max56: u64 = (1u64 << 56) - 1;
    assert_eq!(max56, UploadId::generate(max56).get_expire());
    // Beyond 56 bits the high-order bits are silently dropped.
    assert_eq!(5, UploadId::generate((1u64 << 56) + 5).get_expire());
}

#[test]
fn test_expired_boundary() {
    let id = UploadId::generate(100);
    assert!(!id.is_expired(99));
    assert!(id.is_expired(100));
    assert!(id.is_expired(101));
}

#[test]
fn test_render_shape() {
    let id = UploadId::generate(424242);
    let s = id.as_string();
    assert_eq!(32, s.len());
    assert!(s.chars().all(|c| c.is_ascii_hexdigit() && !c.is_ascii_uppercase()));
}

#[test]
fn test_parse_render_roundtrip() {
    let id = UploadId::generate(777);
    let parsed = UploadId::new(&id.as_string());
    assert_eq!(Ok(id), parsed);
}

#[test]
fn test_parse_rejects_bad_length() {
    assert_eq!(Err(InvalidUploadIdError::InvalidUUID), UploadId::new("xyz"));
    assert_eq!(Err(InvalidUploadIdError::InvalidUUID), UploadId::new(""));
    assert_eq!(
        Err(InvalidUploadIdError::InvalidUUID),
        UploadId::new("0123456789abcdef0123456789abcdef0")
    );
}

#[test]
fn test_parse_rejects_bad_characters() {
    assert_eq!(
        Err(InvalidUploadIdError::InvalidString),
        UploadId::new("0123456789abcdef0123456789abcdeg")
    );
    assert_eq!(
        Err(InvalidUploadIdError::InvalidString),
        UploadId::new("--------------------------------")
    );
}

#[test]
fn test_parse_accepts_both_cases() {
    let lower = UploadId::new("0123456789abcdef0123456789abcdef").unwrap();
    let upper = UploadId::new("0123456789ABCDEF0123456789ABCDEF").unwrap();
    assert_eq!(lower, upper);
    assert_eq!("0123456789abcdef0123456789abcdef", lower.as_string());
}

#[test]
fn test_queue_size_tracks_inserts_and_drains() {
    let mut queue = ExpireQueue::new();
    assert_eq!(0, queue.len());

    let ids: Vec<UploadId> = (0..10).map(|t| UploadId::generate(t * 100)).collect();
    for id in &ids {
        queue.push(*id);
    }
    assert_eq!(10, queue.len());

    let drained = queue.get_expired(449);
    assert_eq!(5, drained.len());
    assert_eq!(10 - drained.len(), queue.len());

    let rest = queue.get_expired(u64::MAX);
    assert_eq!(5, rest.len());
    assert_eq!(0, queue.len());
}

#[test]
fn test_full_drain_returns_everything_once() {
    let mut queue = ExpireQueue::new();
    let mut ids: Vec<UploadId> = Vec::new();
    for t in 0..100u64 {
        let id = UploadId::generate(1000 + t);
        ids.push(id);
        queue.push(id);
    }

    let drained = queue.get_expired(u64::MAX);
    assert_eq!(ids.len(), drained.len());
    assert_eq!(0, queue.len());
    // Nothing is lost and nothing is duplicated.
    for id in &ids {
        assert_eq!(1, drained.iter().filter(|d| *d == id).count());
    }
    // And the result comes back soonest first.
    for w in drained.windows(2) {
        assert!(w[0].get_expire() <= w[1].get_expire());
    }
}

#[test]
fn test_push_same_identifier_twice() {
    let mut queue = ExpireQueue::new();
    let id = UploadId::generate(50);
    queue.push(id);
    queue.push(id);
    // The scheduler does not deduplicate: a duplicate identifier is
    // tracked as a separate entry and drained once per copy.
    assert_eq!(2, queue.len());
    assert_eq!(vec![id, id], queue.get_expired(50));
    assert_eq!(0, queue.len());
}
