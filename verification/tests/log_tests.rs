use media_vault::log_buffer::{clear, snapshot_since, BufferWriter, CAPACITY};

fn write(b: &mut BufferWriter, msg: &str) -> u64 {
    b.write("2024-01-01 00:00:00.000".to_string(), "INFO".to_string(), "app".to_string(), msg.to_string())
        .expect("sequence numbers left")
}

#[test]
fn numbers_start_at_one_and_grow() {
    let mut b = BufferWriter::new();
    assert_eq!(b.next_seq(), 1);
    assert_eq!(write(&mut b, "a"), 1);
    assert_eq!(write(&mut b, "b"), 2);
    assert_eq!(b.len(), 2);
}

#[test]
fn poll_since_zero_returns_everything_in_order() {
    let mut b = BufferWriter::new();
    write(&mut b, "a");
    write(&mut b, "b");
    let all = snapshot_since(&b, 0);
    assert_eq!(all.len(), 2);
    assert_eq!(all[0].message, "a");
    assert_eq!(all[1].seq, 2);
    assert_eq!(all[1].level, "INFO");
}

#[test]
fn poll_returns_only_newer_records() {
    let mut b = BufferWriter::new();
    write(&mut b, "a");
    let seen = write(&mut b, "b");
    write(&mut b, "c");
    let newer = snapshot_since(&b, seen);
    assert_eq!(newer.len(), 1);
    assert_eq!(newer[0].message, "c");
    assert!(snapshot_since(&b, 3).is_empty());
}

#[test]
fn clear_keeps_numbering() {
    let mut b = BufferWriter::new();
    write(&mut b, "a");
    write(&mut b, "b");
    clear(&mut b);
    assert_eq!(b.len(), 0);
    assert_eq!(write(&mut b, "c"), 3);
    let all = snapshot_since(&b, 0);
    assert_eq!(all.len(), 1);
    assert_eq!(all[0].seq, 3);
}

#[test]
fn full_buffer_drops_the_oldest() {
    let mut b = BufferWriter::new();
    for i in 0..(CAPACITY + 2) {
        write(&mut b, &i.to_string());
    }
    assert_eq!(b.len(), CAPACITY);
    let all = snapshot_since(&b, 0);
    assert_eq!(all[0].seq, 3);
    assert_eq!(all[0].message, "2");
    assert_eq!(all[CAPACITY - 1].seq, (CAPACITY + 2) as u64);
}

#[test]
fn numbers_are_never_reused_after_clear() {
    let mut b = BufferWriter::new();
    let first = write(&mut b, "a");
    clear(&mut b);
    let second = write(&mut b, "b");
    assert!(second > first);
    assert_eq!(snapshot_since(&b, first).len(), 1);
}
