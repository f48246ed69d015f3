use chunked_upload::progress::ProgressState;

#[test]
fn progress_starts_at_zero() {
    let p = ProgressState::new(100);
    assert_eq!(p.bytes_done(), 0);
    assert_eq!(p.total_size(), 100);
    assert!(!p.is_complete());
}

#[test]
fn progress_adds_the_bytes_of_each_part() {
    let mut p = ProgressState::new(13);
    p.advance(5);
    assert_eq!(p.bytes_done(), 5);
    p.advance(5);
    assert_eq!(p.bytes_done(), 10);
    assert!(!p.is_complete());
    p.advance(3);
    assert_eq!(p.bytes_done(), 13);
    assert!(p.is_complete());
}

#[test]
fn progress_stops_at_the_total() {
    let mut p = ProgressState::new(10);
    p.advance(7);
    p.advance(7);
    assert_eq!(p.bytes_done(), 10);
    p.advance(u64::MAX);
    assert_eq!(p.bytes_done(), 10);
    assert_eq!(p.total_size(), 10);
}

#[test]
fn progress_never_shrinks() {
    let mut p = ProgressState::new(u64::MAX);
    let mut last = 0;
    for length in [0u64, 1, u64::MAX / 2, 0, u64::MAX / 2, 5, 0] {
        p.advance(length);
        assert!(p.bytes_done() >= last);
        assert!(p.bytes_done() <= p.total_size());
        last = p.bytes_done();
    }
    assert!(p.is_complete());
}

#[test]
fn progress_of_nothing_is_complete() {
    let p = ProgressState::new(0);
    assert!(p.is_complete());
}
