use downloader::transfer::{check_status, TransferError, TransferProgress};

#[test]
fn success_range_is_accepted() {
    let src = String::from("https://host/a.txt");
    assert_eq!(check_status(&src, 200), Ok(()));
    assert_eq!(check_status(&src, 204), Ok(()));
    assert_eq!(check_status(&src, 299), Ok(()));
}

#[test]
fn other_statuses_are_bad_status() {
    let src = String::from("https://host/a.txt");
    for code in [100u16, 199, 300, 304, 404, 500] {
        assert_eq!(
            check_status(&src, code),
            Err(TransferError::BadStatus { source: src.clone(), status: code })
        );
    }
}

#[test]
fn progress_counts_written_bytes() {
    let mut p = TransferProgress::new(Some(10));
    assert_eq!(p.total_or_zero(), 10);
    assert_eq!(p.record_chunk(4), 4);
    assert_eq!(p.record_chunk(3), 3);
    assert_eq!(p.written, 7);
    assert_eq!(p.total_hint, Some(10));
}

#[test]
fn progress_without_size_hint_shows_zero_total() {
    let p = TransferProgress::new(None);
    assert_eq!(p.total_or_zero(), 0);
    assert_eq!(p.written, 0);
}

#[test]
fn progress_total_saturates() {
    let mut p = TransferProgress::new(None);
    p.written = u64::MAX - 1;
    assert_eq!(p.record_chunk(5), 5);
    assert_eq!(p.written, u64::MAX);
}
