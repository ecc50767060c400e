use downloader::schedule::{Scheduler, TransferOutcome};
use downloader::transfer::TransferError;

#[test]
fn zero_limit_is_refused() {
    assert!(Scheduler::new(3, 0).is_none());
    assert!(Scheduler::new(3, 1).is_some());
}

#[test]
fn empty_run_is_finished_at_once() {
    let s = Scheduler::new(0, 2).unwrap();
    assert!(s.is_finished());
    assert!(s.into_outcomes().is_empty());
}

#[test]
fn five_requests_two_permits_one_failure() {
    let mut s = Scheduler::new(5, 2).unwrap();
    let mut in_flight: Vec<usize> = Vec::new();
    let mut max_seen = 0usize;
    let mut order: Vec<usize> = Vec::new();
    while !s.is_finished() {
        while let Some(i) = s.try_admit() {
            in_flight.push(i);
            order.push(i);
        }
        max_seen = max_seen.max(in_flight.len());
        assert!(in_flight.len() <= 2);
        // The oldest task finishes first; request 2 always fails.
        let i = in_flight.remove(0);
        let outcome = if i == 2 {
            TransferOutcome::Failure {
                source: format!("https://host/{i}"),
                error: TransferError::BadStatus { source: format!("https://host/{i}"), status: 500 },
            }
        } else {
            TransferOutcome::Success { path: format!("out/{i}") }
        };
        s.complete(i, outcome);
    }
    assert_eq!(max_seen, 2);
    assert_eq!(order, vec![0, 1, 2, 3, 4]);
    let outcomes = s.into_outcomes();
    assert_eq!(outcomes.len(), 5);
    for (i, o) in outcomes.iter().enumerate() {
        if i == 2 {
            assert!(matches!(o, TransferOutcome::Failure { .. }));
        } else {
            assert_eq!(o, &TransferOutcome::Success { path: format!("out/{i}") });
        }
    }
}

#[test]
fn no_admission_beyond_limit() {
    let mut s = Scheduler::new(3, 1).unwrap();
    assert_eq!(s.try_admit(), Some(0));
    assert_eq!(s.try_admit(), None);
    s.complete(0, TransferOutcome::Success { path: String::from("x") });
    assert_eq!(s.try_admit(), Some(1));
    assert!(!s.is_finished());
}

#[test]
fn same_locator_twice_gets_two_files() {
    let mut s = Scheduler::new(2, 2).unwrap();
    let nothing_on_disk = |_p: &String| false;
    let a = s.try_admit().unwrap();
    let (_, p0) = s.prepare("https://host/a.txt", "out", false, &nothing_on_disk).unwrap();
    let b = s.try_admit().unwrap();
    let (_, p1) = s.prepare("https://host/a.txt", "out", false, &nothing_on_disk).unwrap();
    assert_eq!((a, b), (0, 1));
    assert_eq!(p0, "out/a.txt");
    assert_eq!(p1, "out/a (1).txt");
}

#[test]
fn overwrite_reuses_the_same_path() {
    let mut s = Scheduler::new(2, 2).unwrap();
    let on_disk = |p: &String| p == "out/a.txt";
    let p0 = s.claim_target("out", "a.txt", true, &on_disk);
    let p1 = s.claim_target("out", "a.txt", true, &on_disk);
    assert_eq!(p0, "out/a.txt");
    assert_eq!(p1, "out/a.txt");
}

#[test]
fn existing_file_and_claimed_path_are_both_skipped() {
    let mut s = Scheduler::new(2, 2).unwrap();
    let on_disk = |p: &String| p == "out/a.txt";
    assert_eq!(s.claim_target("out", "a.txt", false, &on_disk), "out/a (1).txt");
    assert_eq!(s.claim_target("out", "a.txt", false, &on_disk), "out/a (2).txt");
}

#[test]
fn invalid_locator_fails_before_claiming() {
    let mut s = Scheduler::new(1, 1).unwrap();
    let i = s.try_admit().unwrap();
    let r = s.prepare("::bad::", "out", false, &|_p: &String| false);
    match r {
        Err(TransferError::InvalidSource { source, .. }) => assert_eq!(source, "::bad::"),
        other => panic!("unexpected {:?}", other),
    }
    s.complete(i, TransferOutcome::Failure {
        source: String::from("::bad::"),
        error: TransferError::InvalidSource { source: String::from("::bad::"), message: String::new() },
    });
    assert!(s.is_finished());
    // The next claim is not affected by the failed one.
    assert_eq!(s.claim_target("out", "a.txt", false, &|_p: &String| false), "out/a.txt");
}
