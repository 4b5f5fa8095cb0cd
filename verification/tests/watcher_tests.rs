use videee::watcher::{
    next_generation, superseded, ReadOutcome, SidecarWait, WaitStep, INITIAL_RETRY_DELAY_MS,
    MAX_READ_ATTEMPTS,
};

/// Drives a wait over a scripted sequence of looks: (exists, parsed record).
fn run(max: u32, initial: u64, looks: &[(bool, Option<&'static str>)], superseded_at: Option<usize>) -> (ReadOutcome<&'static str>, Vec<u64>) {
    let mut wait = SidecarWait::new(max, initial);
    let mut sleeps = Vec::new();
    let mut i = 0;
    while wait.has_attempt_left() {
        let (exists, record) = looks[i.min(looks.len() - 1)];
        match wait.observe(superseded_at == Some(i), exists, record) {
            WaitStep::Finished(o) => return (o, sleeps),
            WaitStep::Sleep(d) => sleeps.push(d),
        }
        i += 1;
    }
    (ReadOutcome::GaveUp, sleeps)
}

#[test]
fn treats_zero_byte_placeholder_as_not_ready_then_succeeds_once_filled() {
    let (outcome, sleeps) = run(8, 10, &[(true, None), (true, None), (true, Some("clip-1"))], None);
    assert!(matches!(outcome, ReadOutcome::Ready("clip-1")));
    assert_eq!(sleeps, vec![10, 20]);
}

#[test]
fn gives_up_after_max_attempts_on_a_permanently_empty_file() {
    let (outcome, sleeps) = run(3, 5, &[(true, None)], None);
    assert!(matches!(outcome, ReadOutcome::GaveUp));
    assert_eq!(sleeps, vec![5, 10]);
}

#[test]
fn reports_deleted_when_file_never_existed() {
    let (outcome, sleeps) = run(3, 5, &[(false, None)], None);
    assert!(matches!(outcome, ReadOutcome::Deleted));
    assert!(sleeps.is_empty());
}

#[test]
fn stops_immediately_once_superseded() {
    let (outcome, sleeps) = run(8, 10, &[(true, None)], Some(0));
    assert!(matches!(outcome, ReadOutcome::Superseded));
    assert!(sleeps.is_empty());
}

#[test]
fn backoff_doubles_up_to_five_seconds() {
    let (outcome, sleeps) = run(MAX_READ_ATTEMPTS + 4, INITIAL_RETRY_DELAY_MS, &[(true, None)], None);
    assert!(matches!(outcome, ReadOutcome::GaveUp));
    assert_eq!(sleeps, vec![150, 300, 600, 1200, 2400, 4800, 5000, 5000, 5000]);
    let (_, sleeps) = run(3, 9000, &[(true, None)], None);
    assert_eq!(sleeps, vec![9000, 5000]);
}

#[test]
fn no_attempts_means_giving_up() {
    let wait = SidecarWait::new(0, 10);
    assert!(!wait.has_attempt_left());
}

#[test]
fn newer_event_supersedes_older_one() {
    let first = next_generation(None);
    assert_eq!(first, 1);
    let second = next_generation(Some(first));
    assert_eq!(second, 2);
    assert!(superseded(Some(second), first));
    assert!(!superseded(Some(second), second));
    assert!(superseded(None, second));
}
