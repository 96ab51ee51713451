use aff::pool::{aff_default_workers, parse_size, AffPoolQueue, AffWork};

#[test]
fn pool_runs_the_oldest_job_first() {
    let mut queue: AffPoolQueue<usize> = AffPoolQueue::new();
    queue.submit(7);
    queue.submit(9);
    assert!(matches!(queue.work(), AffWork::Run(7)));
    assert!(matches!(queue.work(), AffWork::Run(9)));
    assert!(matches!(queue.work(), AffWork::Wait));
}

#[test]
fn stopped_pool_drops_its_jobs() {
    let mut queue: AffPoolQueue<usize> = AffPoolQueue::new();
    queue.submit(7);
    queue.shut_down();
    assert!(matches!(queue.work(), AffWork::Stop));
    assert_eq!(queue.jobs.len(), 0);
    queue.submit(8);
    assert!(matches!(queue.work(), AffWork::Stop));
}

#[test]
fn numbers_are_read_as_numbers() {
    assert_eq!(parse_size("0"), Some(0));
    assert_eq!(parse_size("12"), Some(12));
    assert_eq!(parse_size("+4"), Some(4));
    assert_eq!(parse_size("007"), Some(7));
    assert_eq!(parse_size("18446744073709551615"), Some(usize::MAX));
    for text in ["", "+", "-1", "++1", "1 ", " 1", "1_0", "0x10", "one", "\u{663}", "18446744073709551616"] {
        assert_eq!(parse_size(text), None);
        assert_eq!(text.parse::<usize>().ok(), None);
    }
}

#[test]
fn setting_chooses_the_number_of_workers() {
    let setting = |text: &str| Some(text.to_string());
    assert_eq!(aff_default_workers(setting("3"), Some(8)), 3);
    assert_eq!(aff_default_workers(setting("1"), Some(8)), 1);
    assert_eq!(aff_default_workers(setting("0"), Some(8)), 8);
    assert_eq!(aff_default_workers(setting("many"), Some(8)), 8);
    assert_eq!(aff_default_workers(None, Some(8)), 8);
    assert_eq!(aff_default_workers(None, Some(1)), 2);
    assert_eq!(aff_default_workers(None, Some(2)), 2);
    assert_eq!(aff_default_workers(None, None), 4);
}
