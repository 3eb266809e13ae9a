use email_classifier::log::{prefix, Clock};

#[test]
fn lines_are_timed_from_the_start_and_from_each_other() {
    let mut clock: Option<Clock> = None;
    assert_eq!(prefix(&mut clock, 5_000), (0, 0));
    assert_eq!(prefix(&mut clock, 5_700), (700, 700));
    assert_eq!(prefix(&mut clock, 6_000), (1_000, 300));
    assert_eq!(clock, Some(Clock { start: 5_000, prev: 6_000 }));
}

#[test]
fn an_earlier_instant_counts_as_no_time() {
    let mut clock = Some(Clock { start: 100, prev: 200 });
    assert_eq!(prefix(&mut clock, 150), (50, 0));
    assert_eq!(prefix(&mut clock, 40), (0, 0));
}
