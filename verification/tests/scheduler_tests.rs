use referral_list::scheduler::SendTime;

const DAY: u64 = 86_400;

#[test]
fn not_due_before_next_twice() {
    // Two polls in immediate succession without crossing `next` both come
    // back not due, and the state stays put.
    let mut st = SendTime::new(100, 7_000);
    assert!(!st.is_go_time_with(6_000, 500));
    assert_eq!((st.last, st.next), (100, 7_000));
    assert!(!st.is_go_time_with(6_100, 600));
    assert_eq!((st.last, st.next), (100, 7_000));
}

#[test]
fn due_fires_exactly_once() {
    let mut st = SendTime::new(100, 7_000);
    // Crossing `next` fires once...
    assert!(st.is_go_time_with(7_001, 400));
    assert_eq!(st.last, 7_000);
    // ... re-armed on the following day (7_000 and 7_001 share day zero),
    // at the drawn minute.
    assert_eq!(st.next, DAY + 400 * 60);
    // ... and the polls after it, before the new `next`, stay quiet.
    assert!(!st.is_go_time_with(7_002, 410));
    assert!(!st.is_go_time_with(DAY + 400 * 60, 420));
    assert_eq!((st.last, st.next), (7_000, DAY + 400 * 60));
}

#[test]
fn fresh_state_only_arms_itself() {
    // `last == next` marks a state that never fired: the poll draws a
    // fresh `next` and reports not due.
    let mut st = SendTime::new(0, 0);
    assert!(!st.is_go_time_with(5, 390));
    assert_eq!(st.last, 0);
    // Day zero of `last` equals day zero of `now`, so the draw lands on
    // the next calendar day.
    assert_eq!(st.next, DAY + 390 * 60);
}

#[test]
fn catch_up_lands_on_the_same_day() {
    // When the last send was on an earlier day, the fresh `next` lands on
    // the current day, catching a missed window up.
    let mut st = SendTime::new(100, 2 * DAY);
    assert!(st.is_go_time_with(3 * DAY + 10, 500));
    assert_eq!(st.last, 2 * DAY);
    assert_eq!(st.next, 3 * DAY + 500 * 60);
}

#[test]
fn random_draw_stays_in_the_send_window() {
    // The drawn minute always lies between 6:30 and 12:00.
    for _ in 0..32 {
        let mut st = SendTime::new(100, 7_000);
        assert!(st.is_go_time(7_001));
        let minute = (st.next % DAY) / 60;
        assert!((390..=720).contains(&minute), "minute {minute}");
    }
}
