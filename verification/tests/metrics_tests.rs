use referral_list::metrics::{
    build_referral_person, check_day, contact_latency_minutes, day_of_millis,
    filter_average_candidates, filter_report_candidates, filter_score_events,
    filter_timeline_candidates, first_referral_date, last_contact_or_teaching,
    rolling_contact_score, stale_contact, zone_averages,
};
use referral_list::persons::{Person, PersonStatus, ReferralStatus, TimelineEvent,
    TimelineItemType};

const DAY: i64 = 86_400_000;

fn ev(kind: TimelineItemType, date: i64, status: Option<bool>) -> TimelineEvent {
    TimelineEvent { item_type: kind, item_date: date, status }
}

fn on_day(d: i64) -> i64 {
    d * DAY + 43_200_000
}

#[test]
fn days_of_millis_follow_the_calendar() {
    assert_eq!(day_of_millis(0), 0);
    assert_eq!(day_of_millis(DAY - 1), 0);
    assert_eq!(day_of_millis(DAY), 1);
    assert_eq!(day_of_millis(-1), -1);
    assert_eq!(day_of_millis(-DAY), -1);
    assert_eq!(day_of_millis(-DAY - 1), -2);
}

#[test]
fn last_contact_takes_first_match() {
    let t = vec![
        ev(TimelineItemType::Note, on_day(5), None),
        ev(TimelineItemType::Contact, on_day(4), Some(true)),
        ev(TimelineItemType::NewReferral, on_day(1), None),
    ];
    assert_eq!(last_contact_or_teaching(&t), Some(on_day(4)));
}

#[test]
fn last_contact_resets_on_referral() {
    let t = vec![
        ev(TimelineItemType::NewReferral, on_day(5), None),
        ev(TimelineItemType::Contact, on_day(4), Some(true)),
    ];
    assert_eq!(last_contact_or_teaching(&t), None);
    assert_eq!(last_contact_or_teaching(&Vec::new()), None);
}

#[test]
fn latency_of_ninety_minutes() {
    // Referral at T, first subsequent contact at T + 90 minutes.
    let t0: i64 = 1_000_000_000_000;
    let t = vec![
        ev(TimelineItemType::Contact, t0 + 90 * 60_000, Some(true)),
        ev(TimelineItemType::NewReferral, t0, None),
    ];
    assert_eq!(contact_latency_minutes(&t), Some(90));
}

#[test]
fn latency_none_without_contact() {
    let t = vec![ev(TimelineItemType::NewReferral, on_day(3), None)];
    assert_eq!(contact_latency_minutes(&t), None);
    let t = vec![ev(TimelineItemType::Contact, on_day(3), Some(true))];
    assert_eq!(contact_latency_minutes(&t), None);
    assert_eq!(contact_latency_minutes(&Vec::new()), None);
}

#[test]
fn check_day_scores() {
    let t = vec![
        ev(TimelineItemType::Contact, on_day(2), Some(true)),
        ev(TimelineItemType::Teaching, on_day(1), Some(false)),
        ev(TimelineItemType::NewReferral, on_day(0), None),
    ];
    assert_eq!(check_day(2, &t), -1);
    assert_eq!(check_day(1, &t), 1);
    assert_eq!(check_day(0, &t), 0);
    assert_eq!(check_day(7, &t), 0);
}

#[test]
fn rolling_score_stops_at_first_hit() {
    // Referral on day 0, successful-status contact on day 2, nothing after:
    // days 0, 1, 2 walked, hit on day 2, loop stops.
    let base = 20_000i64;
    let t = vec![
        ev(TimelineItemType::Contact, on_day(base + 2), Some(true)),
        ev(TimelineItemType::NewReferral, on_day(base), None),
    ];
    assert_eq!(rolling_contact_score(&t, base, base + 3), "1/3");
}

#[test]
fn rolling_score_soft_hits_walk_on() {
    // Referral day 0, status=false contact day 1, status=true contact day
    // 3, today day 10: four days walked, the one hit on day 3.
    let base = 20_000i64;
    let t = vec![
        ev(TimelineItemType::Contact, on_day(base + 3), Some(true)),
        ev(TimelineItemType::Contact, on_day(base + 1), Some(false)),
        ev(TimelineItemType::NewReferral, on_day(base), None),
    ];
    assert_eq!(rolling_contact_score(&t, base, base + 10), "1/4");
}

#[test]
fn rolling_score_empty_window() {
    let base = 20_000i64;
    let t = vec![ev(TimelineItemType::NewReferral, on_day(base), None)];
    // Today is the referral day itself: yesterday lies before the start.
    assert_eq!(rolling_contact_score(&t, base, base), "0/0");
    // The walk never exceeds seven days.
    assert_eq!(rolling_contact_score(&t, base, base + 30), "0/7");
}

fn person(status: PersonStatus, referral: ReferralStatus, assigned: i64) -> Person {
    Person {
        guid: "g-1".to_string(),
        first_name: "Ann".to_string(),
        referral_status: referral,
        person_status: status,
        mission_id: 5,
        zone_id: Some(3),
        zone_name: Some("Zone".to_string()),
        district_id: None,
        area_name: Some("Area".to_string()),
        assigned_date: assigned,
    }
}

#[test]
fn report_filter_keeps_old_unworked_referrals() {
    let now = on_day(30_000);
    let keep = person(PersonStatus::Yellow, ReferralStatus::NotAttempted, now - 3 * DAY);
    let too_new = person(PersonStatus::Yellow, ReferralStatus::NotAttempted, now - DAY);
    let done = person(PersonStatus::Yellow, ReferralStatus::Successful, now - 3 * DAY);
    let member = person(PersonStatus::Member, ReferralStatus::NotAttempted, now - 3 * DAY);
    let r = filter_report_candidates(vec![keep, too_new, done, member], now);
    assert_eq!(r.len(), 1);
    assert_eq!(r[0].assigned_date, now - 3 * DAY);
}

#[test]
fn timeline_filter_keeps_recent_candidates() {
    let now = on_day(30_000);
    let keep = person(PersonStatus::Green, ReferralStatus::NotSuccessful, now - 3 * DAY);
    let too_old = person(PersonStatus::Green, ReferralStatus::NotSuccessful, now - 9 * DAY);
    let member = person(PersonStatus::Member, ReferralStatus::NotSuccessful, now - 3 * DAY);
    let r = filter_timeline_candidates(vec![keep, too_old, member], now);
    assert_eq!(r.len(), 1);
}

#[test]
fn average_filter_keeps_attempted_recent() {
    let now = on_day(30_000);
    let keep = person(PersonStatus::Green, ReferralStatus::NotSuccessful, now - 10 * DAY);
    let unattempted = person(PersonStatus::Green, ReferralStatus::NotAttempted, now - 10 * DAY);
    let too_old = person(PersonStatus::Green, ReferralStatus::NotSuccessful, now - 43 * DAY);
    let r = filter_average_candidates(vec![keep, unattempted, too_old], now);
    assert_eq!(r.len(), 1);
}

#[test]
fn stale_contact_window() {
    let now = on_day(30_000);
    assert!(stale_contact(None, now));
    assert!(stale_contact(Some(now - 3 * DAY), now));
    assert!(!stale_contact(Some(now - DAY), now));
}

#[test]
fn score_events_keep_status_bearing_contacts() {
    let t = vec![
        ev(TimelineItemType::Contact, on_day(2), Some(true)),
        ev(TimelineItemType::Contact, on_day(2), None),
        ev(TimelineItemType::Note, on_day(1), Some(true)),
        ev(TimelineItemType::NewReferral, on_day(0), None),
    ];
    let kept = filter_score_events(t);
    assert_eq!(kept.len(), 2);
    assert_eq!(kept[0].item_type, TimelineItemType::Contact);
    assert_eq!(kept[1].item_type, TimelineItemType::NewReferral);
}

#[test]
fn first_referral_is_found_in_order() {
    let t = vec![
        ev(TimelineItemType::Contact, on_day(2), Some(true)),
        ev(TimelineItemType::NewReferral, on_day(1), None),
        ev(TimelineItemType::NewReferral, on_day(0), None),
    ];
    assert_eq!(first_referral_date(&t), Some(on_day(1)));
    assert_eq!(first_referral_date(&Vec::new()), None);
}

#[test]
fn zone_averages_group_and_floor() {
    let pairs = vec![
        ("A".to_string(), 10u64),
        ("B".to_string(), 20u64),
        ("A".to_string(), 21u64),
    ];
    let mut r = zone_averages(pairs);
    r.sort();
    assert_eq!(r, vec![("A".to_string(), 15u64), ("B".to_string(), 20u64)]);
    assert_eq!(zone_averages(Vec::new()), Vec::new());
}

#[test]
fn referral_person_is_built_from_timeline() {
    let base = 20_000i64;
    let p = person(PersonStatus::Yellow, ReferralStatus::NotAttempted, on_day(base));
    let t = vec![
        ev(TimelineItemType::Contact, on_day(base + 2), Some(true)),
        ev(TimelineItemType::NewReferral, on_day(base), None),
    ];
    let rp = build_referral_person(&p, t, base + 3).unwrap();
    assert_eq!(rp.id, "g-1");
    assert_eq!(rp.name, "Ann");
    assert_eq!(rp.contact_time, 2 * 24 * 60);
    assert_eq!(rp.events.len(), 2);
    assert_eq!(rp.score, "1/3");
    assert_eq!(rp.area, "Area");
}

#[test]
fn referral_person_needs_a_completed_window() {
    let base = 20_000i64;
    let p = person(PersonStatus::Yellow, ReferralStatus::NotAttempted, on_day(base));
    let t = vec![ev(TimelineItemType::NewReferral, on_day(base), None)];
    assert!(build_referral_person(&p, t, base + 3).is_none());
}
