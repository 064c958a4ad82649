//! Pure analytics over a person's activity timeline: the date of the last
//! contact, the latency from a referral to the first contact that follows
//! it, and the day-by-day rolling contact score of the week after a
//! referral. All functions work on the event list alone; nothing here does
//! I/O.
use crate::persons::{
    Person, PersonStatus, ReferralPerson, ReferralStatus, TimelineEvent, TimelineItemType,
};
use crate::text::dec_chars_of;
use vstd::arithmetic::div_mod::{lemma_fundamental_div_mod, lemma_fundamental_div_mod_converse};
use vstd::prelude::*;

verus! {

/// Milliseconds in one calendar day.
pub const DAY_MILLIS: i64 = 86400000;

/// The calendar day (floor of the division by the day length) that an
/// epoch-millisecond timestamp falls on.
pub open spec fn spec_day_of(t: int) -> int {
    t / (DAY_MILLIS as int)
}

/// Computes the calendar day of an epoch-millisecond timestamp, rounding
/// toward minus infinity, so that days before the epoch come out right.
pub fn day_of_millis(t: i64) -> (d: i64)
    ensures
        d == spec_day_of(t as int),
{
    if t >= 0 {
        let q = (t as u64) / (DAY_MILLIS as u64);
        proof {
            lemma_fundamental_div_mod(t as int, DAY_MILLIS as int);
        }
        q as i64
    } else {
        let neg: u64 = (-(t as i128)) as u64;
        let q = (neg - 1) / (DAY_MILLIS as u64) + 1;
        let d = -(q as i64);
        proof {
            let n = neg as int;
            let dd = DAY_MILLIS as int;
            lemma_fundamental_div_mod(n - 1, dd);
            let a = (n - 1) / dd;
            let r = (n - 1) % dd;
            assert(n - 1 == a * dd + r) by {
                lemma_fundamental_div_mod(n - 1, dd);
            }
            if r == dd - 1 {
                lemma_fundamental_div_mod_converse(-n, dd, -(a + 1), 0);
            } else {
                lemma_fundamental_div_mod_converse(-n, dd, -(a + 1), dd - r - 2 + 1);
            }
        }
        d
    }
}

/// Scans the timeline in the order given: the first `Contact` or
/// `Teaching` event decides, a `NewReferral` seen first means "no contact
/// since the referral", and an exhausted list means no contact at all.
pub open spec fn spec_last_contact(s: Seq<TimelineEvent>) -> Option<i64>
    decreases s.len(),
{
    if s.len() == 0 {
        None
    } else if s[0].item_type == TimelineItemType::Contact || s[0].item_type
        == TimelineItemType::Teaching {
        Some(s[0].item_date)
    } else if s[0].item_type == TimelineItemType::NewReferral {
        None
    } else {
        spec_last_contact(s.drop_first())
    }
}

/// The date of the most recent contact or teaching event, scanning in the
/// order the service returned the timeline. A `NewReferral` encountered
/// first resets the clock: the person counts as not yet contacted.
pub fn last_contact_or_teaching(timeline: &Vec<TimelineEvent>) -> (r: Option<i64>)
    ensures
        r == spec_last_contact(timeline@),
{
    let n = timeline.len();
    proof {
        assert(timeline@.skip(0) =~= timeline@);
    }
    let mut i: usize = 0;
    while i < n
        invariant
            i <= n == timeline@.len(),
            spec_last_contact(timeline@) == spec_last_contact(timeline@.skip(i as int)),
        decreases n - i,
    {
        proof {
            assert(timeline@.skip(i as int)[0] == timeline@[i as int]);
            assert(timeline@.skip(i as int).drop_first() =~= timeline@.skip(i + 1));
        }
        let e = &timeline[i];
        match e.item_type {
            TimelineItemType::Contact | TimelineItemType::Teaching => {
                return Some(e.item_date);
            },
            TimelineItemType::NewReferral => {
                return None;
            },
            _ => {},
        }
        i = i + 1;
    }
    proof {
        assert(timeline@.skip(n as int) =~= Seq::<TimelineEvent>::empty());
    }
    None
}

/// One step of the latency scan: a referral opens a new window (clearing
/// any contact already seen), and the first contact or teaching event with
/// the window open closes it.
pub open spec fn latency_scan(
    s: Seq<TimelineEvent>,
    referral: Option<i64>,
    contact: Option<i64>,
) -> (Option<i64>, Option<i64>)
    decreases s.len(),
{
    if s.len() == 0 {
        (referral, contact)
    } else {
        let e = s[0];
        if e.item_type == TimelineItemType::NewReferral {
            latency_scan(s.drop_first(), Some(e.item_date), None)
        } else if (e.item_type == TimelineItemType::Contact || e.item_type
            == TimelineItemType::Teaching) && contact is None {
            latency_scan(s.drop_first(), referral, Some(e.item_date))
        } else {
            latency_scan(s.drop_first(), referral, contact)
        }
    }
}

/// Whole minutes from `r` to `c`, truncated toward zero as a duration
/// difference in milliseconds is.
pub open spec fn spec_minutes_between(r: int, c: int) -> int {
    if c >= r {
        (c - r) / 60000
    } else {
        -((r - c) / 60000)
    }
}

/// What `contact_latency_minutes` returns: the timeline is reversed into
/// forward chronological order, scanned, and the last completed
/// referral-to-contact window yields its length in whole minutes.
pub open spec fn spec_contact_latency(s: Seq<TimelineEvent>) -> Option<int> {
    let (referral, contact) = latency_scan(s.reverse(), None, None);
    match (referral, contact) {
        (Some(r), Some(c)) => Some(spec_minutes_between(r as int, c as int)),
        _ => None,
    }
}

/// Minutes from the most recent referral to the first contact or teaching
/// event after it, or nothing if no such pair completes. The timeline is
/// taken as the service returns it (most recent first) and reversed before
/// scanning.
pub fn contact_latency_minutes(timeline: &Vec<TimelineEvent>) -> (r: Option<i64>)
    ensures
        match r {
            Some(m) => spec_contact_latency(timeline@) == Some(m as int),
            None => spec_contact_latency(timeline@) == None::<int>,
        },
{
    let n = timeline.len();
    let ghost rev = timeline@.reverse();
    proof {
        assert(rev.skip(0) =~= rev);
    }
    let mut referral: Option<i64> = None;
    let mut contact: Option<i64> = None;
    let mut i: usize = 0;
    while i < n
        invariant
            i <= n == timeline@.len(),
            rev == timeline@.reverse(),
            latency_scan(rev, None, None) == latency_scan(rev.skip(i as int), referral, contact),
        decreases n - i,
    {
        proof {
            assert(rev.skip(i as int)[0] == rev[i as int]);
            assert(rev[i as int] == timeline@[n - 1 - i as int]);
            assert(rev.skip(i as int).drop_first() =~= rev.skip(i + 1));
        }
        let e = &timeline[n - 1 - i];
        match e.item_type {
            TimelineItemType::NewReferral => {
                referral = Some(e.item_date);
                contact = None;
            },
            TimelineItemType::Contact | TimelineItemType::Teaching => {
                if contact.is_none() {
                    contact = Some(e.item_date);
                }
            },
            _ => {},
        }
        i = i + 1;
    }
    proof {
        assert(rev.skip(n as int) =~= Seq::<TimelineEvent>::empty());
    }
    match (referral, contact) {
        (Some(r), Some(c)) => Some(minutes_between(r, c)),
        _ => None,
    }
}

/// Whole minutes from `r` to `c`, truncated toward zero.
fn minutes_between(r: i64, c: i64) -> (m: i64)
    ensures
        m == spec_minutes_between(r as int, c as int),
{
    if c >= r {
        let diff: u64 = (c as i128 - r as i128) as u64;
        let q = diff / 60000;
        proof {
            lemma_fundamental_div_mod(diff as int, 60000);
        }
        q as i64
    } else {
        let diff: u64 = (r as i128 - c as i128) as u64;
        let q = diff / 60000;
        proof {
            lemma_fundamental_div_mod(diff as int, 60000);
        }
        -(q as i64)
    }
}

/// An event is a contact or a teaching visit.
pub open spec fn is_contact_event(e: TimelineEvent) -> bool {
    e.item_type == TimelineItemType::Contact || e.item_type == TimelineItemType::Teaching
}

proof fn lemma_latency_scan_no_contact(s: Seq<TimelineEvent>, referral: Option<i64>)
    requires
        forall|i: int| 0 <= i < s.len() ==> !is_contact_event(#[trigger] s[i]),
    ensures
        latency_scan(s, referral, None::<i64>).1 == None::<i64>,
    decreases s.len(),
{
    if s.len() > 0 {
        assert forall|i: int| 0 <= i < s.drop_first().len() implies !is_contact_event(
            #[trigger] s.drop_first()[i],
        ) by {
            assert(s.drop_first()[i] == s[i + 1]);
        }
        if s[0].item_type == TimelineItemType::NewReferral {
            lemma_latency_scan_no_contact(s.drop_first(), Some(s[0].item_date));
        } else {
            lemma_latency_scan_no_contact(s.drop_first(), referral);
        }
    }
}

/// A timeline with no contact or teaching event at all has no contact
/// latency: no referral-to-contact window can ever complete.
pub proof fn lemma_latency_none_without_contact(s: Seq<TimelineEvent>)
    requires
        forall|i: int| 0 <= i < s.len() ==> !is_contact_event(#[trigger] s[i]),
    ensures
        spec_contact_latency(s) == None::<int>,
{
    let rev = s.reverse();
    assert forall|i: int| 0 <= i < rev.len() implies !is_contact_event(#[trigger] rev[i]) by {
        assert(rev[i] == s[s.len() - 1 - i]);
    }
    lemma_latency_scan_no_contact(rev, None::<i64>);
}

/// An event lies on `day` and is a contact or teaching event.
pub open spec fn on_day(e: TimelineEvent, day: int) -> bool {
    spec_day_of(e.item_date as int) == day && (e.item_type == TimelineItemType::Contact
        || e.item_type == TimelineItemType::Teaching)
}

/// How one calendar day of a timeline scores: `-1` if some contact or
/// teaching event on that day has a true status, `1` if such events exist
/// but none succeeded, and `0` if the day has none at all.
pub open spec fn spec_check_day(s: Seq<TimelineEvent>, day: int) -> int {
    if !(exists|i: int| 0 <= i < s.len() && on_day(#[trigger] s[i], day)) {
        0
    } else if exists|i: int|
        0 <= i < s.len() && on_day(#[trigger] s[i], day) && s[i].status == Some(true) {
        -1
    } else {
        1
    }
}

/// Scores one calendar day of a timeline; see `spec_check_day`.
pub fn check_day(day: i64, events: &Vec<TimelineEvent>) -> (r: i32)
    ensures
        r == spec_check_day(events@, day as int),
{
    let n = events.len();
    let mut found = false;
    let mut i: usize = 0;
    while i < n
        invariant
            i <= n == events@.len(),
            found <==> exists|k: int| 0 <= k < i && on_day(#[trigger] events@[k], day as int),
            forall|k: int|
                0 <= k < i ==> !(on_day(#[trigger] events@[k], day as int) && events@[k].status
                    == Some(true)),
        decreases n - i,
    {
        let e = &events[i];
        let is_contact = match e.item_type {
            TimelineItemType::Contact | TimelineItemType::Teaching => true,
            _ => false,
        };
        if is_contact && day_of_millis(e.item_date) == day {
            match e.status {
                Some(true) => {
                    return -1;
                },
                _ => {
                    found = true;
                },
            }
        }
        i = i + 1;
    }
    if found {
        1
    } else {
        0
    }
}

/// The walk of the rolling contact score: starting at `day`, inspect one
/// calendar day at a time, for at most `fuel` days and never past
/// `yesterday`. A day scored `-1` is a hit and ends the walk at once;
/// other days walk on. Yields the hits recorded and the days walked,
/// counting the terminal hit day.
pub open spec fn spec_walk(s: Seq<TimelineEvent>, day: int, yesterday: int, fuel: nat) -> (
    int,
    int,
)
    decreases fuel,
{
    if fuel == 0 || day > yesterday {
        (0, 0)
    } else if spec_check_day(s, day) == -1 {
        (1, 1)
    } else {
        let r = spec_walk(s, day + 1, yesterday, (fuel - 1) as nat);
        (r.0, r.1 + 1)
    }
}

fn walk_days(events: &Vec<TimelineEvent>, day: i64, yesterday: i64, fuel: u8) -> (r: (u32, u32))
    requires
        yesterday < i64::MAX,
        fuel <= 7,
    ensures
        (r.0 as int, r.1 as int) == spec_walk(events@, day as int, yesterday as int, fuel as nat),
        r.0 <= 1,
        r.1 <= fuel,
    decreases fuel,
{
    if fuel == 0 || day > yesterday {
        (0, 0)
    } else if check_day(day, events) == -1 {
        (1, 1)
    } else {
        let r = walk_days(events, day + 1, yesterday, fuel - 1);
        (r.0, r.1 + 1)
    }
}

/// Days of the scoring window: at most a week.
pub const SCORE_WINDOW_DAYS: u8 = 7;

/// The characters of the score string `<hits>/<days>`.
pub open spec fn spec_score_chars(hits: int, days: int) -> Seq<char> {
    dec_chars_of(hits) + seq!['/'] + dec_chars_of(days)
}

/// The rolling contact score of the week after a referral: walks forward
/// one calendar day at a time from `referral_day`, at most seven days and
/// never past the day before `today_day`, stopping at the first day with a
/// successfully contacted event. The result is `"<hits>/<daysWalked>"`.
pub fn rolling_contact_score(events: &Vec<TimelineEvent>, referral_day: i64, today_day: i64) -> (r:
    String)
    requires
        today_day > i64::MIN,
    ensures
        ({
            let w = spec_walk(
                events@,
                referral_day as int,
                today_day - 1,
                SCORE_WINDOW_DAYS as nat,
            );
            r@ == spec_score_chars(w.0, w.1)
        }),
{
    let yesterday = today_day - 1;
    let (hits, days) = walk_days(events, referral_day, yesterday, SCORE_WINDOW_DAYS);
    proof {
        reveal_strlit("/");
    }
    let mut s = crate::text::u64_to_string(hits as u64);
    s.append("/");
    crate::text::append_u64(&mut s, days as u64);
    proof {
        assert(s@ =~= spec_score_chars(hits as int, days as int));
    }
    s
}

/// Milliseconds of age past which a referral belongs on the report, and
/// past which a last contact counts as stale: 48 hours.
pub const REPORT_AGE_MILLIS: i64 = 172800000;

/// Milliseconds of the score-push window: 8 days.
pub const TIMELINE_WINDOW_MILLIS: i64 = 691200000;

/// Milliseconds of the averaging window: 42 days.
pub const AVERAGE_WINDOW_MILLIS: i64 = 3628800000;

/// A person the uncontacted-referrals report considers: not successfully
/// contacted, not yet a member, and assigned more than 48 hours ago.
pub open spec fn spec_needs_report(p: Person, now: int) -> bool {
    &&& p.referral_status != ReferralStatus::Successful
    &&& p.person_status.spec_code() < PersonStatus::NewMember.spec_code()
    &&& now - p.assigned_date > REPORT_AGE_MILLIS
}

fn needs_report(p: &Person, now: i64) -> (r: bool)
    ensures
        r == spec_needs_report(*p, now as int),
{
    let not_successful = match p.referral_status {
        ReferralStatus::Successful => false,
        _ => true,
    };
    not_successful && p.person_status.code() < 6 && (now as i128 - p.assigned_date as i128)
        > (REPORT_AGE_MILLIS as i128)
}

/// The report candidates of a roster, in roster order.
pub open spec fn report_candidates(s: Seq<Person>, now: int) -> Seq<Person>
    decreases s.len(),
{
    if s.len() == 0 {
        Seq::empty()
    } else if spec_needs_report(s[0], now) {
        seq![s[0]] + report_candidates(s.drop_first(), now)
    } else {
        report_candidates(s.drop_first(), now)
    }
}

/// Narrows a roster to the persons the report considers; see
/// `spec_needs_report`.
pub fn filter_report_candidates(list: Vec<Person>, now: i64) -> (r: Vec<Person>)
    ensures
        r@ == report_candidates(list@, now as int),
{
    let ghost all = list@;
    let mut rest = list;
    let mut out: Vec<Person> = Vec::new();
    proof {
        assert(all.take(all.len() as int) =~= all);
        assert(all.skip(all.len() as int) =~= Seq::<Person>::empty());
    }
    while rest.len() > 0
        invariant
            rest@ == all.take(rest@.len() as int),
            rest@.len() <= all.len(),
            out@ == report_candidates(all.skip(rest@.len() as int), now as int),
        decreases rest@.len(),
    {
        let ghost suffix = all.skip(rest@.len() as int);
        let e = rest.pop().unwrap();
        proof {
            assert(all.skip(rest@.len() as int)[0] == e);
            assert(all.skip(rest@.len() as int).drop_first() =~= suffix);
            assert(rest@ =~= all.take(rest@.len() as int));
        }
        if needs_report(&e, now) {
            out.insert(0, e);
            proof {
                assert(out@ =~= report_candidates(all.skip(rest@.len() as int), now as int));
            }
        }
    }
    proof {
        assert(all.skip(0) =~= all);
    }
    out
}

/// A person inside the score-push window: not yet a member and assigned
/// less than 8 days ago.
pub open spec fn spec_timeline_candidate(p: Person, now: int) -> bool {
    &&& p.person_status.spec_code() < PersonStatus::NewMember.spec_code()
    &&& now - p.assigned_date < TIMELINE_WINDOW_MILLIS
}

fn timeline_candidate(p: &Person, now: i64) -> (r: bool)
    ensures
        r == spec_timeline_candidate(*p, now as int),
{
    p.person_status.code() < 6 && (now as i128 - p.assigned_date as i128) < (
    TIMELINE_WINDOW_MILLIS as i128)
}

pub open spec fn timeline_candidates(s: Seq<Person>, now: int) -> Seq<Person>
    decreases s.len(),
{
    if s.len() == 0 {
        Seq::empty()
    } else if spec_timeline_candidate(s[0], now) {
        seq![s[0]] + timeline_candidates(s.drop_first(), now)
    } else {
        timeline_candidates(s.drop_first(), now)
    }
}

/// Narrows a roster to the persons whose scores get pushed; see
/// `spec_timeline_candidate`.
pub fn filter_timeline_candidates(list: Vec<Person>, now: i64) -> (r: Vec<Person>)
    ensures
        r@ == timeline_candidates(list@, now as int),
{
    let ghost all = list@;
    let mut rest = list;
    let mut out: Vec<Person> = Vec::new();
    proof {
        assert(all.take(all.len() as int) =~= all);
        assert(all.skip(all.len() as int) =~= Seq::<Person>::empty());
    }
    while rest.len() > 0
        invariant
            rest@ == all.take(rest@.len() as int),
            rest@.len() <= all.len(),
            out@ == timeline_candidates(all.skip(rest@.len() as int), now as int),
        decreases rest@.len(),
    {
        let ghost suffix = all.skip(rest@.len() as int);
        let e = rest.pop().unwrap();
        proof {
            assert(all.skip(rest@.len() as int)[0] == e);
            assert(all.skip(rest@.len() as int).drop_first() =~= suffix);
            assert(rest@ =~= all.take(rest@.len() as int));
        }
        if timeline_candidate(&e, now) {
            out.insert(0, e);
            proof {
                assert(out@ =~= timeline_candidates(all.skip(rest@.len() as int), now as int));
            }
        }
    }
    proof {
        assert(all.skip(0) =~= all);
    }
    out
}

/// A person the zone averages consider: attempted, not yet a member, and
/// assigned less than 42 days ago.
pub open spec fn spec_average_candidate(p: Person, now: int) -> bool {
    &&& p.referral_status != ReferralStatus::NotAttempted
    &&& p.person_status.spec_code() < PersonStatus::NewMember.spec_code()
    &&& now - p.assigned_date < AVERAGE_WINDOW_MILLIS
}

fn average_candidate(p: &Person, now: i64) -> (r: bool)
    ensures
        r == spec_average_candidate(*p, now as int),
{
    let attempted = match p.referral_status {
        ReferralStatus::NotAttempted => false,
        _ => true,
    };
    attempted && p.person_status.code() < 6 && (now as i128 - p.assigned_date as i128) < (
    AVERAGE_WINDOW_MILLIS as i128)
}

pub open spec fn average_candidates(s: Seq<Person>, now: int) -> Seq<Person>
    decreases s.len(),
{
    if s.len() == 0 {
        Seq::empty()
    } else if spec_average_candidate(s[0], now) {
        seq![s[0]] + average_candidates(s.drop_first(), now)
    } else {
        average_candidates(s.drop_first(), now)
    }
}

/// Narrows a roster to the persons the zone averages consider; see
/// `spec_average_candidate`.
pub fn filter_average_candidates(list: Vec<Person>, now: i64) -> (r: Vec<Person>)
    ensures
        r@ == average_candidates(list@, now as int),
{
    let ghost all = list@;
    let mut rest = list;
    let mut out: Vec<Person> = Vec::new();
    proof {
        assert(all.take(all.len() as int) =~= all);
        assert(all.skip(all.len() as int) =~= Seq::<Person>::empty());
    }
    while rest.len() > 0
        invariant
            rest@ == all.take(rest@.len() as int),
            rest@.len() <= all.len(),
            out@ == average_candidates(all.skip(rest@.len() as int), now as int),
        decreases rest@.len(),
    {
        let ghost suffix = all.skip(rest@.len() as int);
        let e = rest.pop().unwrap();
        proof {
            assert(all.skip(rest@.len() as int)[0] == e);
            assert(all.skip(rest@.len() as int).drop_first() =~= suffix);
            assert(rest@ =~= all.take(rest@.len() as int));
        }
        if average_candidate(&e, now) {
            out.insert(0, e);
            proof {
                assert(out@ =~= average_candidates(all.skip(rest@.len() as int), now as int));
            }
        }
    }
    proof {
        assert(all.skip(0) =~= all);
    }
    out
}

/// Whether a last contact is stale enough to report: no contact at all, or
/// one more than 48 hours before `now`.
pub open spec fn spec_stale_contact(last: Option<i64>, now: int) -> bool {
    match last {
        None => true,
        Some(t) => now - t > REPORT_AGE_MILLIS,
    }
}

pub fn stale_contact(last: Option<i64>, now: i64) -> (r: bool)
    ensures
        r == spec_stale_contact(last, now as int),
{
    match last {
        None => true,
        Some(t) => (now as i128 - t as i128) > (REPORT_AGE_MILLIS as i128),
    }
}

/// The events the score push keeps: contact, teaching and referral events,
/// where contact and teaching events must carry a status.
pub open spec fn spec_score_event(e: TimelineEvent) -> bool {
    &&& (e.item_type == TimelineItemType::Contact || e.item_type == TimelineItemType::Teaching
        || e.item_type == TimelineItemType::NewReferral)
    &&& (e.item_type == TimelineItemType::NewReferral || e.status is Some)
}

pub open spec fn score_events(s: Seq<TimelineEvent>) -> Seq<TimelineEvent>
    decreases s.len(),
{
    if s.len() == 0 {
        Seq::empty()
    } else if spec_score_event(s[0]) {
        seq![s[0]] + score_events(s.drop_first())
    } else {
        score_events(s.drop_first())
    }
}

fn is_score_event(e: &TimelineEvent) -> (r: bool)
    ensures
        r == spec_score_event(*e),
{
    let relevant = match e.item_type {
        TimelineItemType::Contact | TimelineItemType::Teaching
        | TimelineItemType::NewReferral => true,
        _ => false,
    };
    let referral = match e.item_type {
        TimelineItemType::NewReferral => true,
        _ => false,
    };
    relevant && (referral || e.status.is_some())
}

/// Keeps the events the score push scores; see `spec_score_event`.
pub fn filter_score_events(events: Vec<TimelineEvent>) -> (r: Vec<TimelineEvent>)
    ensures
        r@ == score_events(events@),
{
    let ghost all = events@;
    let mut rest = events;
    let mut out: Vec<TimelineEvent> = Vec::new();
    proof {
        assert(all.take(all.len() as int) =~= all);
        assert(all.skip(all.len() as int) =~= Seq::<TimelineEvent>::empty());
    }
    while rest.len() > 0
        invariant
            rest@ == all.take(rest@.len() as int),
            rest@.len() <= all.len(),
            out@ == score_events(all.skip(rest@.len() as int)),
        decreases rest@.len(),
    {
        let ghost suffix = all.skip(rest@.len() as int);
        let e = rest.pop().unwrap();
        proof {
            assert(all.skip(rest@.len() as int)[0] == e);
            assert(all.skip(rest@.len() as int).drop_first() =~= suffix);
            assert(rest@ =~= all.take(rest@.len() as int));
        }
        if is_score_event(&e) {
            out.insert(0, e);
            proof {
                assert(out@ =~= score_events(all.skip(rest@.len() as int)));
            }
        }
    }
    proof {
        assert(all.skip(0) =~= all);
    }
    out
}

/// The date of the first `NewReferral` event in the order given; with the
/// service's most-recent-first order, that is the most recent referral.
pub open spec fn spec_first_referral(s: Seq<TimelineEvent>) -> Option<i64>
    decreases s.len(),
{
    if s.len() == 0 {
        None
    } else if s[0].item_type == TimelineItemType::NewReferral {
        Some(s[0].item_date)
    } else {
        spec_first_referral(s.drop_first())
    }
}

pub fn first_referral_date(events: &Vec<TimelineEvent>) -> (r: Option<i64>)
    ensures
        r == spec_first_referral(events@),
{
    let n = events.len();
    proof {
        assert(events@.skip(0) =~= events@);
    }
    let mut i: usize = 0;
    while i < n
        invariant
            i <= n == events@.len(),
            spec_first_referral(events@) == spec_first_referral(events@.skip(i as int)),
        decreases n - i,
    {
        proof {
            assert(events@.skip(i as int)[0] == events@[i as int]);
            assert(events@.skip(i as int).drop_first() =~= events@.skip(i + 1));
        }
        let e = &events[i];
        match e.item_type {
            TimelineItemType::NewReferral => {
                return Some(e.item_date);
            },
            _ => {},
        }
        i = i + 1;
    }
    proof {
        assert(events@.skip(n as int) =~= Seq::<TimelineEvent>::empty());
    }
    None
}

/// The contact times recorded for one zone, in the order the pairs carry
/// them.
pub open spec fn zone_times(pairs: Seq<(String, u64)>, zone: Seq<char>) -> Seq<u64>
    decreases pairs.len(),
{
    if pairs.len() == 0 {
        Seq::empty()
    } else if pairs[0].0@ == zone {
        seq![pairs[0].1] + zone_times(pairs.drop_first(), zone)
    } else {
        zone_times(pairs.drop_first(), zone)
    }
}

pub open spec fn seq_sum(s: Seq<u64>) -> int
    decreases s.len(),
{
    if s.len() == 0 {
        0
    } else {
        seq_sum(s.drop_last()) + s.last()
    }
}

proof fn lemma_seq_sum_bound(s: Seq<u64>)
    ensures
        0 <= seq_sum(s) <= s.len() * (u64::MAX as int),
    decreases s.len(),
{
    if s.len() > 0 {
        lemma_seq_sum_bound(s.drop_last());
    }
}

fn sum_of(times: &Vec<u64>) -> (s: u128)
    ensures
        s == seq_sum(times@),
{
    let n = times.len();
    let mut sum: u128 = 0;
    let mut i: usize = 0;
    while i < n
        invariant
            i <= n == times@.len(),
            sum == seq_sum(times@.take(i as int)),
            sum <= (i as int) * (u64::MAX as int),
        decreases n - i,
    {
        proof {
            assert(times@.take(i + 1).drop_last() =~= times@.take(i as int));
            assert(times@.take(i + 1).last() == times@[i as int]);
        }
        sum = sum + times[i] as u128;
        i = i + 1;
    }
    proof {
        assert(times@.take(n as int) =~= times@);
    }
    sum
}

/// The whole-minute average of a zone's recorded times.
fn average_of(times: &Vec<u64>) -> (a: u64)
    requires
        times@.len() > 0,
    ensures
        a as int == seq_sum(times@) / times@.len() as int,
{
    let sum = sum_of(times);
    let count = times.len();
    let avg = sum / (count as u128);
    proof {
        lemma_seq_sum_bound(times@);
        assert(avg <= u64::MAX) by (nonlinear_arith)
            requires
                avg == sum as int / count as int,
                0 <= sum as int <= count as int * (u64::MAX as int),
                count > 0,
        ;
    }
    avg as u64
}

proof fn lemma_zone_times_absent(s: Seq<(String, u64)>, zone: Seq<char>)
    requires
        forall|i: int| 0 <= i < s.len() ==> (#[trigger] s[i]).0@ != zone,
    ensures
        zone_times(s, zone) == Seq::<u64>::empty(),
    decreases s.len(),
{
    if s.len() > 0 {
        assert forall|i: int| 0 <= i < s.drop_first().len() implies (
        #[trigger] s.drop_first()[i]).0@ != zone by {
            assert(s.drop_first()[i] == s[i + 1]);
        }
        lemma_zone_times_absent(s.drop_first(), zone);
    }
}

/// The first group recorded under a zone name, if one is.
fn find_group(groups: &Vec<(String, Vec<u64>)>, name: &String) -> (r: Option<usize>)
    ensures
        match r {
            Some(i) => {
                &&& i < groups@.len()
                &&& groups@[i as int].0@ == name@
                &&& forall|g: int| 0 <= g < i ==> (#[trigger] groups@[g]).0@ != name@
            },
            None => forall|g: int| 0 <= g < groups@.len() ==> (#[trigger] groups@[g]).0@ != name@,
        },
{
    let n = groups.len();
    let mut i: usize = 0;
    while i < n
        invariant
            i <= n == groups@.len(),
            forall|g: int| 0 <= g < i ==> (#[trigger] groups@[g]).0@ != name@,
        decreases n - i,
    {
        if groups[i].0 == *name {
            return Some(i);
        }
        i = i + 1;
    }
    None
}

/// Some row of the averages table carries this zone.
pub open spec fn listed_zone(r: Seq<(String, u64)>, zone: Seq<char>) -> bool {
    exists|i: int| 0 <= i < r.len() && (#[trigger] r[i]).0@ == zone
}

/// Some group carries this zone.
spec fn grouped_zone(gs: Seq<(String, Vec<u64>)>, zone: Seq<char>) -> bool {
    exists|g: int| 0 <= g < gs.len() && (#[trigger] gs[g]).0@ == zone
}

/// Groups contact times by zone name and averages each zone, in whole
/// minutes. Every zone that occurs in the input occurs exactly once in the
/// result, with the floored mean of all its times; the result's order is
/// not specified, as the original grouping never promised one.
pub fn zone_averages(pairs: Vec<(String, u64)>) -> (r: Vec<(String, u64)>)
    ensures
        forall|i: int, j: int| 0 <= i < j < r@.len() ==> (#[trigger] r@[i]).0@ != (
        #[trigger] r@[j]).0@,
        forall|i: int|
            0 <= i < r@.len() ==> {
                &&& zone_times(pairs@, (#[trigger] r@[i]).0@).len() > 0
                &&& r@[i].1 as int == seq_sum(zone_times(pairs@, r@[i].0@)) / zone_times(
                    pairs@,
                    r@[i].0@,
                ).len() as int
            },
        forall|k: int| 0 <= k < pairs@.len() ==> listed_zone(r@, (#[trigger] pairs@[k]).0@),
{
    let ghost all = pairs@;
    let mut rest = pairs;
    let mut groups: Vec<(String, Vec<u64>)> = Vec::new();
    proof {
        assert(all.take(all.len() as int) =~= all);
    }
    while rest.len() > 0
        invariant
            rest@ == all.take(rest@.len() as int),
            rest@.len() <= all.len(),
            forall|g: int, h: int|
                0 <= g < h < groups@.len() ==> (#[trigger] groups@[g]).0@ != (
                #[trigger] groups@[h]).0@,
            forall|g: int|
                0 <= g < groups@.len() ==> (#[trigger] groups@[g]).1@ == zone_times(
                    all.skip(rest@.len() as int),
                    groups@[g].0@,
                ) && groups@[g].1@.len() > 0,
            forall|k: int|
                rest@.len() <= k < all.len() ==> grouped_zone(groups@, (#[trigger] all[k]).0@),
        decreases rest@.len(),
    {
        let ghost suffix = all.skip(rest@.len() as int);
        let e = rest.pop().unwrap();
        proof {
            assert(all.skip(rest@.len() as int)[0] == e);
            assert(all.skip(rest@.len() as int).drop_first() =~= suffix);
            assert(rest@ =~= all.take(rest@.len() as int));
        }
        let ghost new_suffix = all.skip(rest@.len() as int);
        let ghost old_groups = groups@;
        match find_group(&groups, &e.0) {
            Some(gi) => {
                let mut entry = groups.remove(gi);
                entry.1.insert(0, e.1);
                groups.insert(gi, entry);
                proof {
                    assert(groups@ =~= old_groups.update(
                        gi as int,
                        groups@[gi as int],
                    ));
                    assert(groups@[gi as int].0@ == e.0@);
                    assert(groups@[gi as int].1@ =~= seq![e.1] + zone_times(suffix, e.0@));
                    assert forall|g: int| 0 <= g < groups@.len() implies (
                    #[trigger] groups@[g]).1@ == zone_times(new_suffix, groups@[g].0@)
                        && groups@[g].1@.len() > 0 by {
                        if g != gi {
                            assert(groups@[g] == old_groups[g]);
                            assert(old_groups[g].0@ != e.0@);
                            assert(zone_times(new_suffix, groups@[g].0@) == zone_times(
                                suffix,
                                groups@[g].0@,
                            ));
                        } else {
                            assert(zone_times(new_suffix, e.0@) == seq![e.1] + zone_times(
                                suffix,
                                e.0@,
                            ));
                        }
                    }
                    assert forall|k: int|
                        rest@.len() <= k < all.len() implies grouped_zone(
                        groups@,
                        (#[trigger] all[k]).0@,
                    ) by {
                        if k == rest@.len() {
                            assert(groups@[gi as int].0@ == all[k].0@);
                        } else {
                            assert(grouped_zone(old_groups, all[k].0@));
                            let g0 = choose|g0: int|
                                0 <= g0 < old_groups.len() && (#[trigger] old_groups[g0]).0@
                                    == all[k].0@;
                            assert(groups@[g0].0@ == all[k].0@);
                        }
                    }
                }
            },
            None => {
                let mut times: Vec<u64> = Vec::new();
                times.push(e.1);
                let ghost zname = e.0@;
                groups.push((e.0, times));
                proof {
                    assert forall|k: int|
                        0 <= k < suffix.len() implies (#[trigger] suffix[k]).0@ != zname by {
                        assert(suffix[k] == all[k + rest@.len() + 1]);
                        assert(grouped_zone(old_groups, all[k + rest@.len() + 1].0@));
                        let g0 = choose|g0: int|
                            0 <= g0 < old_groups.len() && (#[trigger] old_groups[g0]).0@
                                == all[k + rest@.len() + 1].0@;
                        assert(old_groups[g0].0@ != zname);
                    }
                    lemma_zone_times_absent(suffix, zname);
                    assert(groups@.last().1@ =~= seq![e.1] + zone_times(suffix, zname));
                    assert(zone_times(new_suffix, zname) == seq![e.1] + zone_times(
                        suffix,
                        zname,
                    ));
                    assert forall|g: int| 0 <= g < groups@.len() implies (
                    #[trigger] groups@[g]).1@ == zone_times(new_suffix, groups@[g].0@)
                        && groups@[g].1@.len() > 0 by {
                        if g < old_groups.len() {
                            assert(groups@[g] == old_groups[g]);
                            assert(old_groups[g].0@ != zname);
                            assert(zone_times(new_suffix, groups@[g].0@) == zone_times(
                                suffix,
                                groups@[g].0@,
                            ));
                        }
                    }
                    assert forall|k: int|
                        rest@.len() <= k < all.len() implies grouped_zone(
                        groups@,
                        (#[trigger] all[k]).0@,
                    ) by {
                        if k == rest@.len() {
                            assert(groups@[groups@.len() - 1].0@ == all[k].0@);
                        } else {
                            assert(grouped_zone(old_groups, all[k].0@));
                            let g0 = choose|g0: int|
                                0 <= g0 < old_groups.len() && (#[trigger] old_groups[g0]).0@
                                    == all[k].0@;
                            assert(groups@[g0].0@ == all[k].0@);
                        }
                    }
                }
            },
        }
    }
    proof {
        assert(all.skip(0) =~= all);
    }
    let mut out: Vec<(String, u64)> = Vec::new();
    let ghost done_groups = groups@;
    while groups.len() > 0
        invariant
            groups@ == done_groups.take(groups@.len() as int),
            groups@.len() <= done_groups.len(),
            forall|g: int, h: int|
                0 <= g < h < done_groups.len() ==> (#[trigger] done_groups[g]).0@ != (
                #[trigger] done_groups[h]).0@,
            forall|g: int|
                0 <= g < done_groups.len() ==> (#[trigger] done_groups[g]).1@ == zone_times(
                    all,
                    done_groups[g].0@,
                ) && done_groups[g].1@.len() > 0,
            forall|k: int|
                0 <= k < all.len() ==> grouped_zone(done_groups, (#[trigger] all[k]).0@),
            out@.len() == done_groups.len() - groups@.len(),
            forall|i: int|
                0 <= i < out@.len() ==> (#[trigger] out@[i]).0@ == done_groups[done_groups.len()
                    - 1 - i].0@ && out@[i].1 as int == seq_sum(zone_times(all, out@[i].0@))
                    / zone_times(all, out@[i].0@).len() as int,
        decreases groups@.len(),
    {
        proof {
            assert(groups@ =~= done_groups.take(groups@.len() as int));
        }
        let entry = groups.pop().unwrap();
        let avg = average_of(&entry.1);
        out.push((entry.0, avg));
        proof {
            assert(groups@ =~= done_groups.take(groups@.len() as int));
        }
    }
    proof {
        assert forall|i: int, j: int| 0 <= i < j < out@.len() implies (#[trigger] out@[i]).0@
            != (#[trigger] out@[j]).0@ by {
            assert(out@[i].0@ == done_groups[done_groups.len() - 1 - i].0@);
            assert(out@[j].0@ == done_groups[done_groups.len() - 1 - j].0@);
        }
        assert forall|k: int| 0 <= k < all.len() implies listed_zone(
            out@,
            (#[trigger] all[k]).0@,
        ) by {
            assert(grouped_zone(done_groups, all[k].0@));
            let g = choose|g: int|
                0 <= g < done_groups.len() && (#[trigger] done_groups[g]).0@ == all[k].0@;
            assert(out@[done_groups.len() - 1 - g].0@ == done_groups[g].0@);
        }
    }
    out
}

/// The contact-time minutes stored on a score entry: a completed window's
/// whole minutes, clamped to what the field can hold (negative minutes,
/// from events dated out of order, clamp to zero).
pub open spec fn spec_clamped_latency(m: int) -> int {
    if m < 0 {
        0
    } else if m > usize::MAX {
        usize::MAX as int
    } else {
        m
    }
}

/// Builds the score-push entry for one person from their full timeline:
/// the kept events, the referral-to-contact latency, and the rolling
/// contact score of the week after the most recent referral. Yields
/// nothing when no referral-to-contact window ever completed, or when the
/// kept events hold no referral to anchor the score walk.
pub fn build_referral_person(person: &Person, timeline: Vec<TimelineEvent>, today_day: i64) -> (r:
    Option<ReferralPerson>)
    requires
        today_day > i64::MIN,
    ensures
        match r {
            Some(rp) => {
                &&& spec_contact_latency(timeline@) is Some
                &&& spec_first_referral(score_events(timeline@)) is Some
                &&& rp.id == person.guid
                &&& rp.name == person.first_name
                &&& rp.contact_time as int == spec_clamped_latency(
                    spec_contact_latency(timeline@)->0,
                )
                &&& rp.events@ == score_events(timeline@)
                &&& rp.score@ == ({
                    let w = spec_walk(
                        score_events(timeline@),
                        spec_day_of(spec_first_referral(score_events(timeline@))->0 as int),
                        today_day - 1,
                        SCORE_WINDOW_DAYS as nat,
                    );
                    spec_score_chars(w.0, w.1)
                })
                &&& match person.area_name {
                    Some(a) => rp.area == a,
                    None => rp.area@ == "default_area"@,
                }
            },
            None => spec_contact_latency(timeline@) is None || spec_first_referral(
                score_events(timeline@),
            ) is None,
        },
{
    let latency = match contact_latency_minutes(&timeline) {
        Some(m) => m,
        None => {
            return None;
        },
    };
    let events = filter_score_events(timeline);
    let referral = match first_referral_date(&events) {
        Some(d) => d,
        None => {
            return None;
        },
    };
    let contact_time: usize = if latency < 0 {
        0
    } else if latency as u64 > usize::MAX as u64 {
        usize::MAX
    } else {
        latency as usize
    };
    let area = match &person.area_name {
        Some(a) => a.clone(),
        None => "default_area".to_owned(),
    };
    let mut rp = ReferralPerson::new(
        person.guid.clone(),
        person.first_name.clone(),
        contact_time,
        events,
        area,
    );
    let referral_day = day_of_millis(referral);
    let score = rolling_contact_score(&rp.events, referral_day, today_day);
    rp.set_score(score);
    Some(rp)
}

} // verus!
