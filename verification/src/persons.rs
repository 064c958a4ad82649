//! The roster data model: tracked persons, their activity timeline events,
//! and the lossy decoding contract for both. Dates are epoch milliseconds,
//! as the service sends them.
use vstd::prelude::*;

verus! {

/// How far a referral has been worked, as the service codes it.
#[derive(Clone, Copy, Debug, PartialEq, Eq, Structural)]
pub enum ReferralStatus {
    NotAttempted,
    NotSuccessful,
    Successful,
}

impl ReferralStatus {
    /// The service's numeric code for this status.
    pub open spec fn spec_code(self) -> u8 {
        match self {
            ReferralStatus::NotAttempted => 10,
            ReferralStatus::NotSuccessful => 20,
            ReferralStatus::Successful => 30,
        }
    }

    pub fn code(&self) -> (c: u8)
        ensures
            c == self.spec_code(),
    {
        match self {
            ReferralStatus::NotAttempted => 10,
            ReferralStatus::NotSuccessful => 20,
            ReferralStatus::Successful => 30,
        }
    }

    pub fn from_code(c: u8) -> (r: Option<ReferralStatus>)
        ensures
            match r {
                Some(s) => s.spec_code() == c,
                None => forall|s: ReferralStatus| s.spec_code() != c,
            },
    {
        match c {
            10 => Some(ReferralStatus::NotAttempted),
            20 => Some(ReferralStatus::NotSuccessful),
            30 => Some(ReferralStatus::Successful),
            _ => None,
        }
    }
}

/// Where a person stands overall; the service codes order these, and the
/// code is what comparisons go by.
#[derive(Clone, Copy, Debug, PartialEq, Eq, Structural)]
pub enum PersonStatus {
    Yellow,
    Green,
    BetterGreen,
    ProgressingGreen,
    NewMember,
    NotInterested,
    NotInterestedDeclared,
    NotProgressing,
    UnableToContact,
    Prank,
    NotRecentlyContacted,
    TooBusy,
    OutsideAreaStrength,
    Member,
    Moved,
}

impl PersonStatus {
    /// The service's numeric code for this status; the codes carry the
    /// ordering that the filters compare by.
    pub open spec fn spec_code(self) -> u8 {
        match self {
            PersonStatus::Yellow => 1,
            PersonStatus::Green => 2,
            PersonStatus::BetterGreen => 3,
            PersonStatus::ProgressingGreen => 4,
            PersonStatus::NewMember => 6,
            PersonStatus::NotInterested => 20,
            PersonStatus::NotInterestedDeclared => 21,
            PersonStatus::NotProgressing => 22,
            PersonStatus::UnableToContact => 23,
            PersonStatus::Prank => 25,
            PersonStatus::NotRecentlyContacted => 26,
            PersonStatus::TooBusy => 27,
            PersonStatus::OutsideAreaStrength => 28,
            PersonStatus::Member => 40,
            PersonStatus::Moved => 201,
        }
    }

    pub fn code(&self) -> (c: u8)
        ensures
            c == self.spec_code(),
    {
        match self {
            PersonStatus::Yellow => 1,
            PersonStatus::Green => 2,
            PersonStatus::BetterGreen => 3,
            PersonStatus::ProgressingGreen => 4,
            PersonStatus::NewMember => 6,
            PersonStatus::NotInterested => 20,
            PersonStatus::NotInterestedDeclared => 21,
            PersonStatus::NotProgressing => 22,
            PersonStatus::UnableToContact => 23,
            PersonStatus::Prank => 25,
            PersonStatus::NotRecentlyContacted => 26,
            PersonStatus::TooBusy => 27,
            PersonStatus::OutsideAreaStrength => 28,
            PersonStatus::Member => 40,
            PersonStatus::Moved => 201,
        }
    }

    pub fn from_code(c: u8) -> (r: Option<PersonStatus>)
        ensures
            match r {
                Some(s) => s.spec_code() == c,
                None => forall|s: PersonStatus| s.spec_code() != c,
            },
    {
        match c {
            1 => Some(PersonStatus::Yellow),
            2 => Some(PersonStatus::Green),
            3 => Some(PersonStatus::BetterGreen),
            4 => Some(PersonStatus::ProgressingGreen),
            6 => Some(PersonStatus::NewMember),
            20 => Some(PersonStatus::NotInterested),
            21 => Some(PersonStatus::NotInterestedDeclared),
            22 => Some(PersonStatus::NotProgressing),
            23 => Some(PersonStatus::UnableToContact),
            25 => Some(PersonStatus::Prank),
            26 => Some(PersonStatus::NotRecentlyContacted),
            27 => Some(PersonStatus::TooBusy),
            28 => Some(PersonStatus::OutsideAreaStrength),
            40 => Some(PersonStatus::Member),
            201 => Some(PersonStatus::Moved),
            _ => None,
        }
    }
}

/// The kinds of events a person's activity timeline can hold.
#[derive(Clone, Copy, Debug, PartialEq, Eq, Structural)]
pub enum TimelineItemType {
    StoppedTeaching,
    Contact,
    Teaching,
    NewReferral,
    PersonCreate,
    PersonOfferItem,
    Sacrament,
    TeachingReset,
    Note,
    Task,
    EmailSubscription,
}

/// One tracked individual, as the roster reports them. `assigned_date` is
/// the referral assignment time in epoch milliseconds.
#[derive(Clone, Debug)]
pub struct Person {
    pub guid: String,
    pub first_name: String,
    pub referral_status: ReferralStatus,
    pub person_status: PersonStatus,
    pub mission_id: usize,
    pub zone_id: Option<usize>,
    pub zone_name: Option<String>,
    pub district_id: Option<usize>,
    pub area_name: Option<String>,
    pub assigned_date: i64,
}

/// One timeline entry: its kind, its time in epoch milliseconds, and an
/// optional completion status.
#[derive(Clone, Copy, Debug)]
pub struct TimelineEvent {
    pub item_type: TimelineItemType,
    pub item_date: i64,
    pub status: Option<bool>,
}

/// The wire shape of a roster response: a list of persons.
#[derive(Clone, Debug)]
pub struct Persons {
    persons: Vec<Person>,
}

impl Persons {
    /// The list this batch wraps.
    pub closed spec fn spec_persons(self) -> Seq<Person> {
        self.persons@
    }

    pub fn new(persons: Vec<Person>) -> (r: Persons)
        ensures
            r.spec_persons() == persons@,
    {
        Persons { persons }
    }

    pub fn into_persons(self) -> (r: Vec<Person>)
        ensures
            r@ == self.spec_persons(),
    {
        self.persons
    }
}

/// The milliseconds between the source region's clock and the target
/// region's clock: five hours.
pub const TZ_SHIFT_MILLIS: i64 = 18000000;

impl TimelineEvent {
    /// Normalizes this event's timestamp from the source region's clock to
    /// the target region's clock by subtracting five hours.
    pub fn convert_mst_to_est(&mut self)
        requires
            old(self).item_date >= i64::MIN + TZ_SHIFT_MILLIS,
        ensures
            final(self).item_date == old(self).item_date - TZ_SHIFT_MILLIS,
            final(self).item_type == old(self).item_type,
            final(self).status == old(self).status,
    {
        self.item_date = self.item_date - TZ_SHIFT_MILLIS;
    }
}

/// Normalizes a whole timeline from the source region's clock to the
/// target region's clock, event by event, keeping order, kinds and
/// statuses.
pub fn normalize_timeline(events: Vec<TimelineEvent>) -> (r: Vec<TimelineEvent>)
    requires
        forall|i: int|
            0 <= i < events@.len() ==> (#[trigger] events@[i]).item_date >= i64::MIN
                + TZ_SHIFT_MILLIS,
    ensures
        r@.len() == events@.len(),
        forall|i: int|
            0 <= i < events@.len() ==> {
                &&& (#[trigger] r@[i]).item_date == events@[i].item_date - TZ_SHIFT_MILLIS
                &&& r@[i].item_type == events@[i].item_type
                &&& r@[i].status == events@[i].status
            },
{
    let n = events.len();
    let mut out: Vec<TimelineEvent> = Vec::new();
    let mut i: usize = 0;
    while i < n
        invariant
            i <= n == events@.len(),
            out@.len() == i,
            forall|k: int|
                0 <= k < events@.len() ==> (#[trigger] events@[k]).item_date >= i64::MIN
                    + TZ_SHIFT_MILLIS,
            forall|k: int|
                0 <= k < i ==> {
                    &&& (#[trigger] out@[k]).item_date == events@[k].item_date - TZ_SHIFT_MILLIS
                    &&& out@[k].item_type == events@[k].item_type
                    &&& out@[k].status == events@[k].status
                },
        decreases n - i,
    {
        let mut e = events[i];
        e.convert_mst_to_est();
        out.push(e);
        i = i + 1;
    }
    out
}

/// The values behind the `Some` entries, in order: what a lossy parse
/// keeps.
pub open spec fn some_values<A>(s: Seq<Option<A>>) -> Seq<A>
    decreases s.len(),
{
    if s.len() == 0 {
        Seq::empty()
    } else {
        match s[0] {
            Some(x) => seq![x] + some_values(s.drop_first()),
            None => some_values(s.drop_first()),
        }
    }
}

/// Keeps the entries that decoded, in order, and counts the ones that did
/// not: one bad entry never fails the whole batch.
pub fn collect_decoded<T>(entries: Vec<Option<T>>) -> (r: (Vec<T>, usize))
    ensures
        r.0@ == some_values(entries@),
        r.1 == entries@.len() - r.0@.len(),
        r.0@.len() <= entries@.len(),
{
    let ghost all = entries@;
    let mut rest = entries;
    let total = rest.len();
    let mut kept: Vec<T> = Vec::new();
    let mut skipped: usize = 0;
    proof {
        assert(all.take(all.len() as int) =~= all);
        assert(all.skip(all.len() as int) =~= Seq::<Option<T>>::empty());
    }
    while rest.len() > 0
        invariant
            all.len() == total,
            rest@ == all.take(rest@.len() as int),
            rest@.len() <= all.len(),
            kept@ == some_values(all.skip(rest@.len() as int)),
            kept@.len() + skipped == all.len() - rest@.len(),
        decreases rest@.len(),
    {
        let ghost suffix = all.skip(rest@.len() as int);
        let e = rest.pop().unwrap();
        proof {
            assert(all.skip(rest@.len() as int)[0] == e);
            assert(all.skip(rest@.len() as int).drop_first() =~= suffix);
            assert(rest@ =~= all.take(rest@.len() as int));
        }
        match e {
            Some(x) => {
                kept.insert(0, x);
                proof {
                    assert(kept@ =~= some_values(all.skip(rest@.len() as int)));
                }
            },
            None => {
                skipped = skipped + 1;
            },
        }
    }
    proof {
        assert(all.skip(0) =~= all);
    }
    (kept, skipped)
}

impl Person {
    /// Lossy decoding of a roster batch: entries that failed to decode
    /// (handed in as `None`) are dropped and counted, never fatal.
    pub fn parse_lossy(entries: Vec<Option<Person>>) -> (r: (Vec<Person>, usize))
        ensures
            r.0@ == some_values(entries@),
            r.1 == entries@.len() - r.0@.len(),
    {
        collect_decoded(entries)
    }
}

impl TimelineEvent {
    /// Lossy decoding of a timeline batch, as for the roster.
    pub fn parse_lossy(entries: Vec<Option<TimelineEvent>>) -> (r: (
        Vec<TimelineEvent>,
        usize,
    ))
        ensures
            r.0@ == some_values(entries@),
            r.1 == entries@.len() - r.0@.len(),
    {
        collect_decoded(entries)
    }
}

/// A person prepared for the per-referral score push: identity, first
/// contact latency in minutes, the relevant events, and a score string.
#[derive(Clone, Debug)]
pub struct ReferralPerson {
    pub id: String,
    pub name: String,
    pub contact_time: usize,
    pub events: Vec<TimelineEvent>,
    pub score: String,
    pub area: String,
}

impl ReferralPerson {
    pub fn new(
        id: String,
        name: String,
        contact_time: usize,
        events: Vec<TimelineEvent>,
        area: String,
    ) -> (r: ReferralPerson)
        ensures
            r.id == id,
            r.name == name,
            r.contact_time == contact_time,
            r.events == events,
            r.area == area,
            r.score@ == "0/0"@,
    {
        ReferralPerson { id, name, contact_time, events, score: "0/0".to_owned(), area }
    }

    pub fn set_score(&mut self, score: String)
        ensures
            final(self).score == score,
            final(self).id == old(self).id,
            final(self).name == old(self).name,
            final(self).contact_time == old(self).contact_time,
            final(self).events == old(self).events,
            final(self).area == old(self).area,
    {
        self.score = score;
    }
}

} // verus!
