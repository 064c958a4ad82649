use referral_list::persons::{
    normalize_timeline, Person, PersonStatus, ReferralPerson, ReferralStatus, TimelineEvent,
    TimelineItemType, TZ_SHIFT_MILLIS,
};

fn sample_person(n: &str) -> Person {
    Person {
        guid: format!("guid-{n}"),
        first_name: n.to_string(),
        referral_status: ReferralStatus::NotAttempted,
        person_status: PersonStatus::Yellow,
        mission_id: 7,
        zone_id: None,
        zone_name: None,
        district_id: None,
        area_name: None,
        assigned_date: 0,
    }
}

#[test]
fn lossy_parse_drops_and_counts_bad_entries() {
    let entries = vec![
        Some(sample_person("a")),
        None,
        Some(sample_person("b")),
        None,
        None,
    ];
    let (kept, skipped) = Person::parse_lossy(entries);
    assert_eq!(kept.len(), 2);
    assert_eq!(kept[0].first_name, "a");
    assert_eq!(kept[1].first_name, "b");
    assert_eq!(skipped, 3);

    let (kept, skipped) = Person::parse_lossy(Vec::new());
    assert!(kept.is_empty());
    assert_eq!(skipped, 0);
}

#[test]
fn lossy_parse_of_timeline_entries() {
    let e = TimelineEvent {
        item_type: TimelineItemType::Contact,
        item_date: 5,
        status: Some(true),
    };
    let (kept, skipped) = TimelineEvent::parse_lossy(vec![None, Some(e)]);
    assert_eq!(kept.len(), 1);
    assert_eq!(kept[0].item_date, 5);
    assert_eq!(skipped, 1);
}

#[test]
fn timezone_shift_subtracts_five_hours() {
    let mut e = TimelineEvent {
        item_type: TimelineItemType::Teaching,
        item_date: 100_000_000,
        status: Some(false),
    };
    e.convert_mst_to_est();
    assert_eq!(e.item_date, 100_000_000 - TZ_SHIFT_MILLIS);
    assert_eq!(TZ_SHIFT_MILLIS, 5 * 3600 * 1000);

    let t = vec![
        TimelineEvent { item_type: TimelineItemType::Note, item_date: 20_000_000, status: None },
        TimelineEvent {
            item_type: TimelineItemType::Contact,
            item_date: 30_000_000,
            status: Some(true),
        },
    ];
    let shifted = normalize_timeline(t);
    assert_eq!(shifted[0].item_date, 20_000_000 - TZ_SHIFT_MILLIS);
    assert_eq!(shifted[1].item_date, 30_000_000 - TZ_SHIFT_MILLIS);
    assert_eq!(shifted[1].status, Some(true));
}

#[test]
fn referral_person_starts_unscored() {
    let mut rp = ReferralPerson::new(
        "id-1".to_string(),
        "Ann".to_string(),
        90,
        Vec::new(),
        "Area".to_string(),
    );
    assert_eq!(rp.score, "0/0");
    assert_eq!(rp.contact_time, 90);
    rp.set_score("2/5".to_string());
    assert_eq!(rp.score, "2/5");
    assert_eq!(rp.name, "Ann");
}

#[test]
fn status_codes_round_trip() {
    for s in [
        ReferralStatus::NotAttempted,
        ReferralStatus::NotSuccessful,
        ReferralStatus::Successful,
    ] {
        assert_eq!(ReferralStatus::from_code(s.code()), Some(s));
    }
    assert_eq!(ReferralStatus::from_code(11), None);
    for s in [
        PersonStatus::Yellow,
        PersonStatus::Green,
        PersonStatus::BetterGreen,
        PersonStatus::ProgressingGreen,
        PersonStatus::NewMember,
        PersonStatus::NotInterested,
        PersonStatus::NotInterestedDeclared,
        PersonStatus::NotProgressing,
        PersonStatus::UnableToContact,
        PersonStatus::Prank,
        PersonStatus::NotRecentlyContacted,
        PersonStatus::TooBusy,
        PersonStatus::OutsideAreaStrength,
        PersonStatus::Member,
        PersonStatus::Moved,
    ] {
        assert_eq!(PersonStatus::from_code(s.code()), Some(s));
    }
    assert_eq!(PersonStatus::from_code(5), None);
    assert_eq!(PersonStatus::Yellow.code(), 1);
    assert_eq!(PersonStatus::Moved.code(), 201);
    assert_eq!(ReferralStatus::Successful.code(), 30);
}
