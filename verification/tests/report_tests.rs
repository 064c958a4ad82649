use referral_list::persons::{Person, PersonStatus, ReferralStatus};
use referral_list::report::Report;

fn filed(name: &str, zone: Option<(usize, Option<&str>)>, area: Option<&str>) -> Person {
    Person {
        guid: format!("guid-{name}"),
        first_name: name.to_string(),
        referral_status: ReferralStatus::NotAttempted,
        person_status: PersonStatus::Yellow,
        mission_id: 7,
        zone_id: zone.map(|z| z.0),
        zone_name: zone.and_then(|z| z.1.map(|n| n.to_string())),
        district_id: None,
        area_name: area.map(|a| a.to_string()),
        assigned_date: 0,
    }
}

#[test]
fn report_renders_zones_areas_and_names() {
    let mut r = Report::new();
    r.add_person(filed("Bob", Some((1, Some("Zone One"))), Some("Area A")));
    r.add_person(filed("Cid", Some((1, Some("ignored"))), Some("Area A")));
    r.add_person(filed("Dee", Some((1, Some("ignored"))), Some("Area B")));
    assert_eq!(
        r.pretty_print(),
        "\nZone One\n\n - Area A\n  - Bob\n  - Cid\n\n - Area B\n  - Dee\n\n\nUnassigned Referrals"
    );
}

#[test]
fn report_zone_name_falls_back_to_the_id() {
    let mut r = Report::new();
    r.add_person(filed("Bob", Some((7, None)), Some("Area A")));
    assert_eq!(
        r.get_pretty_zone(&7),
        Some("\n7\n\n - Area A\n  - Bob".to_string())
    );
    assert_eq!(r.get_pretty_zone(&8), None);
}

#[test]
fn report_area_falls_back_to_no_area() {
    let mut r = Report::new();
    r.add_person(filed("Bob", Some((1, Some("Z"))), None));
    assert_eq!(r.get_pretty_zone(&1), Some("\nZ\n\n - NO AREA\n  - Bob".to_string()));
}

#[test]
fn report_collects_unassigned() {
    let mut r = Report::new();
    r.add_person(filed("Xan", None, None));
    r.add_person(filed("Yve", None, None));
    assert_eq!(r.unassigned, vec!["Xan".to_string(), "Yve".to_string()]);
    // The rendering replaces the text per unassigned line instead of
    // appending, so only the last line survives.
    assert_eq!(r.pretty_print(), "  - Yve");
}

#[test]
fn report_without_people_prints_the_heading() {
    let r = Report::new();
    assert_eq!(r.pretty_print(), "\nUnassigned Referrals");
}

#[test]
fn report_keeps_zones_apart() {
    let mut r = Report::new();
    r.add_person(filed("Bob", Some((1, Some("Z1"))), Some("A1")));
    r.add_person(filed("Cid", Some((2, Some("Z2"))), Some("A2")));
    r.add_person(filed("Dee", Some((1, Some("later"))), Some("A1")));
    assert_eq!(r.get_pretty_zone(&1), Some("\nZ1\n\n - A1\n  - Bob\n  - Dee".to_string()));
    assert_eq!(r.get_pretty_zone(&2), Some("\nZ2\n\n - A2\n  - Cid".to_string()));
}
