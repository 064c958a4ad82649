//! The uncontacted-referrals report: names grouped by zone and area, plus
//! the referrals assigned to no zone, and the plain-text rendering that
//! the notification push sends. Saving and loading the report file happen
//! outside; this module holds the structure and the text.
use crate::persons::Person;
use crate::text::{append_u64, dec_chars_of, u64_to_string};
use vstd::prelude::*;

verus! {

/// The names reported for one area.
#[derive(Clone, Debug)]
pub struct ReportArea {
    pub area_name: String,
    pub names: Vec<String>,
}

/// One zone of the report: its id, the name it is shown under, and its
/// areas in order of first appearance.
#[derive(Clone, Debug)]
pub struct ReportZone {
    pub zone_id: usize,
    pub zone_name: String,
    pub areas: Vec<ReportArea>,
}

/// The report: zones in order of first appearance, and the referrals that
/// have no zone.
#[derive(Clone, Debug)]
pub struct Report {
    pub zones: Vec<ReportZone>,
    pub unassigned: Vec<String>,
}

/// The position of a zone id among the report's zones, if present.
pub open spec fn zone_index(zones: Seq<ReportZone>, zone_id: usize) -> Option<int>
    decreases zones.len(),
{
    if zones.len() == 0 {
        None
    } else if zones[0].zone_id == zone_id {
        Some(0)
    } else {
        match zone_index(zones.drop_first(), zone_id) {
            Some(i) => Some(i + 1),
            None => None,
        }
    }
}

/// The position of an area name among a zone's areas, if present.
pub open spec fn area_index(areas: Seq<ReportArea>, name: Seq<char>) -> Option<int>
    decreases areas.len(),
{
    if areas.len() == 0 {
        None
    } else if areas[0].area_name@ == name {
        Some(0)
    } else {
        match area_index(areas.drop_first(), name) {
            Some(i) => Some(i + 1),
            None => None,
        }
    }
}

pub proof fn lemma_zone_index_some(zones: Seq<ReportZone>, zone_id: usize, i: int)
    requires
        0 <= i < zones.len(),
        zones[i].zone_id == zone_id,
        forall|j: int| 0 <= j < i ==> (#[trigger] zones[j]).zone_id != zone_id,
    ensures
        zone_index(zones, zone_id) == Some(i),
    decreases i,
{
    if i > 0 {
        assert forall|j: int| 0 <= j < i - 1 implies (#[trigger] zones.drop_first()[j]).zone_id
            != zone_id by {
            assert(zones.drop_first()[j] == zones[j + 1]);
        }
        assert(zones.drop_first()[i - 1] == zones[i]);
        lemma_zone_index_some(zones.drop_first(), zone_id, i - 1);
    }
}

pub proof fn lemma_zone_index_none(zones: Seq<ReportZone>, zone_id: usize)
    requires
        forall|j: int| 0 <= j < zones.len() ==> (#[trigger] zones[j]).zone_id != zone_id,
    ensures
        zone_index(zones, zone_id) == None::<int>,
    decreases zones.len(),
{
    if zones.len() > 0 {
        assert forall|j: int|
            0 <= j < zones.drop_first().len() implies (
        #[trigger] zones.drop_first()[j]).zone_id != zone_id by {
            assert(zones.drop_first()[j] == zones[j + 1]);
        }
        lemma_zone_index_none(zones.drop_first(), zone_id);
    }
}

pub proof fn lemma_area_index_some(areas: Seq<ReportArea>, name: Seq<char>, i: int)
    requires
        0 <= i < areas.len(),
        areas[i].area_name@ == name,
        forall|j: int| 0 <= j < i ==> (#[trigger] areas[j]).area_name@ != name,
    ensures
        area_index(areas, name) == Some(i),
    decreases i,
{
    if i > 0 {
        assert forall|j: int|
            0 <= j < i - 1 implies (#[trigger] areas.drop_first()[j]).area_name@ != name by {
            assert(areas.drop_first()[j] == areas[j + 1]);
        }
        assert(areas.drop_first()[i - 1] == areas[i]);
        lemma_area_index_some(areas.drop_first(), name, i - 1);
    }
}

pub proof fn lemma_area_index_none(areas: Seq<ReportArea>, name: Seq<char>)
    requires
        forall|j: int| 0 <= j < areas.len() ==> (#[trigger] areas[j]).area_name@ != name,
    ensures
        area_index(areas, name) == None::<int>,
    decreases areas.len(),
{
    if areas.len() > 0 {
        assert forall|j: int|
            0 <= j < areas.drop_first().len() implies (
        #[trigger] areas.drop_first()[j]).area_name@ != name by {
            assert(areas.drop_first()[j] == areas[j + 1]);
        }
        lemma_area_index_none(areas.drop_first(), name);
    }
}

/// The area name a person is filed under: their own, or the fallback.
pub open spec fn spec_filed_area(p: Person) -> Seq<char> {
    match p.area_name {
        Some(a) => a@,
        None => "NO AREA"@,
    }
}

/// The zone name a fresh zone entry is shown under: the person's zone
/// name, or the zone id in decimal.
pub open spec fn spec_filed_zone_name(p: Person, zone_id: usize) -> Seq<char> {
    match p.zone_name {
        Some(n) => n@,
        None => dec_chars_of(zone_id as int),
    }
}

impl Report {
    /// The report's zones, as contracts speak of them.
    pub open spec fn spec_zones(self) -> Seq<ReportZone> {
        self.zones@
    }

    /// Zone ids appear at most once.
    pub open spec fn wf(self) -> bool {
        forall|i: int, j: int|
            0 <= i < j < self.spec_zones().len() ==> (#[trigger] self.spec_zones()[i]).zone_id
                != (#[trigger] self.spec_zones()[j]).zone_id
    }

    /// An empty report.
    pub fn new() -> (r: Report)
        ensures
            r.spec_zones() == Seq::<ReportZone>::empty(),
            r.unassigned@ == Seq::<String>::empty(),
            r.wf(),
    {
        Report { zones: Vec::new(), unassigned: Vec::new() }
    }

    /// Files one person: under their zone and area when they have a zone
    /// (creating the zone entry, named after the person's zone name or the
    /// zone id, and the area entry as needed), else under the unassigned
    /// list.
    pub fn add_person(&mut self, person: Person)
        requires
            old(self).wf(),
        ensures
            final(self).wf(),
            match person.zone_id {
                None => {
                    &&& final(self).unassigned@ == old(self).unassigned@.push(person.first_name)
                    &&& final(self).spec_zones() == old(self).spec_zones()
                },
                Some(zone_id) => {
                    &&& final(self).unassigned@ == old(self).unassigned@
                    &&& match zone_index(old(self).spec_zones(), zone_id) {
                        Some(zi) => {
                            &&& final(self).spec_zones().len() == old(self).spec_zones().len()
                            &&& forall|j: int|
                                0 <= j < old(self).spec_zones().len() && j != zi
                                    ==> final(self).spec_zones()[j] == old(self).spec_zones()[j]
                            &&& final(self).spec_zones()[zi].zone_id == zone_id
                            &&& final(self).spec_zones()[zi].zone_name
                                == old(self).spec_zones()[zi].zone_name
                            &&& areas_gain_name(
                                old(self).spec_zones()[zi].areas@,
                                final(self).spec_zones()[zi].areas@,
                                spec_filed_area(person),
                                person.first_name,
                            )
                        },
                        None => {
                            &&& final(self).spec_zones().len() == old(self).spec_zones().len()
                                + 1
                            &&& forall|j: int|
                                0 <= j < old(self).spec_zones().len()
                                    ==> final(self).spec_zones()[j] == old(self).spec_zones()[j]
                            &&& final(self).spec_zones().last().zone_id == zone_id
                            &&& final(self).spec_zones().last().zone_name@
                                == spec_filed_zone_name(person, zone_id)
                            &&& final(self).spec_zones().last().areas@.len() == 1
                            &&& final(self).spec_zones().last().areas@[0].area_name@
                                == spec_filed_area(person)
                            &&& final(self).spec_zones().last().areas@[0].names@ == seq![
                                person.first_name,
                            ]
                        },
                    }
                },
            },
    {
        let zone_id = match person.zone_id {
            None => {
                self.unassigned.push(person.first_name);
                return ;
            },
            Some(z) => z,
        };
        let area_name: String = match person.area_name {
            Some(ref a) => a.clone(),
            None => "NO AREA".to_owned(),
        };
        proof {
            assert(area_name@ == spec_filed_area(person));
        }
        let n = self.zones.len();
        let mut zi: usize = 0;
        while zi < n
            invariant
                zi <= n == self.zones@.len(),
                forall|j: int| 0 <= j < zi ==> (#[trigger] self.zones@[j]).zone_id != zone_id,
            ensures
                zi <= n,
                forall|j: int| 0 <= j < zi ==> (#[trigger] self.zones@[j]).zone_id != zone_id,
                zi < n ==> self.zones@[zi as int].zone_id == zone_id,
            decreases n - zi,
        {
            if self.zones[zi].zone_id == zone_id {
                break ;
            }
            zi = zi + 1;
        }
        if zi < n {
            proof {
                lemma_zone_index_some(self.zones@, zone_id, zi as int);
            }
            let mut entry = self.zones.remove(zi);
            push_area_name(&mut entry.areas, area_name, person.first_name);
            self.zones.insert(zi, entry);
        } else {
            proof {
                lemma_zone_index_none(self.zones@, zone_id);
            }
            let zone_name: String = match person.zone_name {
                Some(n) => n,
                None => u64_to_string(zone_id as u64),
            };
            let mut names: Vec<String> = Vec::new();
            names.push(person.first_name);
            let mut areas: Vec<ReportArea> = Vec::new();
            areas.push(ReportArea { area_name, names });
            self.zones.push(ReportZone { zone_id, zone_name, areas });
        }
    }
}

/// The lines of one area's names, each indented under the area.
pub open spec fn spec_names_text(names: Seq<String>) -> Seq<char>
    decreases names.len(),
{
    if names.len() == 0 {
        Seq::empty()
    } else {
        "\n  - "@ + names[0]@ + spec_names_text(names.drop_first())
    }
}

/// The blocks of a zone's areas, each with its name lines.
pub open spec fn spec_areas_text(areas: Seq<ReportArea>) -> Seq<char>
    decreases areas.len(),
{
    if areas.len() == 0 {
        Seq::empty()
    } else {
        "\n\n - "@ + areas[0].area_name@ + spec_names_text(areas[0].names@) + spec_areas_text(
            areas.drop_first(),
        )
    }
}

/// One zone's block: its display name, then its areas.
pub open spec fn spec_zone_text(z: ReportZone) -> Seq<char> {
    "\n"@ + z.zone_name@ + spec_areas_text(z.areas@)
}

/// All zone blocks, each followed by a blank line.
pub open spec fn spec_zones_text(zs: Seq<ReportZone>) -> Seq<char>
    decreases zs.len(),
{
    if zs.len() == 0 {
        Seq::empty()
    } else {
        spec_zone_text(zs[0]) + "\n\n"@ + spec_zones_text(zs.drop_first())
    }
}

/// The whole report's text: the zone blocks and the unassigned heading —
/// unless unassigned referrals exist, in which case each of their lines
/// replaces all text built so far, so only the last survives.
pub open spec fn spec_report_text(r: Report) -> Seq<char> {
    if r.unassigned@.len() == 0 {
        spec_zones_text(r.spec_zones()) + "\nUnassigned Referrals"@
    } else {
        "  - "@ + r.unassigned@.last()@
    }
}

impl Report {
    /// Renders one zone's block: the zone name, then each area with its
    /// names.
    pub fn pretty_print_zone(&self, zone: &ReportZone) -> (r: String)
        ensures
            r@ == spec_zone_text(*zone),
    {
        let mut res = "\n".to_owned();
        res.append(zone.zone_name.as_str());
        let an = zone.areas.len();
        proof {
            assert(zone.areas@.skip(0) =~= zone.areas@);
        }
        let mut i: usize = 0;
        while i < an
            invariant
                i <= an == zone.areas@.len(),
                spec_zone_text(*zone) == res@ + spec_areas_text(zone.areas@.skip(i as int)),
            decreases an - i,
        {
            proof {
                assert(zone.areas@.skip(i as int)[0] == zone.areas@[i as int]);
                assert(zone.areas@.skip(i as int).drop_first() =~= zone.areas@.skip(i + 1));
            }
            res.append("\n\n - ");
            res.append(zone.areas[i].area_name.as_str());
            let names = &zone.areas[i].names;
            let nn = names.len();
            proof {
                assert(names@.skip(0) =~= names@);
            }
            let mut j: usize = 0;
            while j < nn
                invariant
                    j <= nn == names@.len(),
                    names@ == zone.areas@[i as int].names@,
                    i < an == zone.areas@.len(),
                    spec_zone_text(*zone) == res@ + spec_names_text(names@.skip(j as int))
                        + spec_areas_text(zone.areas@.skip(i + 1)),
                decreases nn - j,
            {
                proof {
                    assert(names@.skip(j as int)[0] == names@[j as int]);
                    assert(names@.skip(j as int).drop_first() =~= names@.skip(j + 1));
                }
                res.append("\n  - ");
                res.append(names[j].as_str());
                j = j + 1;
            }
            proof {
                assert(names@.skip(nn as int) =~= Seq::<String>::empty());
            }
            i = i + 1;
        }
        proof {
            assert(zone.areas@.skip(an as int) =~= Seq::<ReportArea>::empty());
            assert(res@ + Seq::<char>::empty() =~= res@);
        }
        res
    }

    /// Renders the whole report; see `spec_report_text` — an unassigned
    /// list that is not empty leaves only its last line, as the rendering
    /// replaces instead of appending there.
    pub fn pretty_print(&self) -> (r: String)
        ensures
            r@ == spec_report_text(*self),
    {
        let mut res = String::new();
        let zn = self.zones.len();
        proof {
            assert(self.zones@.skip(0) =~= self.zones@);
            assert(Seq::<char>::empty() + spec_zones_text(self.zones@) =~= spec_zones_text(
                self.zones@,
            ));
        }
        let mut i: usize = 0;
        while i < zn
            invariant
                i <= zn == self.zones@.len(),
                spec_zones_text(self.zones@) == res@ + spec_zones_text(
                    self.zones@.skip(i as int),
                ),
            decreases zn - i,
        {
            proof {
                assert(self.zones@.skip(i as int)[0] == self.zones@[i as int]);
                assert(self.zones@.skip(i as int).drop_first() =~= self.zones@.skip(i + 1));
            }
            let block = self.pretty_print_zone(&self.zones[i]);
            res.append(block.as_str());
            res.append("\n\n");
            i = i + 1;
        }
        proof {
            assert(self.zones@.skip(zn as int) =~= Seq::<ReportZone>::empty());
            assert(res@ + Seq::<char>::empty() =~= res@);
        }
        res.append("\nUnassigned Referrals");
        let un = self.unassigned.len();
        let mut j: usize = 0;
        while j < un
            invariant
                j <= un == self.unassigned@.len(),
                j == 0 ==> res@ == spec_zones_text(self.spec_zones()) + "\nUnassigned Referrals"@,
                j > 0 ==> res@ == "  - "@ + self.unassigned@[j - 1]@,
            decreases un - j,
        {
            let mut line = "  - ".to_owned();
            line.append(self.unassigned[j].as_str());
            res = line;
            j = j + 1;
        }
        res
    }

    /// Renders one zone's block by id, if the report has that zone.
    pub fn get_pretty_zone(&self, zone_id: &usize) -> (r: Option<String>)
        ensures
            match r {
                Some(text) => {
                    &&& zone_index(self.spec_zones(), *zone_id) is Some
                    &&& text@ == spec_zone_text(
                        self.spec_zones()[zone_index(self.spec_zones(), *zone_id)->0],
                    )
                },
                None => zone_index(self.spec_zones(), *zone_id) is None,
            },
    {
        let id = *zone_id;
        let n = self.zones.len();
        let mut zi: usize = 0;
        while zi < n
            invariant
                zi <= n == self.zones@.len(),
                forall|j: int| 0 <= j < zi ==> (#[trigger] self.zones@[j]).zone_id != id,
            ensures
                zi <= n,
                forall|j: int| 0 <= j < zi ==> (#[trigger] self.zones@[j]).zone_id != id,
                zi < n ==> self.zones@[zi as int].zone_id == id,
            decreases n - zi,
        {
            if self.zones[zi].zone_id == id {
                break ;
            }
            zi = zi + 1;
        }
        if zi < n {
            proof {
                lemma_zone_index_some(self.zones@, id, zi as int);
            }
            Some(self.pretty_print_zone(&self.zones[zi]))
        } else {
            proof {
                lemma_zone_index_none(self.zones@, id);
            }
            None
        }
    }
}

/// The new areas hold the old ones with `name` appended under `area`: to
/// the first area of that name, or to a fresh area entry at the end.
pub open spec fn areas_gain_name(
    old_areas: Seq<ReportArea>,
    new_areas: Seq<ReportArea>,
    area: Seq<char>,
    name: String,
) -> bool {
    match area_index(old_areas, area) {
        Some(ai) => {
            &&& new_areas.len() == old_areas.len()
            &&& forall|j: int|
                0 <= j < old_areas.len() && j != ai ==> new_areas[j] == old_areas[j]
            &&& new_areas[ai].area_name == old_areas[ai].area_name
            &&& new_areas[ai].names@ == old_areas[ai].names@.push(name)
        },
        None => {
            &&& new_areas.len() == old_areas.len() + 1
            &&& forall|j: int| 0 <= j < old_areas.len() ==> new_areas[j] == old_areas[j]
            &&& new_areas.last().area_name@ == area
            &&& new_areas.last().names@ == seq![name]
        },
    }
}

/// Appends a name under an area: to the first entry of that name if one
/// exists, else as a fresh entry at the end.
fn push_area_name(areas: &mut Vec<ReportArea>, area_name: String, name: String)
    ensures
        areas_gain_name(old(areas)@, final(areas)@, area_name@, name),
{
    let n = areas.len();
    let mut ai: usize = 0;
    while ai < n
        invariant
            ai <= n == areas@.len(),
            forall|j: int| 0 <= j < ai ==> (#[trigger] areas@[j]).area_name@ != area_name@,
        ensures
            ai <= n,
            forall|j: int| 0 <= j < ai ==> (#[trigger] areas@[j]).area_name@ != area_name@,
            ai < n ==> areas@[ai as int].area_name@ == area_name@,
        decreases n - ai,
    {
        if areas[ai].area_name == area_name {
            break ;
        }
        ai = ai + 1;
    }
    if ai < n {
        proof {
            lemma_area_index_some(areas@, area_name@, ai as int);
        }
        let mut entry = areas.remove(ai);
        entry.names.push(name);
        areas.insert(ai, entry);
    } else {
        proof {
            lemma_area_index_none(areas@, area_name@);
        }
        let mut names: Vec<String> = Vec::new();
        names.push(name);
        areas.push(ReportArea { area_name, names });
    }
}

} // verus!
