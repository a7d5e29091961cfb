use eks::entities::{CandidateList, ElectoralDistrict};
use eks::event::StoreEvent;
use eks::id_map::IdMap;
use eks::pg_data::{ListDesignation, PgEvent, PgStoreData, PoliticalGroup};
use eks::scrapped::{Omission, OmissionCategory, OmissionStatus, Scrapped};
use eks::store::StoreData;

const GRONINGEN: ElectoralDistrict = ElectoralDistrict(1);
const DRENTHE: ElectoralDistrict = ElectoralDistrict(3);
const UTRECHT: ElectoralDistrict = ElectoralDistrict(7);
const BONAIRE: ElectoralDistrict = ElectoralDistrict(20);

/// The districts of the election, in the election's order.
fn election_districts() -> Vec<ElectoralDistrict> {
    (1..=20).map(ElectoralDistrict).collect()
}

fn omission(id: u128, category: OmissionCategory, recoverable: bool, status: OmissionStatus) -> Omission {
    Omission { id, category, recoverable, status, description: String::new(), updated_at: 0 }
}

fn sample_omission(id: u128, category: OmissionCategory) -> Omission {
    omission(id, category, true, OmissionStatus::Pending)
}

fn not_recovered(id: u128, category: OmissionCategory) -> Omission {
    omission(id, category, true, OmissionStatus::NotRecovered)
}

fn irreparable(id: u128, category: OmissionCategory) -> Omission {
    omission(id, category, false, OmissionStatus::Pending)
}

fn derive(data: &PgStoreData, omissions: Vec<Omission>) -> Scrapped {
    let mut map = IdMap::new();
    for o in omissions {
        map.insert(o.id, o);
    }
    Scrapped::derive(data, &map)
}

fn data_with_list(id: u128, districts: Vec<ElectoralDistrict>) -> PgStoreData {
    let mut data = PgStoreData::new();
    data.apply(StoreEvent::new_at(
        1,
        PgEvent::CreateCandidateList(CandidateList {
            id,
            electoral_districts: districts,
            candidates: vec![],
            list_submitter_id: None,
            substitute_list_submitter_ids: vec![],
            created_at: 0,
            updated_at: 0,
        }),
        0,
    ));
    data
}

#[test]
fn pending_and_recovered_omissions_scrap_nothing() {
    let list = 10;
    let person = 1;
    let data = data_with_list(list, vec![GRONINGEN]);

    let scrapped = derive(
        &data,
        vec![
            sample_omission(100, OmissionCategory::Appellation),
            omission(101, OmissionCategory::CandidateList(vec![list]), true, OmissionStatus::Recovered),
            sample_omission(102, OmissionCategory::DeclarationsOfSupport(vec![GRONINGEN])),
            sample_omission(103, OmissionCategory::Candidate { person, lists: vec![list] }),
        ],
    );

    assert!(!scrapped.is_appellation_scrapped());
    assert!(!scrapped.is_list_scrapped(list));
    assert!(!scrapped.is_district_scrapped(GRONINGEN));
    assert!(!scrapped.is_candidate_scrapped(list, person));
    for id in 100..=103 {
        assert!(!scrapped.is_caused_by(id));
    }
}

#[test]
fn candidate_is_scrapped_only_from_the_lists_the_omission_references() {
    let person = 1;
    let (list_a, list_b) = (10, 11);
    let omission = not_recovered(100, OmissionCategory::Candidate { person, lists: vec![list_a] });
    let id = omission.id;

    let scrapped = derive(&PgStoreData::new(), vec![omission]);

    assert!(scrapped.is_candidate_scrapped(list_a, person));
    assert!(!scrapped.is_candidate_scrapped(list_b, person));
    assert!(!scrapped.is_candidate_scrapped(list_a, 2));
    assert!(scrapped.is_caused_by(id));
    // The candidate is gone, the list is not.
    assert!(!scrapped.is_list_scrapped(list_a));
}

#[test]
fn irreparable_omission_scraps_right_away() {
    let person = 1;
    let list = 10;

    let scrapped = derive(
        &PgStoreData::new(),
        vec![irreparable(100, OmissionCategory::Candidate { person, lists: vec![list] })],
    );

    assert!(scrapped.is_candidate_scrapped(list, person));
}

#[test]
fn list_omission_scraps_the_whole_list() {
    let list = 10;
    let data = data_with_list(list, vec![GRONINGEN, DRENTHE]);

    let scrapped = derive(&data, vec![not_recovered(100, OmissionCategory::CandidateList(vec![list]))]);

    assert!(scrapped.is_list_scrapped(list));
    assert!(!scrapped.all_list_districts_scrapped(list));
    assert!(scrapped.list_districts(list).is_empty());
    assert!(!scrapped.is_list_scrapped(11));
}

#[test]
fn list_is_scrapped_once_all_its_districts_are() {
    let list = 10;
    let data = data_with_list(list, vec![GRONINGEN, DRENTHE]);

    let groningen = || not_recovered(100, OmissionCategory::DeclarationsOfSupport(vec![GRONINGEN]));
    let scrapped = derive(&data, vec![groningen()]);
    assert_eq!(scrapped.list_districts(list), [GRONINGEN]);
    assert!(!scrapped.is_list_scrapped(list));

    let drenthe = not_recovered(101, OmissionCategory::DeclarationsOfSupport(vec![DRENTHE]));
    let scrapped = derive(&data, vec![groningen(), drenthe]);
    assert_eq!(scrapped.list_districts(list), [GRONINGEN, DRENTHE]);
    assert!(scrapped.all_list_districts_scrapped(list));
    assert!(scrapped.is_list_scrapped(list));
}

#[test]
fn declarations_of_support_without_districts_scrap_every_district() {
    let list = 10;
    let data = data_with_list(list, vec![UTRECHT]);

    let scrapped = derive(&data, vec![irreparable(100, OmissionCategory::DeclarationsOfSupport(vec![]))]);

    assert!(scrapped.is_district_scrapped(BONAIRE));
    assert_eq!(scrapped.districts(&election_districts()), election_districts());
    assert!(scrapped.is_list_scrapped(list));
}

#[test]
fn districts_come_out_in_election_order() {
    let scrapped = derive(
        &PgStoreData::new(),
        vec![not_recovered(100, OmissionCategory::DeclarationsOfSupport(vec![DRENTHE, GRONINGEN]))],
    );

    assert_eq!(scrapped.districts(&election_districts()), [GRONINGEN, DRENTHE]);
}

#[test]
fn appellation_is_scrapped_by_appellation_omissions_only() {
    let appellation = irreparable(100, OmissionCategory::Appellation);
    let id = appellation.id;

    let scrapped = derive(&PgStoreData::new(), vec![appellation, irreparable(101, OmissionCategory::PoliticalGroup)]);

    assert!(scrapped.is_appellation_scrapped());
    assert_eq!(scrapped.appellation_omissions().len(), 1);
    assert!(scrapped.appellation_omissions().contains(&id));
    // A political-group omission has no consequences of its own.
    assert!(scrapped.is_caused_by(id));
    assert!(!scrapped.is_caused_by(101));
}

#[test]
fn blank_list_has_no_appellation_to_scrap() {
    let mut data = PgStoreData::new();
    data.apply(StoreEvent::new_at(
        1,
        PgEvent::UpdatePoliticalGroup(PoliticalGroup { appellation: None, list_designation: Some(ListDesignation::Blank) }),
        0,
    ));
    let omission = irreparable(100, OmissionCategory::Appellation);
    let id = omission.id;

    let scrapped = derive(&data, vec![omission]);

    assert!(!scrapped.is_appellation_scrapped());
    assert!(!scrapped.is_caused_by(id));
}

#[test]
fn unresolved_means_irreparable_or_not_recovered() {
    assert!(irreparable(1, OmissionCategory::PoliticalGroup).is_unresolved());
    assert!(not_recovered(1, OmissionCategory::PoliticalGroup).is_unresolved());
    assert!(!sample_omission(1, OmissionCategory::PoliticalGroup).is_unresolved());
    assert!(!omission(1, OmissionCategory::PoliticalGroup, true, OmissionStatus::Recovered).is_unresolved());
}

#[test]
fn appellation_omissions_come_out_in_ascending_order() {
    let scrapped = derive(
        &PgStoreData::new(),
        vec![
            irreparable(9, OmissionCategory::Appellation),
            irreparable(3, OmissionCategory::Appellation),
            irreparable(5, OmissionCategory::PoliticalGroup),
            irreparable(6, OmissionCategory::Appellation),
        ],
    );

    assert_eq!(scrapped.appellation_omissions(), &vec![3, 6, 9]);
}
