use eks::entities::{CandidateList, DutchAddress, ElectoralDistrict, FullName, ListSubmitter, Representative};
use eks::event::StoreEvent;
use eks::pg_data::{
    ListDesignation, NameAuthorisation, Person, PersonalData, PgEvent, PgStoreData, PoliticalGroup,
};
use eks::store::StoreData;

const NOW: i64 = 1_700_000_000_000_000;
const SECOND: i64 = 1_000_000;

fn name(last: &str, initials: &str) -> FullName {
    FullName { last_name: last.to_string(), last_name_prefix: None, initials: initials.to_string() }
}

fn sample_person(id: u128) -> Person {
    Person {
        id,
        name: name("Jansen", "J."),
        personal_data: PersonalData {
            gender: None,
            bsn: Some("123456782".to_string()),
            date_of_birth: Some("01-01-1970".to_string()),
            place_of_residence: Some("Amsterdam".to_string()),
        },
        address: DutchAddress {
            locality: Some("Amsterdam".to_string()),
            postal_code: Some("1011 AB".to_string()),
            house_number: Some("1".to_string()),
            house_number_addition: None,
            street_name: Some("Dam".to_string()),
        },
        representative: Some(Representative {
            name: name("Visser", "E.F."),
            address: DutchAddress {
                locality: None,
                postal_code: None,
                house_number: None,
                house_number_addition: None,
                street_name: None,
            },
        }),
        updated_at: NOW - 100 * SECOND,
    }
}

fn sample_candidate_list(id: u128) -> CandidateList {
    CandidateList {
        id,
        electoral_districts: vec![ElectoralDistrict(1)],
        candidates: vec![],
        list_submitter_id: None,
        substitute_list_submitter_ids: vec![],
        created_at: 0,
        updated_at: 0,
    }
}

fn sample_address() -> DutchAddress {
    DutchAddress {
        locality: Some("Utrecht".to_string()),
        postal_code: Some("3511 AA".to_string()),
        house_number: Some("12".to_string()),
        house_number_addition: Some("A".to_string()),
        street_name: Some("Oudegracht".to_string()),
    }
}

fn sample_representative() -> Representative {
    Representative {
        name: FullName { last_name: "Bakker".to_string(), last_name_prefix: None, initials: "C.D.".to_string() },
        address: DutchAddress {
            locality: Some("Rotterdam".to_string()),
            postal_code: Some("3011 CC".to_string()),
            house_number: Some("5".to_string()),
            house_number_addition: None,
            street_name: Some("Coolsingel".to_string()),
        },
    }
}

fn submitter(id: u128, last_name: &str) -> ListSubmitter {
    ListSubmitter {
        id,
        last_name: last_name.to_string(),
        last_name_prefix: None,
        initials: "L.".to_string(),
        locality: "Utrecht".to_string(),
        postal_code: "3511 AA".to_string(),
        house_number: "1".to_string(),
        house_number_addition: None,
        street_name: "Oudegracht".to_string(),
        created_at: 0,
        updated_at: 0,
    }
}

/// A projection holding a single sample person.
fn data_with_person(person_id: u128) -> PgStoreData {
    let mut data = PgStoreData::new();
    data.apply(StoreEvent::new_at(1, PgEvent::CreatePerson(sample_person(person_id)), NOW - 100 * SECOND));
    data
}

#[test]
fn apply_update_person_address_keeps_representative() {
    let person_id = 1;
    let mut data = data_with_person(person_id);
    let new_address = sample_address();

    let original_representative = data.persons().get(person_id).expect("person exists").representative.clone();

    let event_time = NOW - 20 * SECOND;
    data.apply(StoreEvent::new_at(
        2,
        PgEvent::UpdatePersonAddress { person_id, address: new_address.clone() },
        event_time,
    ));

    let updated = data.persons().get(person_id).expect("person exists");
    assert_eq!(updated.address.postal_code, new_address.postal_code);
    assert_eq!(updated.updated_at, event_time);
    assert_eq!(updated.representative, original_representative);
}

#[test]
fn apply_update_person_representative() {
    let person_id = 1;
    let mut data = data_with_person(person_id);
    let representative = sample_representative();

    let event_time = NOW - 10 * SECOND;
    data.apply(StoreEvent::new_at(
        2,
        PgEvent::UpdatePersonRepresentative { person_id, representative: Some(representative.clone()) },
        event_time,
    ));

    let updated = data.persons().get(person_id).expect("person exists");
    let updated_representative = updated.representative.as_ref().expect("representative");
    assert_eq!(updated_representative.name.last_name, "Bakker");
    assert_eq!(updated_representative.address.street_name, representative.address.street_name);
    assert_eq!(updated.updated_at, event_time);
}

#[test]
fn mod_apply_add_candidate_to_list_deduplicates() {
    let mut data = PgStoreData::new();
    let list_id = 10;
    let list = sample_candidate_list(list_id);

    data.apply(StoreEvent::new_at(1, PgEvent::CreateCandidateList(list.clone()), NOW - 60 * SECOND));

    let person_id = 1;
    data.apply(StoreEvent::new_at(
        2,
        PgEvent::AddCandidateToCandidateList { list_id, person_id },
        NOW - 30 * SECOND,
    ));

    let updated = data.candidate_lists().get(list_id).expect("list exists");
    assert_eq!(updated.candidates, vec![person_id]);

    data.apply(StoreEvent::new_at(3, PgEvent::AddCandidateToCandidateList { list_id, person_id }, NOW - 5 * SECOND));

    let updated_again = data.candidate_lists().get(list_id).expect("list exists");
    assert_eq!(updated_again.candidates, vec![person_id]);
}

#[test]
fn apply_delete_person_updates_only_candidate_lists_with_that_candidate() {
    let mut data = PgStoreData::new();
    let person_id = 1;

    let list_id_with = 10;
    let mut list_with = sample_candidate_list(list_id_with);
    list_with.candidates = vec![person_id];

    let list_id_without = 11;
    let list_without = sample_candidate_list(list_id_without);

    data.apply(StoreEvent::new_at(1, PgEvent::CreateCandidateList(list_with), NOW - 50 * SECOND));
    data.apply(StoreEvent::new_at(2, PgEvent::CreateCandidateList(list_without), NOW - 40 * SECOND));

    data.apply(StoreEvent::new_at(3, PgEvent::DeletePerson { person_id }, NOW - 10 * SECOND));

    let updated_with = data.candidate_lists().get(list_id_with).expect("list with person exists");
    assert!(updated_with.candidates.is_empty());

    let updated_without = data.candidate_lists().get(list_id_without).expect("list without person exists");
    assert!(updated_without.candidates.is_empty());
}

#[test]
fn mod_apply_remove_candidate_from_candidate_list_updates_list() {
    let mut data = PgStoreData::new();
    let list_id = 10;
    let person_id = 1;
    let other_person_id = 2;

    let mut list = sample_candidate_list(list_id);
    list.candidates = vec![person_id, other_person_id];

    data.apply(StoreEvent::new_at(1, PgEvent::CreateCandidateList(list), NOW - 45 * SECOND));

    data.apply(StoreEvent::new_at(
        2,
        PgEvent::RemoveCandidateFromCandidateList { list_id, person_id },
        NOW - 5 * SECOND,
    ));

    let updated = data.candidate_lists().get(list_id).expect("list exists");
    assert_eq!(updated.candidates, vec![other_person_id]);
}

#[test]
fn mod_apply_update_candidate_list_districts_replaces_districts() {
    let mut data = PgStoreData::new();
    let list_id = 10;

    let mut list = sample_candidate_list(list_id);
    list.electoral_districts = vec![ElectoralDistrict(7)];

    data.apply(StoreEvent::new_at(1, PgEvent::CreateCandidateList(list), NOW - 50 * SECOND));

    let districts = vec![ElectoralDistrict(9), ElectoralDistrict(10)];
    data.apply(StoreEvent::new_at(
        2,
        PgEvent::UpdateCandidateListDistricts { list_id, electoral_districts: districts.clone() },
        NOW - 15 * SECOND,
    ));

    let updated = data.candidate_lists().get(list_id).expect("list exists");
    assert_eq!(updated.electoral_districts, districts);
}

#[test]
fn mod_apply_update_candidate_list_order_replaces_candidates() {
    let mut data = PgStoreData::new();
    let list_id = 10;
    let person_id = 1;
    let other_person_id = 2;

    let mut list = sample_candidate_list(list_id);
    list.candidates = vec![person_id, other_person_id];

    data.apply(StoreEvent::new_at(1, PgEvent::CreateCandidateList(list), NOW - 40 * SECOND));

    let new_order = vec![other_person_id, person_id];
    data.apply(StoreEvent::new_at(
        2,
        PgEvent::UpdateCandidateListOrder { list_id, candidates: new_order.clone() },
        NOW - 10 * SECOND,
    ));

    let updated = data.candidate_lists().get(list_id).expect("list exists");
    assert_eq!(updated.candidates, new_order);
}

#[test]
fn snapshot_until_replays_up_to_the_target_event_and_drops_the_log() {
    let person_a = 1;
    let person_b = 2;
    let events = vec![
        StoreEvent::new(1, PgEvent::CreatePerson(sample_person(person_a))),
        StoreEvent::new(2, PgEvent::CreatePerson(sample_person(person_b))),
        StoreEvent::new(3, PgEvent::DeletePerson { person_id: person_a }),
    ];

    // Up to event 2: both persons present, and the snapshot carries no event log.
    let at_two = PgStoreData::snapshot_until(&events, 2);
    assert!(at_two.persons().contains_key(person_a));
    assert!(at_two.persons().contains_key(person_b));
    assert!(at_two.events().is_empty());

    // Up to event 3: the deletion has been applied.
    let at_three = PgStoreData::snapshot_until(&events, 3);
    assert!(!at_three.persons().contains_key(person_a));
    assert!(at_three.persons().contains_key(person_b));
    assert!(at_three.events().is_empty());
}

#[test]
fn snapshot_until_ignores_events_past_the_target() {
    let person_a = 1;
    let person_b = 2;
    let events = vec![
        StoreEvent::new(1, PgEvent::CreatePerson(sample_person(person_a))),
        StoreEvent::new(2, PgEvent::CreatePerson(sample_person(person_b))),
    ];

    // Stopping at event 1 leaves the later creation out of the snapshot.
    let snapshot = PgStoreData::snapshot_until(&events, 1);
    assert!(snapshot.persons().contains_key(person_a));
    assert!(!snapshot.persons().contains_key(person_b));
}

#[test]
fn create_stamps_the_event_time_and_the_log_grows() {
    let mut data = PgStoreData::new();
    let mut person = sample_person(1);
    person.updated_at = 5;
    data.apply(StoreEvent::new_at(1, PgEvent::CreatePerson(person), NOW));
    data.apply(StoreEvent::new_at(2, PgEvent::CreateCandidateList(sample_candidate_list(10)), NOW + SECOND));
    assert_eq!(data.persons().get(1).unwrap().updated_at, NOW);
    assert_eq!(data.candidate_lists().get(10).unwrap().created_at, NOW + SECOND);
    assert_eq!(data.events().len(), 2);
    assert_eq!(data.last_event_id(), 2);
}

#[test]
fn personal_data_creation_starts_without_address_or_representative() {
    let mut data = PgStoreData::new();
    data.apply(StoreEvent::new_at(
        1,
        PgEvent::CreatePersonPersonalData {
            person_id: 3,
            name: name("Mulder", "M."),
            personal_data: PersonalData { gender: None, bsn: None, date_of_birth: None, place_of_residence: None },
        },
        NOW,
    ));
    let person = data.persons().get(3).unwrap();
    assert_eq!(person.name.last_name, "Mulder");
    assert!(person.representative.is_none());
    assert!(person.address.street_name.is_none());
    assert_eq!(person.updated_at, NOW);
}

#[test]
fn import_candidates_stores_persons_and_sets_the_list() {
    let mut data = data_with_person(1);
    data.apply(StoreEvent::new_at(2, PgEvent::CreateCandidateList(sample_candidate_list(10)), NOW));
    let mut renamed = sample_person(1);
    renamed.name = name("Dekker", "D.");
    data.apply(StoreEvent::new_at(
        3,
        PgEvent::ImportCandidates {
            list_id: 10,
            file_name: "kandidaten.csv".to_string(),
            file_size: 120,
            created_persons: vec![sample_person(2)],
            updated_persons: vec![renamed, sample_person(9)],
            candidates: vec![2, 1],
        },
        NOW + SECOND,
    ));
    assert_eq!(data.persons().get(1).unwrap().name.last_name, "Dekker");
    assert_eq!(data.persons().get(2).unwrap().updated_at, NOW + SECOND);
    assert!(!data.persons().contains_key(9));
    assert_eq!(data.candidate_lists().get(10).unwrap().candidates, vec![2, 1]);
}

#[test]
fn submitters_and_authorisations_follow_their_events() {
    let mut data = PgStoreData::new();
    data.apply(StoreEvent::new_at(1, PgEvent::UpdateListSubmitter(submitter(1, "Hoofd")), NOW));
    data.apply(StoreEvent::new_at(2, PgEvent::CreateSubstituteSubmitter(submitter(2, "Eerste")), NOW));
    data.apply(StoreEvent::new_at(3, PgEvent::CreateSubstituteSubmitter(submitter(3, "Tweede")), NOW));
    data.apply(StoreEvent::new_at(4, PgEvent::UpdateSubstituteSubmitter(submitter(2, "Nieuw")), NOW));
    data.apply(StoreEvent::new_at(5, PgEvent::UpdateSubstituteSubmitter(submitter(8, "Onbekend")), NOW));
    data.apply(StoreEvent::new_at(6, PgEvent::DeleteSubstituteSubmitter { substitute_submitter_id: 3 }, NOW));
    assert_eq!(data.list_submitter().last_name, "Hoofd");
    let names: Vec<&str> = data.substitute_submitters().iter().map(|s| s.last_name.as_str()).collect();
    assert_eq!(names, vec!["Nieuw"]);

    data.apply(StoreEvent::new_at(
        7,
        PgEvent::CreateNameAuthorisation(NameAuthorisation { id: 40, name: name("Groen", "G.") }),
        NOW,
    ));
    data.apply(StoreEvent::new_at(
        8,
        PgEvent::UpdateNameAuthorisation(NameAuthorisation { id: 41, name: name("Rood", "R.") }),
        NOW,
    ));
    assert!(data.name_authorisations().contains_key(40));
    assert!(!data.name_authorisations().contains_key(41));
    data.apply(StoreEvent::new_at(9, PgEvent::DeleteNameAuthorisation(40), NOW));
    assert!(!data.name_authorisations().contains_key(40));
}

#[test]
fn political_group_is_replaced_and_session_events_change_nothing() {
    let mut data = PgStoreData::new();
    data.apply(StoreEvent::new_at(
        1,
        PgEvent::UpdatePoliticalGroup(PoliticalGroup {
            appellation: Some("Partij".to_string()),
            list_designation: Some(ListDesignation::Standalone),
        }),
        NOW,
    ));
    data.apply(StoreEvent::new_at(2, PgEvent::Login, NOW));
    data.apply(StoreEvent::new_at(3, PgEvent::HideDownloadWarning, NOW));
    assert_eq!(data.political_group().appellation, Some("Partij".to_string()));
    assert_eq!(data.events().len(), 3);
}
