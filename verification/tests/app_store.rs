use eks::app_store::{AppEvent, AppStore, AppStoreData};
use eks::entities::{
    AuthorisedAgent, CandidateList, DutchAddress, ElectoralDistrict, FullName, Gender, Person, PersonalInfo,
    Representative,
};
use eks::error::AppError;

const NOW: i64 = 1_700_000_000_000_000;
const SECOND: i64 = 1_000_000;

fn name(last: &str, initials: &str) -> FullName {
    FullName { last_name: last.to_string(), last_name_prefix: None, initials: initials.to_string() }
}

fn empty_address() -> DutchAddress {
    DutchAddress { locality: None, postal_code: None, house_number: None, house_number_addition: None, street_name: None }
}

fn sample_person(id: u128) -> Person {
    Person {
        id,
        name: name("Jansen", "J."),
        first_name: Some("Jan".to_string()),
        gender: Some(Gender::Female),
        bsn: Some("123456782".to_string()),
        no_bsn_confirmed: false,
        date_of_birth: Some("01-01-1970".to_string()),
        place_of_residence: Some("Amsterdam".to_string()),
        country_of_residence: None,
        address: DutchAddress {
            locality: Some("Amsterdam".to_string()),
            postal_code: Some("1011 AB".to_string()),
            house_number: Some("1".to_string()),
            house_number_addition: None,
            street_name: Some("Dam".to_string()),
        },
        representative: Representative { name: name("Visser", "E.F."), address: empty_address() },
        created_at: NOW - 100 * SECOND,
        updated_at: NOW - 100 * SECOND,
    }
}

fn sample_candidate_list(id: u128) -> CandidateList {
    CandidateList {
        id,
        electoral_districts: vec![ElectoralDistrict(1)],
        candidates: vec![],
        list_submitter_id: Some(900),
        substitute_list_submitter_ids: vec![901],
        created_at: NOW - 200 * SECOND,
        updated_at: NOW - 200 * SECOND,
    }
}

fn sample_authorised_agent(id: u128) -> AuthorisedAgent {
    AuthorisedAgent {
        id,
        last_name: "Bos".to_string(),
        last_name_prefix: None,
        initials: "K.".to_string(),
        created_at: NOW,
        updated_at: NOW,
    }
}

#[test]
fn apply_update_personal_info_replaces_fields() {
    let mut data = AppStoreData::new();
    let person_id = 1;
    data.persons.insert(person_id, sample_person(person_id));

    let updated_at = NOW - 30 * SECOND;
    let personal_info = PersonalInfo {
        person_id,
        name: FullName {
            last_name: "Smit".to_string(),
            last_name_prefix: Some("van".to_string()),
            initials: "A.B.".to_string(),
        },
        first_name: Some("Anne".to_string()),
        gender: Some(Gender::Male),
        bsn: None,
        no_bsn_confirmed: true,
        date_of_birth: Some("03-04-1988".to_string()),
        place_of_residence: Some("Utrecht".to_string()),
        country_of_residence: Some("BE".to_string()),
        updated_at,
    };

    AppStore::apply(AppEvent::UpdatePersonPersonalInfo(personal_info.clone()), &mut data);

    let updated = data.persons.get(person_id).expect("person exists");
    assert_eq!(updated.name.last_name, "Smit");
    assert_eq!(updated.name.last_name_prefix, Some("van".to_string()));
    assert_eq!(updated.first_name, Some("Anne".to_string()));
    assert_eq!(updated.gender, Some(Gender::Male));
    assert_eq!(updated.updated_at, personal_info.updated_at);
}

#[test]
fn apply_update_person_address_and_representative() {
    let mut data = AppStoreData::new();
    let person_id = 1;
    data.persons.insert(person_id, sample_person(person_id));

    let address_updated_at = NOW - 20 * SECOND;
    let new_address = DutchAddress {
        locality: Some("Utrecht".to_string()),
        postal_code: Some("3511 AA".to_string()),
        house_number: Some("12".to_string()),
        house_number_addition: Some("A".to_string()),
        street_name: Some("Oudegracht".to_string()),
    };

    let original_representative = data.persons.get(person_id).expect("person exists").representative.clone();

    AppStore::apply(
        AppEvent::UpdatePersonAddress { person_id, address: new_address.clone(), updated_at: address_updated_at },
        &mut data,
    );

    let updated = data.persons.get(person_id).expect("person exists");
    assert_eq!(updated.address.postal_code, new_address.postal_code);
    assert_eq!(updated.updated_at, address_updated_at);
    assert_eq!(updated.representative.name.initials, original_representative.name.initials);

    let rep_updated_at = NOW - 10 * SECOND;
    let representative = Representative {
        name: FullName { last_name: "Bakker".to_string(), last_name_prefix: None, initials: "C.D.".to_string() },
        address: DutchAddress {
            locality: Some("Rotterdam".to_string()),
            postal_code: Some("3011 CC".to_string()),
            house_number: Some("5".to_string()),
            house_number_addition: None,
            street_name: Some("Coolsingel".to_string()),
        },
    };

    AppStore::apply(
        AppEvent::UpdatePersonRepresentative {
            person_id,
            representative: representative.clone(),
            updated_at: rep_updated_at,
        },
        &mut data,
    );

    let updated = data.persons.get(person_id).expect("person exists");
    assert_eq!(updated.representative.name.last_name, "Bakker");
    assert_eq!(updated.representative.address.street_name, representative.address.street_name);
    assert_eq!(updated.updated_at, rep_updated_at);
}

#[test]
fn tests_apply_add_candidate_to_list_deduplicates() {
    let mut data = AppStoreData::new();
    let list_id = 10;
    let mut list = sample_candidate_list(list_id);
    list.updated_at = NOW - 60 * SECOND;

    AppStore::apply(AppEvent::CreateCandidateList(list.clone()), &mut data);

    let person_id = 1;
    let added_at = NOW - 30 * SECOND;
    AppStore::apply(AppEvent::AddCandidateToCandidateList { list_id, person_id, updated_at: added_at }, &mut data);

    let updated = data.candidate_lists.get(list_id).expect("list exists");
    assert_eq!(updated.candidates, vec![person_id]);
    assert_eq!(updated.updated_at, added_at);

    let ignored_at = NOW - 5 * SECOND;
    AppStore::apply(AppEvent::AddCandidateToCandidateList { list_id, person_id, updated_at: ignored_at }, &mut data);

    let updated_again = data.candidate_lists.get(list_id).expect("list exists");
    assert_eq!(updated_again.candidates, vec![person_id]);
    assert_eq!(updated_again.updated_at, added_at);
}

#[test]
fn apply_remove_candidate_from_all_lists_updates_only_matches() {
    let mut data = AppStoreData::new();
    let person_id = 1;

    let list_id_with = 10;
    let mut list_with = sample_candidate_list(list_id_with);
    list_with.candidates = vec![person_id];
    list_with.updated_at = NOW - 50 * SECOND;

    let list_id_without = 11;
    let mut list_without = sample_candidate_list(list_id_without);
    list_without.updated_at = NOW - 40 * SECOND;

    AppStore::apply(AppEvent::CreateCandidateList(list_with), &mut data);
    AppStore::apply(AppEvent::CreateCandidateList(list_without), &mut data);

    let removed_at = NOW - 10 * SECOND;
    AppStore::apply(AppEvent::RemoveCandidateFromAllCandidateLists { person_id, updated_at: removed_at }, &mut data);

    let updated_with = data.candidate_lists.get(list_id_with).expect("list with person exists");
    assert!(updated_with.candidates.is_empty());
    assert_eq!(updated_with.updated_at, removed_at);

    let updated_without = data.candidate_lists.get(list_id_without).expect("list without person exists");
    assert!(updated_without.candidates.is_empty());
    assert_eq!(updated_without.updated_at, NOW - 40 * SECOND);
}

#[test]
fn tests_apply_remove_candidate_from_candidate_list_updates_list() {
    let mut data = AppStoreData::new();
    let list_id = 10;
    let person_id = 1;
    let other_person_id = 2;

    let mut list = sample_candidate_list(list_id);
    list.candidates = vec![person_id, other_person_id];
    list.updated_at = NOW - 45 * SECOND;

    AppStore::apply(AppEvent::CreateCandidateList(list), &mut data);

    let removed_at = NOW - 5 * SECOND;
    AppStore::apply(
        AppEvent::RemoveCandidateFromCandidateList { list_id, person_id, updated_at: removed_at },
        &mut data,
    );

    let updated = data.candidate_lists.get(list_id).expect("list exists");
    assert_eq!(updated.candidates, vec![other_person_id]);
    assert_eq!(updated.updated_at, removed_at);
}

#[test]
fn tests_apply_update_candidate_list_districts_replaces_districts() {
    let mut data = AppStoreData::new();
    let list_id = 10;

    let mut list = sample_candidate_list(list_id);
    list.electoral_districts = vec![ElectoralDistrict(7)];
    list.updated_at = NOW - 50 * SECOND;

    AppStore::apply(AppEvent::CreateCandidateList(list), &mut data);

    let updated_at = NOW - 15 * SECOND;
    let districts = vec![ElectoralDistrict(9), ElectoralDistrict(10)];
    AppStore::apply(
        AppEvent::UpdateCandidateListDistricts { list_id, electoral_districts: districts.clone(), updated_at },
        &mut data,
    );

    let updated = data.candidate_lists.get(list_id).expect("list exists");
    assert_eq!(updated.electoral_districts, districts);
    assert_eq!(updated.updated_at, updated_at);
}

#[test]
fn tests_apply_update_candidate_list_order_replaces_candidates() {
    let mut data = AppStoreData::new();
    let list_id = 10;
    let person_id = 1;
    let other_person_id = 2;

    let mut list = sample_candidate_list(list_id);
    list.candidates = vec![person_id, other_person_id];
    list.updated_at = NOW - 40 * SECOND;

    AppStore::apply(AppEvent::CreateCandidateList(list), &mut data);

    let updated_at = NOW - 10 * SECOND;
    let new_order = vec![other_person_id, person_id];
    AppStore::apply(
        AppEvent::UpdateCandidateListOrder { list_id, candidates: new_order.clone(), updated_at },
        &mut data,
    );

    let updated = data.candidate_lists.get(list_id).expect("list exists");
    assert_eq!(updated.candidates, new_order);
    assert_eq!(updated.updated_at, updated_at);
}

#[test]
fn apply_update_candidate_list_submitters_sets_ids() {
    let mut data = AppStoreData::new();
    let list_id = 10;
    let mut list = sample_candidate_list(list_id);
    list.list_submitter_id = None;
    list.substitute_list_submitter_ids = Vec::new();

    AppStore::apply(AppEvent::CreateCandidateList(list), &mut data);

    let list_submitter_id = Some(20);
    let substitute_ids = vec![21, 22];
    let updated_at = NOW - 15 * SECOND;

    AppStore::apply(
        AppEvent::UpdateCandidateListSubmitters {
            list_id,
            list_submitter_id,
            substitute_list_submitter_ids: substitute_ids.clone(),
            updated_at,
        },
        &mut data,
    );

    let updated = data.candidate_lists.get(list_id).expect("list exists");
    assert_eq!(updated.list_submitter_id, list_submitter_id);
    assert_eq!(updated.substitute_list_submitter_ids, substitute_ids);
    assert_eq!(updated.updated_at, updated_at);
}

#[test]
fn updates_of_unknown_entities_are_ignored() {
    let mut data = AppStoreData::new();
    AppStore::apply(AppEvent::UpdatePerson(sample_person(5)), &mut data);
    AppStore::apply(
        AppEvent::UpdateCandidateListOrder { list_id: 7, candidates: vec![1], updated_at: NOW },
        &mut data,
    );
    assert_eq!(data.persons.len(), 0);
    assert_eq!(data.candidate_lists.len(), 0);
}

#[test]
fn getters_read_the_projection() {
    let mut data = AppStoreData::new();
    let mut early = sample_candidate_list(10);
    early.created_at = NOW - 500 * SECOND;
    early.candidates = vec![1, 2];
    let mut late = sample_candidate_list(11);
    late.created_at = NOW - 100 * SECOND;
    late.candidates = vec![1];
    AppStore::apply(AppEvent::CreateCandidateList(late), &mut data);
    AppStore::apply(AppEvent::CreateCandidateList(early), &mut data);
    AppStore::apply(AppEvent::CreatePerson(sample_person(1)), &mut data);
    AppStore::apply(AppEvent::CreateAuthorisedAgent(sample_authorised_agent(30)), &mut data);
    let store = AppStore { data };

    let lists = store.get_candidate_lists().unwrap();
    assert_eq!(lists.iter().map(|l| l.id).collect::<Vec<_>>(), vec![10, 11]);
    assert_eq!(store.get_person_count().unwrap(), 1);
    assert_eq!(store.get_person(1).unwrap().name.last_name, "Jansen");
    assert!(matches!(store.get_person(2), Err(AppError::GenericNotFound)));
    assert!(matches!(store.get_candidate_list(99), Err(AppError::GenericNotFound)));
    assert_eq!(store.get_candidate_list(11).unwrap().candidates, vec![1]);
    assert_eq!(store.count_candidate_lists(1).unwrap(), 2);
    assert_eq!(store.count_candidate_lists(2).unwrap(), 1);
    assert_eq!(store.count_candidate_lists(3).unwrap(), 0);
    assert_eq!(store.get_authorised_agent(30).unwrap().last_name, "Bos");
    assert_eq!(store.get_authorised_agents().unwrap().len(), 1);
}
