use eks::csb_data::{BrpFinding, BrpStatus, Correction, CsbAction, CsbStoreData, PersonCorrection, WithCorrections};
use eks::csb_main::CsbUser;
use eks::entities::{CandidateList, DutchAddress, ElectoralDistrict, FullName};
use eks::event::StoreEvent;
use eks::pg_data::{ListDesignation, NameAuthorisation, Person, PersonalData, PgEvent, PgStoreData, PoliticalGroup};
use eks::scrapped::{Omission, OmissionCategory, OmissionStatus};
use eks::store::StoreData;

const GRONINGEN: ElectoralDistrict = ElectoralDistrict(1);
const DRENTHE: ElectoralDistrict = ElectoralDistrict(3);
const UTRECHT: ElectoralDistrict = ElectoralDistrict(7);
const BONAIRE: ElectoralDistrict = ElectoralDistrict(20);

fn election_districts() -> Vec<ElectoralDistrict> {
    (1..=20).map(ElectoralDistrict).collect()
}

fn user() -> CsbUser {
    CsbUser { id: 7 }
}

fn empty_address() -> DutchAddress {
    DutchAddress { locality: None, postal_code: None, house_number: None, house_number_addition: None, street_name: None }
}

fn sample_person(id: u128) -> Person {
    Person {
        id,
        name: FullName { last_name: "Jansen".to_string(), last_name_prefix: None, initials: "J.".to_string() },
        personal_data: PersonalData {
            gender: None,
            bsn: None,
            date_of_birth: Some("01-01-1970".to_string()),
            place_of_residence: Some("Utrecht".to_string()),
        },
        address: empty_address(),
        representative: None,
        updated_at: 0,
    }
}

fn sample_political_group() -> PoliticalGroup {
    PoliticalGroup {
        appellation: Some("Kiesraad Demo".to_string()),
        list_designation: Some(ListDesignation::Standalone),
    }
}

fn list(id: u128, districts: Vec<ElectoralDistrict>, candidates: Vec<u128>) -> CandidateList {
    CandidateList {
        id,
        electoral_districts: districts,
        candidates,
        list_submitter_id: None,
        substitute_list_submitter_ids: vec![],
        created_at: 0,
        updated_at: 0,
    }
}

fn omission(id: u128, category: OmissionCategory, recoverable: bool, status: OmissionStatus) -> Omission {
    Omission { id, category, recoverable, status, description: "Ontbreekt".to_string(), updated_at: 0 }
}

fn sample_omission(id: u128, category: OmissionCategory) -> Omission {
    omission(id, category, true, OmissionStatus::Pending)
}

/// A snapshot built from the given events of the political group's kind.
fn snapshot(events: Vec<PgEvent>) -> PgStoreData {
    let mut data = PgStoreData::new();
    for (i, e) in events.into_iter().enumerate() {
        data.apply(StoreEvent::new_at(i + 1, e, 0));
    }
    data
}

fn import(events: Vec<PgEvent>) -> CsbAction {
    CsbAction::Import { hash: [42; 32], source_stream_id: eks::stream::StreamId(5), snapshot: Box::new(snapshot(events)) }
}

/// Applies the actions in order, as events 1, 2, ... created at 10, 20, ...
fn state_with(actions: Vec<CsbAction>) -> CsbStoreData {
    let mut data = CsbStoreData::new();
    for action in actions {
        push(&mut data, action);
    }
    data
}

fn push(data: &mut CsbStoreData, action: CsbAction) {
    let id = data.events().len() + 1;
    data.apply(StoreEvent::new_at(id, action.by_user(user()), id as i64 * 10));
}

fn correct(person: u128, c: PersonCorrection) -> CsbAction {
    CsbAction::UpdateCorrection(Correction::Person(person, c))
}

#[test]
fn import_seeds_paper_corrected_data_from_the_snapshot() {
    let data = state_with(vec![import(vec![PgEvent::UpdatePoliticalGroup(sample_political_group())])]);

    assert_eq!(data.read(WithCorrections::Paper).political_group().appellation, sample_political_group().appellation);
    assert_eq!(data.read(WithCorrections::Imported).political_group().appellation, sample_political_group().appellation);
    // Both projections keep the snapshot's log; the corrected one then
    // records the import.
    let imported_log = data.read(WithCorrections::Imported).events();
    assert_eq!(imported_log.len(), 1);
    assert!(matches!(imported_log[0].payload, PgEvent::UpdatePoliticalGroup(_)));
    let log = data.read(WithCorrections::Paper).events();
    assert_eq!(log.len(), 2);
    assert!(matches!(log[0].payload, PgEvent::UpdatePoliticalGroup(_)));
    assert!(matches!(log[1].payload, PgEvent::Import { hash } if hash == [42; 32]));
}

#[test]
fn paper_corrected_update_applies_only_to_the_corrected_projection() {
    let mut data = state_with(vec![import(vec![PgEvent::UpdatePoliticalGroup(sample_political_group())])]);
    let mut corrected = sample_political_group();
    corrected.appellation = Some("Gecorrigeerde Naam".to_string());
    push(&mut data, CsbAction::PaperCorrectedUpdate(Box::new(PgEvent::UpdatePoliticalGroup(corrected.clone()))));

    assert_eq!(data.read(WithCorrections::Paper).political_group().appellation, corrected.appellation);
    // The imported snapshot stays untouched.
    assert_eq!(data.read(WithCorrections::Imported).political_group().appellation, sample_political_group().appellation);
    assert!(data.has_paper_corrections());
}

#[test]
fn undoing_csb_correction_on_person_removes_csb_correction() {
    let person = sample_person(1);
    let mut data = state_with(vec![
        import(vec![PgEvent::CreatePerson(person.clone())]),
        correct(1, PersonCorrection::Initials("A.B.".to_string())),
        correct(1, PersonCorrection::LastName("Smit".to_string())),
    ]);

    assert_eq!(data.get_all_csb_corrected_persons(), vec![1]);
    assert_eq!(data.get_correction_count(), 2);

    push(&mut data, correct(1, PersonCorrection::LastName(person.name.last_name.clone())));
    assert_eq!(data.get_all_csb_corrected_persons(), vec![1]);
    assert_eq!(data.get_correction_count(), 1);

    push(&mut data, correct(1, PersonCorrection::Initials(person.name.initials.clone())));
    assert!(data.get_all_csb_corrected_persons().is_empty());
    assert_eq!(data.get_correction_count(), 0);
    assert!(!data.has_candidate_csb_corrections(1));
}

#[test]
fn set_omission_status_updates_the_status_and_timestamp() {
    let o = sample_omission(100, OmissionCategory::PoliticalGroup);
    let data = state_with(vec![
        CsbAction::CreateOmission(o),
        CsbAction::SetOmissionStatus { omission_id: 100, status: OmissionStatus::Recovered },
    ]);

    let stored = data.get_omission(100).unwrap();
    assert_eq!(stored.status, OmissionStatus::Recovered);
    assert_eq!(stored.updated_at, data.events()[1].created_at);
    // The rest of the omission is untouched.
    assert_eq!(stored.description, "Ontbreekt");
}

#[test]
fn set_omission_status_for_an_unknown_omission_is_a_no_op() {
    let data = state_with(vec![CsbAction::SetOmissionStatus { omission_id: 100, status: OmissionStatus::NotRecovered }]);

    assert_eq!(data.get_omission_count(), 0);
    assert!(data.get_omission(100).is_err());
}

#[test]
fn undoing_csb_correction_on_appellation_removes_csb_correction() {
    let mut group = sample_political_group();
    group.appellation = Some("Partij".to_string());
    let mut data = state_with(vec![
        import(vec![PgEvent::UpdatePoliticalGroup(group)]),
        CsbAction::UpdateCorrection(Correction::Appellation("Gecorrigeerde Partij".to_string())),
    ]);
    assert_eq!(data.get_political_group_csb_corrections_count(), 1);

    push(&mut data, CsbAction::UpdateCorrection(Correction::Appellation("Partij".to_string())));

    assert_eq!(data.get_political_group_csb_corrections_count(), 0);
    assert_eq!(data.get_political_group(WithCorrections::All).appellation, Some("Partij".to_string()));
}

#[test]
fn correction_appellation_sets_corrected_appellation() {
    let data = state_with(vec![
        import(vec![PgEvent::UpdatePoliticalGroup(sample_political_group())]),
        CsbAction::UpdateCorrection(Correction::Appellation("Gecorrigeerde Naam".to_string())),
    ]);

    assert_eq!(data.get_political_group(WithCorrections::All).appellation, Some("Gecorrigeerde Naam".to_string()));
    // The corrections below the committee's own leave it out.
    assert_eq!(data.get_political_group(WithCorrections::Paper).appellation, sample_political_group().appellation);
}

#[test]
fn correction_person_accumulates_multiple_corrections() {
    let mut data = state_with(vec![import(vec![PgEvent::CreatePerson(sample_person(1))])]);
    let corrections = [
        PersonCorrection::Initials("X.Y.Z.".to_string()),
        PersonCorrection::LastName("Bakker".to_string()),
        PersonCorrection::DateOfBirth("15-06-1985".to_string()),
        PersonCorrection::PlaceOfResidence("Amsterdam".to_string()),
    ];

    // After each event every correction so far is in force.
    for (i, c) in corrections.iter().enumerate() {
        push(&mut data, correct(1, c.clone()));
        assert_eq!(data.get_correction_count(), i + 1);
        let person = data.get_person(1, WithCorrections::All).unwrap();
        for done in &corrections[..=i] {
            assert!(!done.changes(&person));
        }
    }
    let person = data.get_person(1, WithCorrections::All).unwrap();
    assert_eq!(person.name.initials, "X.Y.Z.");
    assert_eq!(person.name.last_name, "Bakker");
    assert_eq!(person.personal_data.date_of_birth, Some("15-06-1985".to_string()));
    assert_eq!(person.personal_data.place_of_residence, Some("Amsterdam".to_string()));
    // Without the committee's corrections the candidate is as imported.
    assert_eq!(data.get_person(1, WithCorrections::Paper).unwrap(), sample_person(1));
}

/// A store holding candidate 1, already checked against the BRP.
fn checked_store() -> CsbStoreData {
    let data = state_with(vec![
        import(vec![PgEvent::CreatePerson(sample_person(1))]),
        CsbAction::BrpPersonChecked { person: 1, findings: vec![BrpFinding("not_dutch".to_string())] },
        CsbAction::SetBrpStatus(BrpStatus::Finished),
    ]);
    assert!(data.is_brp_checked(1));
    data
}

#[test]
fn an_ambtshalve_correction_drops_what_the_brp_said() {
    let mut data = checked_store();
    push(&mut data, correct(1, PersonCorrection::LastName("Gecorrigeerd".to_string())));

    assert!(!data.is_brp_checked(1), "the findings are about values that are no longer on screen");
    // The sweep still ran to completion; it is the candidate that changed.
    assert_eq!(data.get_brp_status(), BrpStatus::Finished);
}

#[test]
fn a_paper_correction_to_the_candidate_drops_what_the_brp_said() {
    let mut data = checked_store();
    let mut person = sample_person(1);
    person.name.last_name = "Gecorrigeerd".to_string();
    push(&mut data, CsbAction::PaperCorrectedUpdate(Box::new(PgEvent::UpdatePerson(person))));

    assert!(!data.is_brp_checked(1));
}

#[test]
fn a_change_the_brp_check_never_looked_at_leaves_the_findings_alone() {
    let mut data = checked_store();
    // The correspondence address is not compared against the BRP.
    push(
        &mut data,
        CsbAction::PaperCorrectedUpdate(Box::new(PgEvent::UpdatePersonAddress { person_id: 1, address: empty_address() })),
    );
    // Nor is anything about the political group.
    push(&mut data, CsbAction::UpdateCorrection(Correction::Appellation("Andere Naam".to_string())));

    assert!(data.is_brp_checked(1));
    assert_eq!(data.get_brp_findings_for_person(1), vec![BrpFinding("not_dutch".to_string())]);
}

#[test]
fn a_candidate_nobody_checked_is_unaffected() {
    let mut data = state_with(vec![import(vec![PgEvent::CreatePerson(sample_person(1))])]);
    push(&mut data, correct(1, PersonCorrection::LastName("Gecorrigeerd".to_string())));

    assert!(!data.is_brp_checked(1));
    assert_eq!(data.get_brp_status(), BrpStatus::NotStarted);
}

#[test]
fn pending_and_actionable_counts_skip_irreparable_omissions() {
    let data = state_with(vec![
        CsbAction::CreateOmission(sample_omission(1, OmissionCategory::PoliticalGroup)),
        CsbAction::CreateOmission(omission(2, OmissionCategory::PoliticalGroup, true, OmissionStatus::Recovered)),
        CsbAction::CreateOmission(omission(3, OmissionCategory::PoliticalGroup, false, OmissionStatus::Pending)),
    ]);

    // The irreparable omission needs no decision and is not actionable.
    assert_eq!(data.get_pending_omission_count(), 1);
    assert_eq!(data.get_actionable_omission_count(), 2);
}

#[test]
fn is_candidate_scrapped_only_for_unresolved_omissions_on_that_list() {
    let (person, list_a, list_b) = (1, 10, 11);
    let mut data = state_with(vec![CsbAction::CreateOmission(sample_omission(
        100,
        OmissionCategory::Candidate { person, lists: vec![list_a] },
    ))]);
    // A pending omission is not (yet) unresolved.
    assert!(!data.is_candidate_scrapped(person, list_a));

    push(
        &mut data,
        CsbAction::CreateOmission(omission(
            101,
            OmissionCategory::Candidate { person, lists: vec![list_a] },
            true,
            OmissionStatus::NotRecovered,
        )),
    );

    assert!(data.is_candidate_scrapped(person, list_a));
    // Scoped to the lists the omission references.
    assert!(!data.is_candidate_scrapped(person, list_b));
    assert!(!data.is_candidate_scrapped(2, list_a));
}

#[test]
fn get_recovery_position_renumbers_around_scrapped_candidates() {
    let list_id = 10;
    let (first, scrapped, last) = (1, 2, 3);
    let data = state_with(vec![
        import(vec![PgEvent::CreateCandidateList(list(list_id, vec![GRONINGEN], vec![first, scrapped, last]))]),
        CsbAction::CreateOmission(omission(
            100,
            OmissionCategory::Candidate { person: scrapped, lists: vec![list_id] },
            true,
            OmissionStatus::NotRecovered,
        )),
    ]);

    assert_eq!(data.get_recovery_position(list_id, first), Some(1));
    // The scrapped candidate keeps its place in the order but loses its
    // number, so the candidate below moves up.
    assert_eq!(data.get_recovery_position(list_id, scrapped), None);
    assert_eq!(data.get_recovery_position(list_id, last), Some(2));

    assert_eq!(data.get_recovery_position(list_id, 4), None);
}

#[test]
fn candidate_list_is_scrapped_once_all_its_districts_are_scrapped() {
    let list_id = 10;
    let election = election_districts();
    let mut data = state_with(vec![
        import(vec![PgEvent::CreateCandidateList(list(list_id, vec![GRONINGEN, DRENTHE], vec![]))]),
        CsbAction::CreateOmission(omission(
            100,
            OmissionCategory::DeclarationsOfSupport(vec![GRONINGEN]),
            true,
            OmissionStatus::NotRecovered,
        )),
    ]);

    assert_eq!(data.get_candidate_list_scrapped_districts(list_id, &election), vec![GRONINGEN]);
    // One of the two districts is gone, the list itself is not.
    assert!(!data.is_candidate_list_scrapped(list_id, &election).unwrap());

    push(
        &mut data,
        CsbAction::CreateOmission(omission(
            101,
            OmissionCategory::DeclarationsOfSupport(vec![DRENTHE]),
            true,
            OmissionStatus::NotRecovered,
        )),
    );

    assert_eq!(data.get_candidate_list_scrapped_districts(list_id, &election), vec![GRONINGEN, DRENTHE]);
    assert!(data.is_candidate_list_scrapped(list_id, &election).unwrap());
}

#[test]
fn is_candidate_scrapped_by_an_irreparable_omission() {
    let data = state_with(vec![CsbAction::CreateOmission(omission(
        100,
        OmissionCategory::Candidate { person: 1, lists: vec![10] },
        false,
        OmissionStatus::Pending,
    ))]);

    assert!(data.is_candidate_scrapped(1, 10));
}

#[test]
fn is_candidate_list_scrapped_ignores_recovered_and_candidate_omissions() {
    let list_id = 10;
    let election = election_districts();
    let mut data = state_with(vec![
        import(vec![PgEvent::CreateCandidateList(list(list_id, vec![GRONINGEN], vec![]))]),
        CsbAction::CreateOmission(omission(
            100,
            OmissionCategory::CandidateList(vec![list_id]),
            true,
            OmissionStatus::Recovered,
        )),
        // An unresolved omission of a candidate scraps the candidate, not the list.
        CsbAction::CreateOmission(omission(
            101,
            OmissionCategory::Candidate { person: 1, lists: vec![list_id] },
            true,
            OmissionStatus::NotRecovered,
        )),
    ]);
    assert!(!data.is_candidate_list_scrapped(list_id, &election).unwrap());

    push(
        &mut data,
        CsbAction::CreateOmission(omission(
            102,
            OmissionCategory::CandidateList(vec![list_id]),
            true,
            OmissionStatus::NotRecovered,
        )),
    );
    assert!(data.is_candidate_list_scrapped(list_id, &election).unwrap());

    assert!(data.is_candidate_list_scrapped(11, &election).is_err());
}

#[test]
fn get_scrapped_districts_sorts_and_expands_empty_to_all() {
    let election = election_districts();
    let mut data = state_with(vec![
        CsbAction::CreateOmission(omission(
            100,
            OmissionCategory::DeclarationsOfSupport(vec![DRENTHE, GRONINGEN]),
            true,
            OmissionStatus::NotRecovered,
        )),
        // Recovered and pending omissions scrap nothing.
        CsbAction::CreateOmission(omission(
            101,
            OmissionCategory::DeclarationsOfSupport(vec![BONAIRE]),
            true,
            OmissionStatus::Recovered,
        )),
        CsbAction::CreateOmission(sample_omission(102, OmissionCategory::DeclarationsOfSupport(vec![UTRECHT]))),
    ]);

    assert_eq!(data.get_scrapped_districts(&election), vec![GRONINGEN, DRENTHE]);

    // An unresolved omission without districts covers all districts.
    push(
        &mut data,
        CsbAction::CreateOmission(omission(
            103,
            OmissionCategory::DeclarationsOfSupport(vec![]),
            false,
            OmissionStatus::Pending,
        )),
    );
    assert_eq!(data.get_scrapped_districts(&election), election);
}

#[test]
fn get_political_group_omissions_returns_only_political_group() {
    let data = state_with(vec![
        CsbAction::CreateOmission(sample_omission(100, OmissionCategory::PoliticalGroup)),
        CsbAction::CreateOmission(sample_omission(101, OmissionCategory::CandidateList(vec![10]))),
    ]);

    let result = data.get_political_group_omissions();

    assert_eq!(result.len(), 1);
    assert!(matches!(result[0].category, OmissionCategory::PoliticalGroup));
}

#[test]
fn get_political_group_omissions_returns_empty_when_none() {
    let data = state_with(vec![CsbAction::CreateOmission(sample_omission(101, OmissionCategory::CandidateList(vec![10])))]);

    assert!(data.get_political_group_omissions().is_empty());
}

#[test]
fn get_candidate_omissions_returns_only_omissions_for_the_given_person() {
    let data = state_with(vec![
        CsbAction::CreateOmission(sample_omission(100, OmissionCategory::Candidate { person: 1, lists: vec![] })),
        CsbAction::CreateOmission(sample_omission(101, OmissionCategory::Candidate { person: 2, lists: vec![] })),
        CsbAction::CreateOmission(sample_omission(102, OmissionCategory::PoliticalGroup)),
    ]);

    let result = data.get_candidate_omissions(1);

    assert_eq!(result.len(), 1);
    assert!(matches!(result[0].category, OmissionCategory::Candidate { person, .. } if person == 1));
}

#[test]
fn get_candidate_omissions_returns_empty_when_no_match() {
    let data = state_with(vec![CsbAction::CreateOmission(sample_omission(
        100,
        OmissionCategory::Candidate { person: 1, lists: vec![] },
    ))]);

    assert!(data.get_candidate_omissions(2).is_empty());
}

#[test]
fn get_candidate_list_omissions_returns_omissions_referencing_that_list() {
    let (list_a, list_b) = (10, 11);
    let data = state_with(vec![
        import(vec![
            PgEvent::CreateCandidateList(list(list_a, vec![GRONINGEN], vec![])),
            PgEvent::CreateCandidateList(list(list_b, vec![DRENTHE], vec![])),
        ]),
        CsbAction::CreateOmission(sample_omission(100, OmissionCategory::CandidateList(vec![list_a]))),
        CsbAction::CreateOmission(sample_omission(101, OmissionCategory::CandidateList(vec![list_b]))),
        CsbAction::CreateOmission(sample_omission(102, OmissionCategory::PoliticalGroup)),
    ]);

    let result_a = data.get_candidate_list_omissions(list_a).unwrap();
    let result_b = data.get_candidate_list_omissions(list_b).unwrap();

    assert_eq!(result_a.len(), 1);
    assert!(matches!(&result_a[0].category, OmissionCategory::CandidateList(ids) if ids == &[list_a]));
    assert_eq!(result_b.len(), 1);
    assert!(matches!(&result_b[0].category, OmissionCategory::CandidateList(ids) if ids == &[list_b]));
}

#[test]
fn get_candidate_list_prefers_the_paper_corrected_version() {
    let list_id = 10;
    let data = state_with(vec![
        import(vec![PgEvent::CreateCandidateList(list(list_id, vec![UTRECHT], vec![]))]),
        CsbAction::PaperCorrectedUpdate(Box::new(PgEvent::UpdateCandidateListDistricts {
            list_id,
            electoral_districts: vec![GRONINGEN],
        })),
    ]);

    let l = data.get_candidate_list(list_id, WithCorrections::Imported).unwrap();
    assert_eq!(l.electoral_districts, vec![UTRECHT]);
    let l = data.get_candidate_list(list_id, WithCorrections::Paper).unwrap();
    assert_eq!(l.electoral_districts, vec![GRONINGEN]);
}

#[test]
fn get_person_falls_back_to_a_paper_added_person() {
    let mut person = sample_person(1);
    person.name = FullName { last_name: "Jansen".to_string(), last_name_prefix: None, initials: "A.B.".to_string() };
    let data = state_with(vec![import(vec![]), CsbAction::PaperCorrectedUpdate(Box::new(PgEvent::CreatePerson(person)))]);

    assert!(data.get_person(1, WithCorrections::Imported).is_none());
    assert!(data.get_person(1, WithCorrections::Paper).is_some());
}

#[test]
fn get_candidate_list_omissions_errors_for_unknown_list() {
    let data = state_with(vec![CsbAction::CreateOmission(sample_omission(100, OmissionCategory::CandidateList(vec![10])))]);

    assert!(data.get_candidate_list_omissions(11).is_err());
}

#[test]
fn get_persons_applies_the_committees_own_corrections() {
    let data = state_with(vec![
        import(vec![PgEvent::CreatePerson(sample_person(1))]),
        correct(1, PersonCorrection::LastName("Gecorrigeerd".to_string())),
    ]);

    let corrected = data.get_persons(WithCorrections::All);
    assert_eq!(corrected.len(), 1);
    assert_eq!(corrected[0].name.last_name, "Gecorrigeerd");

    // The imported data is untouched.
    let imported = data.get_persons(WithCorrections::Imported);
    assert_eq!(imported[0].name.last_name, "Jansen");
}

#[test]
fn lists_and_authorisations_follow_the_chosen_projection() {
    let data = state_with(vec![
        import(vec![
            PgEvent::CreateCandidateList(list(10, vec![GRONINGEN], vec![])),
            PgEvent::CreateNameAuthorisation(NameAuthorisation {
                id: 3,
                name: FullName { last_name: "Vos".to_string(), last_name_prefix: None, initials: "K.".to_string() },
            }),
        ]),
        CsbAction::PaperCorrectedUpdate(Box::new(PgEvent::CreateCandidateList(list(11, vec![DRENTHE], vec![])))),
    ]);

    let ids: Vec<u128> = data.get_candidate_lists(WithCorrections::Imported).iter().map(|l| l.id).collect();
    assert_eq!(ids, vec![10]);
    let ids: Vec<u128> = data.get_candidate_lists(WithCorrections::All).iter().map(|l| l.id).collect();
    assert_eq!(ids, vec![10, 11]);
    assert_eq!(data.get_name_authorisations(WithCorrections::Paper).len(), 1);
    assert_eq!(data.get_name_authorisations(WithCorrections::Paper)[0].id, 3);
}

#[test]
fn a_correction_of_an_unknown_candidate_is_dropped() {
    let data = state_with(vec![import(vec![]), correct(9, PersonCorrection::LastName("X".to_string()))]);

    assert!(data.get_all_csb_corrected_persons().is_empty());
    assert_eq!(data.get_restoration_count(), 0);
}

#[test]
fn update_and_delete_omission_follow_their_events() {
    let mut data = state_with(vec![CsbAction::CreateOmission(sample_omission(100, OmissionCategory::PoliticalGroup))]);
    let mut changed = sample_omission(100, OmissionCategory::Appellation);
    changed.description = "Anders".to_string();
    push(&mut data, CsbAction::UpdateOmission(changed));
    // An update of an omission nobody recorded is ignored.
    push(&mut data, CsbAction::UpdateOmission(sample_omission(101, OmissionCategory::PoliticalGroup)));

    let stored = data.get_omission(100).unwrap();
    assert_eq!(stored.description, "Anders");
    assert!(matches!(stored.category, OmissionCategory::Appellation));
    assert_eq!(stored.updated_at, 20);
    assert_eq!(data.get_omission_count(), 1);

    push(&mut data, CsbAction::DeleteOmission { omission_id: 100 });
    assert_eq!(data.get_omission_count(), 0);
    assert_eq!(data.get_restoration_count(), 0);
}

#[test]
fn candidate_and_list_omission_flags() {
    let list_id = 10;
    let data = state_with(vec![
        import(vec![
            PgEvent::CreatePerson(sample_person(1)),
            PgEvent::CreateCandidateList(list(list_id, vec![GRONINGEN], vec![1])),
            PgEvent::CreateCandidateList(list(11, vec![GRONINGEN], vec![])),
        ]),
        CsbAction::CreateOmission(sample_omission(100, OmissionCategory::Candidate { person: 1, lists: vec![list_id] })),
        correct(1, PersonCorrection::Initials("Q.".to_string())),
    ]);

    assert!(data.has_candidate_omissions(1, list_id));
    assert!(!data.has_candidate_omissions(1, 11));
    assert_eq!(data.has_candidate_list_omissions(list_id), Ok(true));
    assert_eq!(data.has_candidate_list_omissions(11), Ok(false));
    assert!(data.has_candidate_list_omissions(12).is_err());
    assert_eq!(data.has_candidate_list_csb_corrections(list_id), Ok(true));
    assert_eq!(data.has_candidate_list_csb_corrections(11), Ok(false));
    assert!(data.has_candidate_list_csb_corrections(12).is_err());
    assert_eq!(data.get_candidate_position(list_id, 1, WithCorrections::All), Some(1));
    assert_eq!(data.get_candidate_position(11, 1, WithCorrections::All), None);
    assert_eq!(data.get_restoration_count(), 2);
}

#[test]
fn finish_delete_and_event_categories() {
    let mut data = state_with(vec![CsbAction::CreateEmpty]);
    assert!(!data.is_examination_finished());
    assert!(!data.is_deleted());
    assert!(!data.has_paper_corrections());

    push(&mut data, CsbAction::SetFinished(true));
    push(&mut data, CsbAction::Delete);
    assert!(data.is_examination_finished());
    assert!(data.is_deleted());

    let categories: Vec<&str> = data.events().iter().map(|e| e.payload.category()).collect();
    assert_eq!(categories, vec!["import", "set_finished", "delete"]);
    assert_eq!(data.events()[0].payload.csb_user().id, 7);
}

#[test]
fn import_event_category() {
    let event = import(vec![]).by_user(user());
    assert_eq!(event.category(), "import");
}

#[test]
fn first_candidate_name_follows_the_creation_order_of_the_lists() {
    let mut second = sample_person(2);
    second.name.last_name = "Bakker".to_string();
    let mut data = PgStoreData::new();
    let events = vec![
        (PgEvent::CreatePerson(sample_person(1)), 1),
        (PgEvent::CreatePerson(second), 2),
        (PgEvent::CreateCandidateList(list(10, vec![GRONINGEN], vec![2])), 30),
        (PgEvent::CreateCandidateList(list(11, vec![GRONINGEN], vec![1])), 20),
        (PgEvent::CreateCandidateList(list(12, vec![GRONINGEN], vec![])), 10),
    ];
    for (i, (e, at)) in events.into_iter().enumerate() {
        data.apply(StoreEvent::new_at(i + 1, e, at));
    }
    let csb = state_with(vec![CsbAction::Import {
        hash: [1; 32],
        source_stream_id: eks::stream::StreamId(5),
        snapshot: Box::new(data),
    }]);

    assert_eq!(csb.get_first_candidate_name(WithCorrections::All).unwrap().last_name, "Jansen");
    assert!(state_with(vec![import(vec![])]).get_first_candidate_name(WithCorrections::All).is_none());
}
