use eks::csb_main::{CsbMainAction, CsbMainStoreData, CsbUser, RegisteredPoliticalGroup};
use eks::error::AppError;
use eks::event::StoreEvent;
use eks::store::StoreData;
use eks::stream::StreamId;

fn user() -> CsbUser {
    CsbUser { id: 77 }
}

fn sample_registered_political_group(appellation: &str, votes: u64, seats: u64) -> RegisteredPoliticalGroup {
    RegisteredPoliticalGroup {
        id: 0x1234_5678_9abc_def0_0fed_cba9_8765_4321,
        appellation: appellation.to_string(),
        previous_votes: votes,
        previous_seats: seats,
    }
}

#[test]
fn registered_political_group_events_share_a_category() {
    let group = sample_registered_political_group("Test Partij", 1234, 2);
    let create = CsbMainAction::CreateRegisteredPoliticalGroup(group.clone()).by_user(user());
    let update = CsbMainAction::UpdateRegisteredPoliticalGroup(group.clone()).by_user(user());
    let delete = CsbMainAction::DeleteRegisteredPoliticalGroup(group.id).by_user(user());

    for event in [&create, &update, &delete] {
        assert_eq!(event.category(), "registered_political_group");
    }
    assert_eq!(create.key(), "create_registered_political_group");
    assert_eq!(update.key(), "update_registered_political_group");
    assert_eq!(delete.key(), "delete_registered_political_group");
    assert_eq!(create.details(), "Test Partij: 1234 votes, 2 seats");
    assert_eq!(delete.details(), StreamId(group.id).to_string());
    assert_eq!(delete.details(), "12345678-9abc-def0-0fed-cba987654321");
}

#[test]
fn list_order_event_lists_the_streams_in_order() {
    let first = StreamId(1);
    let second = StreamId(0xff);
    let event = CsbMainAction::UpdateListOrder(vec![first, second]).by_user(user());

    assert_eq!(event.category(), "numbering");
    assert_eq!(event.key(), "update_list_order");
    assert_eq!(event.details(), format!("{}, {}", first.to_string(), second.to_string()));
    assert_eq!(
        event.details(),
        "00000000-0000-0000-0000-000000000001, 00000000-0000-0000-0000-0000000000ff"
    );
}

#[test]
fn session_events_are_system_events_without_details() {
    let login = CsbMainAction::Login.by_user(user());
    assert_eq!(login.category(), "system");
    assert_eq!(login.key(), "login");
    assert_eq!(login.details(), "");
    assert_eq!(login.csb_user(), &user());
    assert_eq!(CsbMainAction::Logout.by_user(user()).key(), "logout");
}

fn store_with(groups: &[RegisteredPoliticalGroup]) -> CsbMainStoreData {
    let mut data = CsbMainStoreData::new();
    for (i, group) in groups.iter().enumerate() {
        data.apply(StoreEvent::new(
            i + 1,
            CsbMainAction::CreateRegisteredPoliticalGroup(group.clone()).by_user(user()),
        ));
    }
    data
}

fn group_with_id(id: u128, appellation: &str, votes: u64) -> RegisteredPoliticalGroup {
    RegisteredPoliticalGroup { id, ..sample_registered_political_group(appellation, votes, 1) }
}

#[test]
fn update_replaces_and_delete_removes_a_group() {
    let mut group = group_with_id(1, "Partij", 100);
    let mut data = store_with(std::slice::from_ref(&group));

    group.previous_votes = 200;
    data.apply(StoreEvent::new(
        2,
        CsbMainAction::UpdateRegisteredPoliticalGroup(group.clone()).by_user(user()),
    ));
    assert_eq!(data.get_registered_political_group(group.id).unwrap().previous_votes, 200);

    data.apply(StoreEvent::new(3, CsbMainAction::DeleteRegisteredPoliticalGroup(group.id).by_user(user())));
    assert!(matches!(data.get_registered_political_group(group.id), Err(AppError::GenericNotFound)));
    assert!(data.registered_groups().is_empty());
}

#[test]
fn updating_an_unknown_group_is_ignored() {
    let mut data = store_with(&[]);
    let group = group_with_id(1, "Partij", 100);

    data.apply(StoreEvent::new(1, CsbMainAction::UpdateRegisteredPoliticalGroup(group).by_user(user())));

    assert!(data.registered_groups().is_empty());
    assert_eq!(data.events().len(), 1);
}

#[test]
fn detects_duplicate_appellations_except_the_group_itself() {
    let group = group_with_id(1, "De Partij", 100);
    let data = store_with(std::slice::from_ref(&group));

    assert!(data.has_registered_appellation("de partij", None));
    assert!(!data.has_registered_appellation("de partij", Some(group.id)));
    assert!(!data.has_registered_appellation("Andere", None));
}

#[test]
fn list_order_is_replaced() {
    let mut data = store_with(&[]);
    data.apply(StoreEvent::new(1, CsbMainAction::UpdateListOrder(vec![StreamId(3), StreamId(1)]).by_user(user())));
    assert_eq!(data.list_order(), &vec![StreamId(3), StreamId(1)]);
    data.apply(StoreEvent::new(2, CsbMainAction::UpdateListOrder(vec![StreamId(2)]).by_user(user())));
    assert_eq!(data.list_order(), &vec![StreamId(2)]);
}

#[test]
fn registered_groups_keep_their_registration_order() {
    let data = store_with(&[group_with_id(1, "Klein", 10), group_with_id(2, "Groot", 1000)]);
    let names: Vec<&str> = data.registered_groups().iter().map(|g| g.appellation.as_str()).collect();
    assert_eq!(names, vec!["Klein", "Groot"]);
}
