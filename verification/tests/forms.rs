use eks::entities::{ListSubmitter, PoliticalGroup};
use eks::forms::{ListSubmitterForm, PoliticalGroupForm, PoliticalGroupSteps, PoliticalGroupUpdatePath};

fn group(long_list_allowed: Option<bool>, legal: Option<&str>, display: Option<&str>) -> PoliticalGroup {
    PoliticalGroup {
        id: 1,
        long_list_allowed,
        legal_name: legal.map(str::to_string),
        display_name: display.map(str::to_string),
        created_at: 0,
        updated_at: 0,
    }
}

#[test]
fn steps_reflect_what_is_filled_in() {
    let complete = group(Some(true), Some("Partij"), Some("P"));
    let steps = PoliticalGroupSteps::new(&complete, &vec![true], &vec![true], &vec![true, true]);
    assert!(steps.basic_complete && !steps.basic_empty);
    assert!(steps.authorised_agents_complete && !steps.authorised_agents_empty);
    assert!(steps.submitters_complete && !steps.submitters_empty);

    let empty = group(None, Some(""), None);
    let steps = PoliticalGroupSteps::new(&empty, &vec![], &vec![], &vec![]);
    assert!(!steps.basic_complete && steps.basic_empty);
    assert!(!steps.authorised_agents_complete && steps.authorised_agents_empty);
    assert!(!steps.submitters_complete && steps.submitters_empty);

    let partial = group(Some(false), Some("Partij"), Some(""));
    let steps = PoliticalGroupSteps::new(&partial, &vec![true, false], &vec![true], &vec![]);
    assert!(!steps.basic_complete && !steps.basic_empty);
    assert!(!steps.authorised_agents_complete && !steps.authorised_agents_empty);
    assert!(!steps.submitters_complete && !steps.submitters_empty);
}

#[test]
fn forms_start_from_the_stored_values() {
    let form = PoliticalGroupForm::from(group(Some(false), Some("Partij"), None));
    assert_eq!(form.long_list_allowed, "false");
    assert_eq!(form.legal_name, "Partij");
    assert_eq!(form.display_name, "");
    assert_eq!(PoliticalGroupForm::from(group(Some(true), None, None)).long_list_allowed, "true");
    assert_eq!(PoliticalGroupForm::from(group(None, None, None)).long_list_allowed, "");

    let form = ListSubmitterForm::from(ListSubmitter {
        id: 1,
        last_name: "Vries".to_string(),
        last_name_prefix: Some("de".to_string()),
        initials: "A.".to_string(),
        locality: "Utrecht".to_string(),
        postal_code: "3511 AA".to_string(),
        house_number: "1".to_string(),
        house_number_addition: None,
        street_name: "Oudegracht".to_string(),
        created_at: 0,
        updated_at: 0,
    });
    assert_eq!(form.last_name, "Vries");
    assert_eq!(form.last_name_prefix, "de");
    assert_eq!(form.house_number_addition, "");
    assert_eq!(form.street_name, "Oudegracht");
}

#[test]
fn the_political_group_page_path() {
    assert_eq!(PoliticalGroup::update_path(), "/political-group");
    assert_eq!(PoliticalGroupUpdatePath.to_string(), "/political-group");
}
