//! The political group's progress through its steps, and the forms its
//! pages start from.

use vstd::prelude::*;

use crate::entities::{blank, push_all, ListSubmitter, PoliticalGroup};

verus! {

/// Whether each step of entering a political group's data is complete, and
/// whether it is still empty.
#[derive(Clone, Copy, Debug, PartialEq, Eq, Structural)]
pub struct PoliticalGroupSteps {
    pub basic_complete: bool,
    pub basic_empty: bool,
    pub authorised_agents_complete: bool,
    pub authorised_agents_empty: bool,
    pub submitters_complete: bool,
    pub submitters_empty: bool,
}

/// Every entry is complete.
pub open spec fn all_complete(complete: Seq<bool>) -> bool {
    forall|i: int| 0 <= i < complete.len() ==> #[trigger] complete[i]
}

fn all_true(v: &Vec<bool>) -> (r: bool)
    ensures
        r == all_complete(v@),
{
    let mut i: usize = 0;
    while i < v.len()
        invariant
            i <= v@.len(),
            forall|j: int| 0 <= j < i ==> #[trigger] v@[j],
        decreases v@.len() - i,
    {
        if !v[i] {
            return false;
        }
        i = i + 1;
    }
    true
}

impl PoliticalGroupSteps {
    /// The steps of `political_group`, given for each authorised agent, list
    /// submitter and substitute submitter whether it is complete. A step of
    /// people is complete when it has people and all of them are; the
    /// submitters step needs both a list submitter and a substitute.
    pub fn new(
        political_group: &PoliticalGroup,
        authorised_agents: &Vec<bool>,
        list_submitters: &Vec<bool>,
        substitute_submitters: &Vec<bool>,
    ) -> (s: Self)
        ensures
            s.basic_complete == (political_group.long_list_allowed is Some && !blank(political_group.legal_name)
                && !blank(political_group.display_name)),
            s.basic_empty == (political_group.long_list_allowed is None && blank(political_group.legal_name)
                && blank(political_group.display_name)),
            s.authorised_agents_empty == (authorised_agents@.len() == 0),
            s.authorised_agents_complete == (authorised_agents@.len() > 0 && all_complete(authorised_agents@)),
            s.submitters_empty == (list_submitters@.len() == 0 && substitute_submitters@.len() == 0),
            s.submitters_complete == (list_submitters@.len() > 0 && all_complete(list_submitters@)
                && substitute_submitters@.len() > 0 && all_complete(substitute_submitters@)),
    {
        let basic_complete = political_group.is_basic_info_complete();
        let basic_empty = political_group.is_basic_info_empty();

        let authorised_agents_empty = authorised_agents.len() == 0;
        let authorised_agents_complete = !authorised_agents_empty && all_true(authorised_agents);

        let list_submitters_empty = list_submitters.len() == 0;
        let substitute_submitters_empty = substitute_submitters.len() == 0;
        let submitters_empty = list_submitters_empty && substitute_submitters_empty;

        let list_submitters_complete = !list_submitters_empty && all_true(list_submitters);
        let substitute_submitters_complete = !substitute_submitters_empty && all_true(substitute_submitters);

        let submitters_complete = list_submitters_complete && substitute_submitters_complete;

        PoliticalGroupSteps {
            basic_complete,
            basic_empty,
            authorised_agents_complete,
            authorised_agents_empty,
            submitters_complete,
            submitters_empty,
        }
    }
}

/// The text of an optional value, empty when absent.
pub open spec fn or_empty(s: Option<String>) -> Seq<char> {
    match s {
        Some(t) => t@,
        None => Seq::empty(),
    }
}

fn text_or_empty(s: Option<String>) -> (r: String)
    ensures
        r@ == or_empty(s),
{
    match s {
        Some(t) => t,
        None => String::new(),
    }
}

/// The list-submitter form, as its page starts from.
#[derive(Debug)]
pub struct ListSubmitterForm {
    pub last_name: String,
    pub last_name_prefix: String,
    pub initials: String,
    pub locality: String,
    pub postal_code: String,
    pub house_number: String,
    pub house_number_addition: String,
    pub street_name: String,
}

impl ListSubmitterForm {
    /// The form filled in with a list submitter; absent parts are empty.
    pub fn from(value: ListSubmitter) -> (f: Self)
        ensures
            f.last_name@ == value.last_name@,
            f.last_name_prefix@ == or_empty(value.last_name_prefix),
            f.initials@ == value.initials@,
            f.locality@ == value.locality@,
            f.postal_code@ == value.postal_code@,
            f.house_number@ == value.house_number@,
            f.house_number_addition@ == or_empty(value.house_number_addition),
            f.street_name@ == value.street_name@,
    {
        ListSubmitterForm {
            last_name: value.last_name,
            last_name_prefix: text_or_empty(value.last_name_prefix),
            initials: value.initials,
            locality: value.locality,
            postal_code: value.postal_code,
            house_number: value.house_number,
            house_number_addition: text_or_empty(value.house_number_addition),
            street_name: value.street_name,
        }
    }
}

/// The political-group form, as its page starts from.
#[derive(Debug)]
pub struct PoliticalGroupForm {
    /// `"true"`, `"false"`, or empty when not chosen yet.
    pub long_list_allowed: String,
    pub legal_name: String,
    pub display_name: String,
}

/// How a yes/no choice is spelled in a form: `true`, `false`, or empty.
pub open spec fn choice_text(b: Option<bool>) -> Seq<char> {
    match b {
        Some(true) => seq!['t', 'r', 'u', 'e'],
        Some(false) => seq!['f', 'a', 'l', 's', 'e'],
        None => Seq::empty(),
    }
}

impl PoliticalGroupForm {
    /// The form filled in with the political group's basic data.
    pub fn from(value: PoliticalGroup) -> (f: Self)
        ensures
            f.long_list_allowed@ == choice_text(value.long_list_allowed),
            f.legal_name@ == or_empty(value.legal_name),
            f.display_name@ == or_empty(value.display_name),
    {
        let mut long_list_allowed = String::new();
        match value.long_list_allowed {
            Some(true) => push_all(&mut long_list_allowed, "true"),
            Some(false) => push_all(&mut long_list_allowed, "false"),
            None => {},
        }
        proof {
            reveal_strlit("true");
            reveal_strlit("false");
        }
        assert(long_list_allowed@ =~= choice_text(value.long_list_allowed));
        PoliticalGroupForm {
            long_list_allowed,
            legal_name: text_or_empty(value.legal_name),
            display_name: text_or_empty(value.display_name),
        }
    }
}

/// The page that edits the political group's basic data.
#[derive(Clone, Copy, Debug, PartialEq, Eq, Structural)]
pub struct PoliticalGroupUpdatePath;

/// The path of the political-group page.
pub open spec fn update_path_text() -> Seq<char> {
    seq!['/', 'p', 'o', 'l', 'i', 't', 'i', 'c', 'a', 'l', '-', 'g', 'r', 'o', 'u', 'p']
}

impl PoliticalGroupUpdatePath {
    /// The path the page is served at.
    pub fn to_string(&self) -> (s: String)
        ensures
            s@ == update_path_text(),
    {
        let mut s = String::new();
        push_all(&mut s, "/political-group");
        proof {
            reveal_strlit("/political-group");
        }
        assert(s@ =~= update_path_text());
        s
    }
}

impl PoliticalGroup {
    /// The path of the page that edits the political group.
    pub fn update_path() -> (s: String)
        ensures
            s@ == update_path_text(),
    {
        PoliticalGroupUpdatePath.to_string()
    }
}

} // verus!
