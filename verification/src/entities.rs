//! The entities a political group records: its basic data, persons,
//! candidate lists, authorised agents and list submitters.

use vstd::prelude::*;
use vstd::string::StrSliceExecFns;

use crate::event_hash_prefix::string_push;

verus! {

pub type PersonId = u128;

pub type CandidateListId = u128;

pub type AuthorisedAgentId = u128;

pub type ListSubmitterId = u128;

pub type SubstituteSubmitterId = u128;

pub type PoliticalGroupId = u128;

/// An electoral district, by its position in the election's district order.
#[derive(Clone, Copy, PartialEq, Eq, Debug, Hash, Structural)]
pub struct ElectoralDistrict(pub u8);

#[derive(Clone, Copy, PartialEq, Eq, Debug, Structural)]
pub enum Gender {
    Male,
    Female,
}

#[derive(Debug, PartialEq, Eq)]
pub struct FullName {
    pub last_name: String,
    pub last_name_prefix: Option<String>,
    pub initials: String,
}

#[derive(Debug, PartialEq, Eq)]
pub struct DutchAddress {
    pub locality: Option<String>,
    pub postal_code: Option<String>,
    pub house_number: Option<String>,
    pub house_number_addition: Option<String>,
    pub street_name: Option<String>,
}

#[derive(Debug, PartialEq, Eq)]
pub struct Representative {
    pub name: FullName,
    pub address: DutchAddress,
}

/// The personal details of a person, replaced as one.
#[derive(Debug, PartialEq, Eq)]
pub struct PersonalInfo {
    pub person_id: PersonId,
    pub name: FullName,
    pub first_name: Option<String>,
    pub gender: Option<Gender>,
    pub bsn: Option<String>,
    pub no_bsn_confirmed: bool,
    pub date_of_birth: Option<String>,
    pub place_of_residence: Option<String>,
    pub country_of_residence: Option<String>,
    /// Microseconds since the Unix epoch.
    pub updated_at: i64,
}

#[derive(Debug, PartialEq, Eq)]
pub struct Person {
    pub id: PersonId,
    pub name: FullName,
    pub first_name: Option<String>,
    pub gender: Option<Gender>,
    pub bsn: Option<String>,
    pub no_bsn_confirmed: bool,
    pub date_of_birth: Option<String>,
    pub place_of_residence: Option<String>,
    pub country_of_residence: Option<String>,
    pub address: DutchAddress,
    pub representative: Representative,
    pub created_at: i64,
    pub updated_at: i64,
}

impl Person {
    /// This person with its personal details replaced by `info`.
    pub fn update_personal_info(self, info: PersonalInfo) -> (p: Person)
        ensures
            p == (Person {
                name: info.name,
                first_name: info.first_name,
                gender: info.gender,
                bsn: info.bsn,
                no_bsn_confirmed: info.no_bsn_confirmed,
                date_of_birth: info.date_of_birth,
                place_of_residence: info.place_of_residence,
                country_of_residence: info.country_of_residence,
                updated_at: info.updated_at,
                ..self
            }),
    {
        Person {
            name: info.name,
            first_name: info.first_name,
            gender: info.gender,
            bsn: info.bsn,
            no_bsn_confirmed: info.no_bsn_confirmed,
            date_of_birth: info.date_of_birth,
            place_of_residence: info.place_of_residence,
            country_of_residence: info.country_of_residence,
            updated_at: info.updated_at,
            ..self
        }
    }
}

#[derive(Debug)]
pub struct CandidateList {
    pub id: CandidateListId,
    pub electoral_districts: Vec<ElectoralDistrict>,
    pub candidates: Vec<PersonId>,
    pub list_submitter_id: Option<ListSubmitterId>,
    pub substitute_list_submitter_ids: Vec<SubstituteSubmitterId>,
    pub created_at: i64,
    pub updated_at: i64,
}

#[derive(Debug, PartialEq, Eq)]
pub struct PoliticalGroup {
    pub id: PoliticalGroupId,
    pub long_list_allowed: Option<bool>,
    pub legal_name: Option<String>,
    pub display_name: Option<String>,
    pub created_at: i64,
    pub updated_at: i64,
}

/// Whether an optional text is absent or empty.
pub open spec fn blank(s: Option<String>) -> bool {
    match s {
        Some(t) => t@.len() == 0,
        None => true,
    }
}

fn is_blank(s: &Option<String>) -> (r: bool)
    ensures
        r == blank(*s),
{
    match s {
        Some(t) => t.as_str().unicode_len() == 0,
        None => true,
    }
}

impl PoliticalGroup {
    /// An empty political group.
    pub fn empty() -> (g: Self)
        ensures
            g == (PoliticalGroup {
                id: 0,
                long_list_allowed: None,
                legal_name: None,
                display_name: None,
                created_at: 0,
                updated_at: 0,
            }),
    {
        PoliticalGroup {
            id: 0,
            long_list_allowed: None,
            legal_name: None,
            display_name: None,
            created_at: 0,
            updated_at: 0,
        }
    }

    /// Whether the long-list choice is made and both names are filled in.
    pub fn is_basic_info_complete(&self) -> (r: bool)
        ensures
            r == (self.long_list_allowed is Some && !blank(self.legal_name) && !blank(self.display_name)),
    {
        self.long_list_allowed.is_some() && !is_blank(&self.legal_name) && !is_blank(&self.display_name)
    }

    /// Whether nothing of the basic data is filled in.
    pub fn is_basic_info_empty(&self) -> (r: bool)
        ensures
            r == (self.long_list_allowed is None && blank(self.legal_name) && blank(self.display_name)),
    {
        self.long_list_allowed.is_none() && is_blank(&self.legal_name) && is_blank(&self.display_name)
    }
}

#[derive(Debug, PartialEq, Eq)]
pub struct AuthorisedAgent {
    pub id: AuthorisedAgentId,
    pub last_name: String,
    pub last_name_prefix: Option<String>,
    pub initials: String,
    pub created_at: i64,
    pub updated_at: i64,
}

pub(crate) fn push_all(out: &mut String, s: &str)
    ensures
        final(out)@ == old(out)@ + s@,
{
    let n = s.unicode_len();
    let ghost start = out@;
    let mut i: usize = 0;
    while i < n
        invariant
            i <= n,
            n == s@.len(),
            out@ == start + s@.take(i as int),
        decreases n - i,
    {
        string_push(out, s.get_char(i));
        assert(s@.take(i + 1) =~= s@.take(i as int).push(s@[i as int]));
        i = i + 1;
    }
    assert(s@.take(n as int) =~= s@);
}

impl AuthorisedAgent {
    /// The last name preceded by its prefix and a space, if there is one.
    pub fn last_name_with_prefix(&self) -> (r: String)
        ensures
            r@ == match self.last_name_prefix {
                Some(prefix) => prefix@ + seq![' '] + self.last_name@,
                None => self.last_name@,
            },
    {
        match &self.last_name_prefix {
            Some(prefix) => {
                let mut r = String::new();
                push_all(&mut r, prefix.as_str());
                string_push(&mut r, ' ');
                push_all(&mut r, self.last_name.as_str());
                r
            },
            None => self.last_name.clone(),
        }
    }
}

#[derive(Debug, PartialEq, Eq)]
pub struct ListSubmitter {
    pub id: ListSubmitterId,
    pub last_name: String,
    pub last_name_prefix: Option<String>,
    pub initials: String,
    pub locality: String,
    pub postal_code: String,
    pub house_number: String,
    pub house_number_addition: Option<String>,
    pub street_name: String,
    pub created_at: i64,
    pub updated_at: i64,
}

pub type SubstituteSubmitter = ListSubmitter;

impl Clone for FullName {
    fn clone(&self) -> (r: Self)
        ensures
            r == *self,
    {
        FullName {
            last_name: self.last_name.clone(),
            last_name_prefix: self.last_name_prefix.clone(),
            initials: self.initials.clone(),
        }
    }
}

impl Clone for DutchAddress {
    fn clone(&self) -> (r: Self)
        ensures
            r == *self,
    {
        DutchAddress {
            locality: self.locality.clone(),
            postal_code: self.postal_code.clone(),
            house_number: self.house_number.clone(),
            house_number_addition: self.house_number_addition.clone(),
            street_name: self.street_name.clone(),
        }
    }
}

impl Clone for Representative {
    fn clone(&self) -> (r: Self)
        ensures
            r == *self,
    {
        Representative { name: self.name.clone(), address: self.address.clone() }
    }
}

impl Clone for PersonalInfo {
    fn clone(&self) -> (r: Self)
        ensures
            r == *self,
    {
        PersonalInfo {
            person_id: self.person_id,
            name: self.name.clone(),
            first_name: self.first_name.clone(),
            gender: self.gender,
            bsn: self.bsn.clone(),
            no_bsn_confirmed: self.no_bsn_confirmed,
            date_of_birth: self.date_of_birth.clone(),
            place_of_residence: self.place_of_residence.clone(),
            country_of_residence: self.country_of_residence.clone(),
            updated_at: self.updated_at,
        }
    }
}

impl Clone for Person {
    fn clone(&self) -> (r: Self)
        ensures
            r == *self,
    {
        Person {
            id: self.id,
            name: self.name.clone(),
            first_name: self.first_name.clone(),
            gender: self.gender,
            bsn: self.bsn.clone(),
            no_bsn_confirmed: self.no_bsn_confirmed,
            date_of_birth: self.date_of_birth.clone(),
            place_of_residence: self.place_of_residence.clone(),
            country_of_residence: self.country_of_residence.clone(),
            address: self.address.clone(),
            representative: self.representative.clone(),
            created_at: self.created_at,
            updated_at: self.updated_at,
        }
    }
}

/// Two lists hold the same values.
pub open spec fn same_list(a: CandidateList, b: CandidateList) -> bool {
    &&& a.id == b.id
    &&& a.electoral_districts@ == b.electoral_districts@
    &&& a.candidates@ == b.candidates@
    &&& a.list_submitter_id == b.list_submitter_id
    &&& a.substitute_list_submitter_ids@ == b.substitute_list_submitter_ids@
    &&& a.created_at == b.created_at
    &&& a.updated_at == b.updated_at
}

impl Clone for CandidateList {
    fn clone(&self) -> (r: Self)
        ensures
            same_list(r, *self),
    {
        let r = CandidateList {
            id: self.id,
            electoral_districts: self.electoral_districts.clone(),
            candidates: self.candidates.clone(),
            list_submitter_id: self.list_submitter_id,
            substitute_list_submitter_ids: self.substitute_list_submitter_ids.clone(),
            created_at: self.created_at,
            updated_at: self.updated_at,
        };
        assert(r.electoral_districts@ =~= self.electoral_districts@);
        assert(r.candidates@ =~= self.candidates@);
        assert(r.substitute_list_submitter_ids@ =~= self.substitute_list_submitter_ids@);
        r
    }
}

impl Clone for PoliticalGroup {
    fn clone(&self) -> (r: Self)
        ensures
            r == *self,
    {
        PoliticalGroup {
            id: self.id,
            long_list_allowed: self.long_list_allowed,
            legal_name: self.legal_name.clone(),
            display_name: self.display_name.clone(),
            created_at: self.created_at,
            updated_at: self.updated_at,
        }
    }
}

impl Clone for AuthorisedAgent {
    fn clone(&self) -> (r: Self)
        ensures
            r == *self,
    {
        AuthorisedAgent {
            id: self.id,
            last_name: self.last_name.clone(),
            last_name_prefix: self.last_name_prefix.clone(),
            initials: self.initials.clone(),
            created_at: self.created_at,
            updated_at: self.updated_at,
        }
    }
}

impl Clone for ListSubmitter {
    fn clone(&self) -> (r: Self)
        ensures
            r == *self,
    {
        ListSubmitter {
            id: self.id,
            last_name: self.last_name.clone(),
            last_name_prefix: self.last_name_prefix.clone(),
            initials: self.initials.clone(),
            locality: self.locality.clone(),
            postal_code: self.postal_code.clone(),
            house_number: self.house_number.clone(),
            house_number_addition: self.house_number_addition.clone(),
            street_name: self.street_name.clone(),
            created_at: self.created_at,
            updated_at: self.updated_at,
        }
    }
}

} // verus!
