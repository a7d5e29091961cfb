//! The projection of a political group's own stream: its political group,
//! persons, candidate lists, name authorisations and list submitters, as the
//! events left them.

use vstd::prelude::*;

use crate::app_store::{changed_at, contains_id, modify, other_than, remove_all, same_list_except_candidates, without};
use crate::entities::{
    same_list, CandidateList, CandidateListId, DutchAddress, ElectoralDistrict, FullName, Gender, ListSubmitter,
    ListSubmitterId, PersonId, Representative,
};
use crate::event::{EventHash, StoreEvent};
use crate::id_map::{lemma_take_succ_contains, IdMap};
use crate::store::StoreData;
use crate::stream::{Scope, StreamId};

verus! {

pub type NameAuthorisationId = u128;

/// How the political group's list is designated on the ballot.
#[derive(Clone, Copy, PartialEq, Eq, Debug, Structural)]
pub enum ListDesignation {
    Standalone,
    Blank,
}

/// The political group as its own stream records it.
#[derive(Debug, PartialEq, Eq)]
pub struct PoliticalGroup {
    pub appellation: Option<String>,
    pub list_designation: Option<ListDesignation>,
}

/// A candidate's personal details besides name, address and representative.
#[derive(Debug, PartialEq, Eq)]
pub struct PersonalData {
    pub gender: Option<Gender>,
    pub bsn: Option<String>,
    pub date_of_birth: Option<String>,
    pub place_of_residence: Option<String>,
}

/// A person on the political group's stream.
#[derive(Debug, PartialEq, Eq)]
pub struct Person {
    pub id: PersonId,
    pub name: FullName,
    pub personal_data: PersonalData,
    pub address: DutchAddress,
    pub representative: Option<Representative>,
    /// Microseconds since the Unix epoch.
    pub updated_at: i64,
}

/// Consent to the use of a name, kept by id.
#[derive(Debug, PartialEq, Eq)]
pub struct NameAuthorisation {
    pub id: NameAuthorisationId,
    pub name: FullName,
}

impl Clone for PoliticalGroup {
    fn clone(&self) -> (r: Self)
        ensures
            r == *self,
    {
        PoliticalGroup { appellation: self.appellation.clone(), list_designation: self.list_designation }
    }
}

impl Clone for PersonalData {
    fn clone(&self) -> (r: Self)
        ensures
            r == *self,
    {
        PersonalData {
            gender: self.gender,
            bsn: self.bsn.clone(),
            date_of_birth: self.date_of_birth.clone(),
            place_of_residence: self.place_of_residence.clone(),
        }
    }
}

impl Clone for Person {
    fn clone(&self) -> (r: Self)
        ensures
            r == *self,
    {
        Person {
            id: self.id,
            name: self.name.clone(),
            personal_data: self.personal_data.clone(),
            address: self.address.clone(),
            representative: self.representative.clone(),
            updated_at: self.updated_at,
        }
    }
}

impl Clone for NameAuthorisation {
    fn clone(&self) -> (r: Self)
        ensures
            r == *self,
    {
        NameAuthorisation { id: self.id, name: self.name.clone() }
    }
}

/// Domain events on a political group's own stream.
pub enum PgEvent {
    UpdatePoliticalGroup(PoliticalGroup),
    CreatePerson(Person),
    CreatePersonPersonalData { person_id: PersonId, name: FullName, personal_data: PersonalData },
    UpdatePerson(Person),
    UpdatePersonPersonalData { person_id: PersonId, name: FullName, personal_data: PersonalData },
    UpdatePersonAddress { person_id: PersonId, address: DutchAddress },
    UpdatePersonRepresentative { person_id: PersonId, representative: Option<Representative> },
    DeletePerson { person_id: PersonId },
    CreateCandidateList(CandidateList),
    /// The districts, as a set in district order.
    UpdateCandidateListDistricts { list_id: CandidateListId, electoral_districts: Vec<ElectoralDistrict> },
    UpdateCandidateListOrder { list_id: CandidateListId, candidates: Vec<PersonId> },
    AddCandidateToCandidateList { list_id: CandidateListId, person_id: PersonId },
    RemoveCandidateFromCandidateList { list_id: CandidateListId, person_id: PersonId },
    DeleteCandidateList(CandidateListId),
    CreateNameAuthorisation(NameAuthorisation),
    UpdateNameAuthorisation(NameAuthorisation),
    DeleteNameAuthorisation(NameAuthorisationId),
    UpdateListSubmitter(ListSubmitter),
    CreateSubstituteSubmitter(ListSubmitter),
    UpdateSubstituteSubmitter(ListSubmitter),
    DeleteSubstituteSubmitter { substitute_submitter_id: ListSubmitterId },
    DeveloperLogin { stream_id: StreamId },
    /// The user authenticated.
    Login,
    /// The user signed out.
    Logout,
    DownloadFile { file_name: String, download_path: String },
    HideDownloadWarning,
    ExportCsv { file_name: String, file_size: usize, list_id: CandidateListId },
    ImportCandidates {
        list_id: CandidateListId,
        file_name: String,
        file_size: usize,
        created_persons: Vec<Person>,
        updated_persons: Vec<Person>,
        candidates: Vec<PersonId>,
    },
    /// Marks the import that seeds a paper-corrections projection; `hash` is
    /// the imported package's source hash.
    Import { hash: EventHash },
}

/// The projection of one political group's stream.
pub struct PgStoreData {
    state: PgState,
    events: Vec<StoreEvent<PgEvent>>,
}

/// What the projection derives from its events.
pub struct PgState {
    political_group: PoliticalGroup,
    persons: IdMap<Person>,
    candidate_lists: IdMap<CandidateList>,
    name_authorisations: IdMap<NameAuthorisation>,
    list_submitter: ListSubmitter,
    substitute_submitters: Vec<ListSubmitter>,
}

/// A person created from its name and personal data alone.
pub open spec fn bare_person(id: PersonId, name: FullName, personal_data: PersonalData, at: i64) -> Person {
    Person { id, name, personal_data, address: empty_address(), representative: None, updated_at: at }
}

/// An address with nothing filled in.
pub open spec fn empty_address() -> DutchAddress {
    DutchAddress { locality: None, postal_code: None, house_number: None, house_number_addition: None, street_name: None }
}

/// `n` is `cl` created at `at`.
pub open spec fn created_list(cl: CandidateList, n: CandidateList, at: i64) -> bool {
    &&& n.id == cl.id
    &&& n.electoral_districts@ == cl.electoral_districts@
    &&& n.candidates@ == cl.candidates@
    &&& n.list_submitter_id == cl.list_submitter_id
    &&& n.substitute_list_submitter_ids@ == cl.substitute_list_submitter_ids@
    &&& n.created_at == at
    &&& n.updated_at == cl.updated_at
}

/// `n` is `o` with its candidates replaced by `cs`.
pub open spec fn with_candidates(o: CandidateList, n: CandidateList, cs: Seq<PersonId>) -> bool {
    same_list_except_candidates(o, n) && n.updated_at == o.updated_at && n.candidates@ == cs
}

/// `n` is `o` with its districts replaced by `ds`.
pub open spec fn with_districts(o: CandidateList, n: CandidateList, ds: Seq<ElectoralDistrict>) -> bool {
    &&& n.id == o.id
    &&& n.electoral_districts@ == ds
    &&& n.candidates@ == o.candidates@
    &&& n.list_submitter_id == o.list_submitter_id
    &&& n.substitute_list_submitter_ids@ == o.substitute_list_submitter_ids@
    &&& n.created_at == o.created_at
    &&& n.updated_at == o.updated_at
}

/// `n` is `o` with a new entry under `k` that satisfies `p`.
pub open spec fn put_at<V>(o: Map<u128, V>, n: Map<u128, V>, k: u128, p: spec_fn(V) -> bool) -> bool {
    &&& n.dom() == o.dom().insert(k)
    &&& forall|x: u128| #[trigger] n.contains_key(x) && x != k ==> n[x] == o[x]
    &&& p(n[k])
}

/// The first position of `ss` holding submitter `id`.
pub open spec fn first_submitter(ss: Seq<ListSubmitter>, id: ListSubmitterId, k: int) -> bool {
    0 <= k < ss.len() && ss[k].id == id && forall|j: int| 0 <= j < k ==> #[trigger] ss[j].id != id
}

/// `ss` with the first submitter carrying `s`'s id replaced by `s`.
pub open spec fn replace_submitter(ss: Seq<ListSubmitter>, s: ListSubmitter) -> Seq<ListSubmitter> {
    if exists|k: int| first_submitter(ss, s.id, k) {
        ss.update(choose|k: int| first_submitter(ss, s.id, k), s)
    } else {
        ss
    }
}

/// Keeps the submitters other than `id`.
pub open spec fn other_submitter(id: ListSubmitterId) -> spec_fn(ListSubmitter) -> Option<ListSubmitter> {
    |s: ListSubmitter| if s.id != id { Some(s) } else { None }
}

/// Persons `ps` stored one after the other, each stamped `at`.
pub open spec fn insert_all(m: Map<PersonId, Person>, ps: Seq<Person>, at: i64) -> Map<PersonId, Person>
    decreases ps.len(),
{
    if ps.len() == 0 {
        m
    } else {
        insert_all(m, ps.drop_last(), at).insert(ps.last().id, Person { updated_at: at, ..ps.last() })
    }
}

/// Persons `ps` replacing, one after the other, the stored persons with
/// their ids, each stamped `at`; unknown ids are skipped.
pub open spec fn modify_all(m: Map<PersonId, Person>, ps: Seq<Person>, at: i64) -> Map<PersonId, Person>
    decreases ps.len(),
{
    if ps.len() == 0 {
        m
    } else {
        modify(modify_all(m, ps.drop_last(), at), ps.last().id, Person { updated_at: at, ..ps.last() })
    }
}

/// Everything but the persons is as it was.
pub open spec fn keeps_all_but_persons(a: PgState, b: PgState) -> bool {
    &&& b.group() == a.group()
    &&& b.list_map() == a.list_map()
    &&& b.authorisation_map() == a.authorisation_map()
    &&& b.submitter() == a.submitter()
    &&& b.substitutes() == a.substitutes()
}

/// Everything but the candidate lists is as it was.
pub open spec fn keeps_all_but_lists(a: PgState, b: PgState) -> bool {
    &&& b.group() == a.group()
    &&& b.person_map() == a.person_map()
    &&& b.authorisation_map() == a.authorisation_map()
    &&& b.submitter() == a.submitter()
    &&& b.substitutes() == a.substitutes()
}

/// Everything but the persons and the candidate lists is as it was.
pub open spec fn keeps_all_but_persons_and_lists(a: PgState, b: PgState) -> bool {
    &&& b.group() == a.group()
    &&& b.authorisation_map() == a.authorisation_map()
    &&& b.submitter() == a.submitter()
    &&& b.substitutes() == a.substitutes()
}

/// Everything but the name authorisations is as it was.
pub open spec fn keeps_all_but_authorisations(a: PgState, b: PgState) -> bool {
    &&& b.group() == a.group()
    &&& b.person_map() == a.person_map()
    &&& b.list_map() == a.list_map()
    &&& b.submitter() == a.submitter()
    &&& b.substitutes() == a.substitutes()
}

/// Everything but the substitute submitters is as it was.
pub open spec fn keeps_all_but_substitutes(a: PgState, b: PgState) -> bool {
    &&& b.group() == a.group()
    &&& b.person_map() == a.person_map()
    &&& b.list_map() == a.list_map()
    &&& b.authorisation_map() == a.authorisation_map()
    &&& b.submitter() == a.submitter()
}

/// Nothing the projection derives changed.
pub open spec fn keeps_all(a: PgState, b: PgState) -> bool {
    &&& b.group() == a.group()
    &&& b.person_map() == a.person_map()
    &&& b.list_map() == a.list_map()
    &&& b.authorisation_map() == a.authorisation_map()
    &&& b.submitter() == a.submitter()
    &&& b.substitutes() == a.substitutes()
}

/// What applying `e`, created at `at`, does to the projection (the event
/// log aside).
pub open spec fn pg_applied(o: PgState, n: PgState, e: PgEvent, at: i64) -> bool {
    match e {
        PgEvent::UpdatePoliticalGroup(pg) => n.group() == pg && n.person_map() == o.person_map()
            && n.list_map() == o.list_map() && n.authorisation_map() == o.authorisation_map()
            && n.submitter() == o.submitter() && n.substitutes() == o.substitutes(),
        PgEvent::CreatePerson(p) => keeps_all_but_persons(o, n) && n.person_map() == o.person_map().insert(
            p.id,
            Person { updated_at: at, ..p },
        ),
        PgEvent::CreatePersonPersonalData { person_id, name, personal_data } => keeps_all_but_persons(o, n)
            && n.person_map() == o.person_map().insert(person_id, bare_person(person_id, name, personal_data, at)),
        PgEvent::UpdatePerson(p) => keeps_all_but_persons(o, n) && n.person_map() == modify(
            o.person_map(),
            p.id,
            Person { updated_at: at, ..p },
        ),
        PgEvent::UpdatePersonPersonalData { person_id, name, personal_data } => keeps_all_but_persons(o, n)
            && n.person_map() == modify(
            o.person_map(),
            person_id,
            Person { name, personal_data, updated_at: at, ..o.person_map()[person_id] },
        ),
        PgEvent::UpdatePersonAddress { person_id, address } => keeps_all_but_persons(o, n) && n.person_map()
            == modify(o.person_map(), person_id, Person { address, updated_at: at, ..o.person_map()[person_id] }),
        PgEvent::UpdatePersonRepresentative { person_id, representative } => keeps_all_but_persons(o, n)
            && n.person_map() == modify(
            o.person_map(),
            person_id,
            Person { representative, updated_at: at, ..o.person_map()[person_id] },
        ),
        PgEvent::DeletePerson { person_id } => keeps_all_but_persons_and_lists(o, n) && n.person_map()
            == o.person_map().remove(person_id) && n.list_map().dom() == o.list_map().dom()
            && forall|k: u128|
            #[trigger] n.list_map().contains_key(k) ==> with_candidates(
                o.list_map()[k],
                n.list_map()[k],
                without(o.list_map()[k].candidates@, person_id),
            ),
        PgEvent::CreateCandidateList(cl) => keeps_all_but_lists(o, n) && put_at(
            o.list_map(),
            n.list_map(),
            cl.id,
            |l: CandidateList| created_list(cl, l, at),
        ),
        PgEvent::UpdateCandidateListDistricts { list_id, electoral_districts } => keeps_all_but_lists(o, n)
            && changed_at(
            o.list_map(),
            n.list_map(),
            list_id,
            |a: CandidateList, b: CandidateList| with_districts(a, b, electoral_districts@),
        ),
        PgEvent::UpdateCandidateListOrder { list_id, candidates } => keeps_all_but_lists(o, n) && changed_at(
            o.list_map(),
            n.list_map(),
            list_id,
            |a: CandidateList, b: CandidateList| with_candidates(a, b, candidates@),
        ),
        PgEvent::AddCandidateToCandidateList { list_id, person_id } => keeps_all_but_lists(o, n) && changed_at(
            o.list_map(),
            n.list_map(),
            list_id,
            |a: CandidateList, b: CandidateList|
                if a.candidates@.contains(person_id) {
                    b == a
                } else {
                    with_candidates(a, b, a.candidates@.push(person_id))
                },
        ),
        PgEvent::RemoveCandidateFromCandidateList { list_id, person_id } => keeps_all_but_lists(o, n)
            && changed_at(
            o.list_map(),
            n.list_map(),
            list_id,
            |a: CandidateList, b: CandidateList| with_candidates(a, b, without(a.candidates@, person_id)),
        ),
        PgEvent::DeleteCandidateList(id) => keeps_all_but_lists(o, n) && n.list_map()
            == o.list_map().remove(id),
        PgEvent::CreateNameAuthorisation(na) => keeps_all_but_authorisations(o, n) && n.authorisation_map()
            == o.authorisation_map().insert(na.id, na),
        PgEvent::UpdateNameAuthorisation(na) => keeps_all_but_authorisations(o, n) && n.authorisation_map()
            == modify(o.authorisation_map(), na.id, na),
        PgEvent::DeleteNameAuthorisation(id) => keeps_all_but_authorisations(o, n) && n.authorisation_map()
            == o.authorisation_map().remove(id),
        PgEvent::UpdateListSubmitter(ls) => n.submitter() == ls && n.group() == o.group()
            && n.person_map() == o.person_map() && n.list_map() == o.list_map()
            && n.authorisation_map() == o.authorisation_map()
            && n.substitutes() == o.substitutes(),
        PgEvent::CreateSubstituteSubmitter(ss) => keeps_all_but_substitutes(o, n) && n.substitutes()
            == o.substitutes().push(ss),
        PgEvent::UpdateSubstituteSubmitter(ss) => keeps_all_but_substitutes(o, n) && n.substitutes()
            == replace_submitter(o.substitutes(), ss),
        PgEvent::DeleteSubstituteSubmitter { substitute_submitter_id } => keeps_all_but_substitutes(o, n)
            && n.substitutes() == o.substitutes().filter_map(
            other_submitter(substitute_submitter_id),
        ),
        PgEvent::ImportCandidates { list_id, created_persons, updated_persons, candidates, .. } =>
            keeps_all_but_persons_and_lists(o, n) && n.person_map() == modify_all(
            insert_all(o.person_map(), created_persons@, at),
            updated_persons@,
            at,
        ) && changed_at(
            o.list_map(),
            n.list_map(),
            list_id,
            |a: CandidateList, b: CandidateList| with_candidates(a, b, candidates@),
        ),
        _ => keeps_all(o, n),
    }
}


impl PgStoreData {
    #[verifier::type_invariant]
    spec fn inv(self) -> bool {
        self.state.wf()
    }

    /// What the projection derives from its events.
    pub closed spec fn state(&self) -> PgState {
        self.state
    }

    /// The political group.
    pub open spec fn group(&self) -> PoliticalGroup {
        self.state().group()
    }

    /// The persons, by id.
    pub open spec fn person_map(&self) -> Map<PersonId, Person> {
        self.state().person_map()
    }

    /// The candidate lists, by id.
    pub open spec fn list_map(&self) -> Map<CandidateListId, CandidateList> {
        self.state().list_map()
    }

    /// The name authorisations, by id.
    pub open spec fn authorisation_map(&self) -> Map<NameAuthorisationId, NameAuthorisation> {
        self.state().authorisation_map()
    }

    /// The list submitter.
    pub open spec fn submitter(&self) -> ListSubmitter {
        self.state().submitter()
    }

    /// The substitute submitters, in the order they were added.
    pub open spec fn substitutes(&self) -> Seq<ListSubmitter> {
        self.state().substitutes()
    }

    /// A projection before any event: no political group data, persons,
    /// lists or authorisations, and a blank list submitter.
    pub fn new() -> (d: Self)
        ensures
            d.log() == Seq::<StoreEvent<PgEvent>>::empty(),
            d.group() == (PoliticalGroup { appellation: None, list_designation: None }),
            d.person_map() == Map::<PersonId, Person>::empty(),
            d.list_map() == Map::<CandidateListId, CandidateList>::empty(),
            d.authorisation_map() == Map::<NameAuthorisationId, NameAuthorisation>::empty(),
            blank_submitter(d.submitter()),
            d.substitutes() == Seq::<ListSubmitter>::empty(),
    {
        PgStoreData { state: PgState::empty(), events: Vec::new() }
    }

    /// The political group.
    pub fn political_group(&self) -> (r: &PoliticalGroup)
        ensures
            *r == self.group(),
    {
        &self.state.political_group
    }

    /// The persons' ids, in the order they were created.
    pub closed spec fn person_ids(&self) -> Seq<PersonId> {
        self.state.persons.keys()
    }

    /// The candidate lists, in the order they were created.
    pub closed spec fn list_values(&self) -> Seq<CandidateList> {
        self.state.candidate_lists.values()
    }

    /// The name authorisations, in the order they were created.
    pub closed spec fn authorisation_values(&self) -> Seq<NameAuthorisation> {
        self.state.name_authorisations.values()
    }

    /// The persons.
    pub fn persons(&self) -> (r: &IdMap<Person>)
        ensures
            r.wf(),
            r.map() == self.person_map(),
            r.keys() == self.person_ids(),
    {
        proof {
            use_type_invariant(self);
        }
        &self.state.persons
    }

    /// The candidate lists.
    pub fn candidate_lists(&self) -> (r: &IdMap<CandidateList>)
        ensures
            r.wf(),
            r.map() == self.list_map(),
            r.values() == self.list_values(),
    {
        proof {
            use_type_invariant(self);
        }
        &self.state.candidate_lists
    }

    /// The name authorisations.
    pub fn name_authorisations(&self) -> (r: &IdMap<NameAuthorisation>)
        ensures
            r.wf(),
            r.map() == self.authorisation_map(),
            r.values() == self.authorisation_values(),
    {
        proof {
            use_type_invariant(self);
        }
        &self.state.name_authorisations
    }

    /// The list submitter.
    pub fn list_submitter(&self) -> (r: &ListSubmitter)
        ensures
            *r == self.submitter(),
    {
        &self.state.list_submitter
    }

    /// The substitute submitters, in the order they were added.
    pub fn substitute_submitters(&self) -> (r: &Vec<ListSubmitter>)
        ensures
            r@ == self.substitutes(),
    {
        &self.state.substitute_submitters
    }

}

impl PgState {
    /// The collections are well formed.
    pub closed spec fn wf(&self) -> bool {
        &&& self.persons.wf()
        &&& self.candidate_lists.wf()
        &&& self.name_authorisations.wf()
    }

    /// The political group.
    pub closed spec fn group(&self) -> PoliticalGroup {
        self.political_group
    }

    /// The persons, by id.
    pub closed spec fn person_map(&self) -> Map<PersonId, Person> {
        self.persons.map()
    }

    /// The candidate lists, by id.
    pub closed spec fn list_map(&self) -> Map<CandidateListId, CandidateList> {
        self.candidate_lists.map()
    }

    /// The name authorisations, by id.
    pub closed spec fn authorisation_map(&self) -> Map<NameAuthorisationId, NameAuthorisation> {
        self.name_authorisations.map()
    }

    /// The list submitter.
    pub closed spec fn submitter(&self) -> ListSubmitter {
        self.list_submitter
    }

    /// The substitute submitters, in the order they were added.
    pub closed spec fn substitutes(&self) -> Seq<ListSubmitter> {
        self.substitute_submitters@
    }

    /// The state before any event.
    fn empty() -> (d: Self)
        ensures
            d.wf(),
            d.group() == (PoliticalGroup { appellation: None, list_designation: None }),
            d.person_map() == Map::<PersonId, Person>::empty(),
            d.list_map() == Map::<CandidateListId, CandidateList>::empty(),
            d.authorisation_map() == Map::<NameAuthorisationId, NameAuthorisation>::empty(),
            blank_submitter(d.submitter()),
            d.substitutes() == Seq::<ListSubmitter>::empty(),
    {
        PgState {
            political_group: PoliticalGroup { appellation: None, list_designation: None },
            persons: IdMap::new(),
            candidate_lists: IdMap::new(),
            name_authorisations: IdMap::new(),
            list_submitter: ListSubmitter {
                id: 0,
                last_name: String::new(),
                last_name_prefix: None,
                initials: String::new(),
                locality: String::new(),
                postal_code: String::new(),
                house_number: String::new(),
                house_number_addition: None,
                street_name: String::new(),
                created_at: 0,
                updated_at: 0,
            },
            substitute_submitters: Vec::new(),
        }
    }

    /// Apply an event's payload, created at `at`. Routes each kind of event
    /// to the part of the projection it touches.
    fn apply_payload(&mut self, e: &PgEvent, at: i64)
        requires
            old(self).wf(),
        ensures
            final(self).wf(),
            pg_applied(*old(self), *final(self), *e, at),
                {
        match e {
            PgEvent::UpdatePoliticalGroup(pg) => {
                self.political_group = pg.clone();
            },
            PgEvent::CreatePerson(_)
            | PgEvent::CreatePersonPersonalData { .. }
            | PgEvent::UpdatePerson(_)
            | PgEvent::UpdatePersonPersonalData { .. }
            | PgEvent::UpdatePersonAddress { .. }
            | PgEvent::UpdatePersonRepresentative { .. }
            | PgEvent::DeletePerson { .. } => self.apply_person_event(e, at),
            PgEvent::CreateCandidateList(_)
            | PgEvent::UpdateCandidateListDistricts { .. }
            | PgEvent::UpdateCandidateListOrder { .. }
            | PgEvent::AddCandidateToCandidateList { .. }
            | PgEvent::RemoveCandidateFromCandidateList { .. }
            | PgEvent::DeleteCandidateList(_) => self.apply_candidate_list_event(e, at),
            PgEvent::CreateNameAuthorisation(_)
            | PgEvent::UpdateNameAuthorisation(_)
            | PgEvent::DeleteNameAuthorisation(_) => self.apply_name_authorisation_event(e),
            PgEvent::UpdateListSubmitter(_)
            | PgEvent::CreateSubstituteSubmitter(_)
            | PgEvent::UpdateSubstituteSubmitter(_)
            | PgEvent::DeleteSubstituteSubmitter { .. } => self.apply_submitter_event(e),
            PgEvent::ImportCandidates { list_id, created_persons, updated_persons, candidates, .. } => {
                self.apply_import_candidates_event(*list_id, created_persons, updated_persons, candidates, at)
            },
            PgEvent::DeveloperLogin { .. }
            | PgEvent::Login
            | PgEvent::Logout
            | PgEvent::DownloadFile { .. }
            | PgEvent::HideDownloadWarning
            | PgEvent::ExportCsv { .. }
            | PgEvent::Import { .. } => {},
        }
    }

    /// Apply a person event.
    fn apply_person_event(&mut self, e: &PgEvent, at: i64)
        requires
            old(self).wf(),
            e is CreatePerson || e is CreatePersonPersonalData || e is UpdatePerson || e is UpdatePersonPersonalData
                || e is UpdatePersonAddress || e is UpdatePersonRepresentative || e is DeletePerson,
        ensures
            final(self).wf(),
            pg_applied(*old(self), *final(self), *e, at),
                {
        match e {
            PgEvent::CreatePerson(p) => {
                let mut q = p.clone();
                q.updated_at = at;
                self.persons.insert(q.id, q);
            },
            PgEvent::CreatePersonPersonalData { person_id, name, personal_data } => {
                let q = Person {
                    id: *person_id,
                    name: name.clone(),
                    personal_data: personal_data.clone(),
                    address: DutchAddress {
                        locality: None,
                        postal_code: None,
                        house_number: None,
                        house_number_addition: None,
                        street_name: None,
                    },
                    representative: None,
                    updated_at: at,
                };
                self.persons.insert(*person_id, q);
            },
            PgEvent::UpdatePerson(p) => {
                if self.persons.contains_key(p.id) {
                    let mut q = p.clone();
                    q.updated_at = at;
                    self.persons.insert(q.id, q);
                } else {
                    assert(self.persons.map() =~= modify(old(self).persons.map(), p.id, Person { updated_at: at, ..*p }));
                }
            },
            PgEvent::UpdatePersonPersonalData { person_id, name, personal_data } => {
                match self.persons.remove(*person_id) {
                    Some(existing) => {
                        self.persons.insert(
                            *person_id,
                            Person { name: name.clone(), personal_data: personal_data.clone(), updated_at: at, ..existing },
                        );
                        assert(self.persons.map() =~= old(self).persons.map().insert(*person_id, self.persons.map()[*person_id]));
                    },
                    None => {
                        assert(self.persons.map() =~= old(self).persons.map());
                    },
                }
            },
            PgEvent::UpdatePersonAddress { person_id, address } => {
                match self.persons.remove(*person_id) {
                    Some(existing) => {
                        self.persons.insert(*person_id, Person { address: address.clone(), updated_at: at, ..existing });
                        assert(self.persons.map() =~= old(self).persons.map().insert(*person_id, self.persons.map()[*person_id]));
                    },
                    None => {
                        assert(self.persons.map() =~= old(self).persons.map());
                    },
                }
            },
            PgEvent::UpdatePersonRepresentative { person_id, representative } => {
                match self.persons.remove(*person_id) {
                    Some(existing) => {
                        self.persons.insert(
                            *person_id,
                            Person { representative: representative.clone(), updated_at: at, ..existing },
                        );
                        assert(self.persons.map() =~= old(self).persons.map().insert(*person_id, self.persons.map()[*person_id]));
                    },
                    None => {
                        assert(self.persons.map() =~= old(self).persons.map());
                    },
                }
            },
            PgEvent::DeletePerson { person_id } => {
                strip_candidate(&mut self.candidate_lists, *person_id);
                self.persons.remove(*person_id);
            },
            _ => {},
        }
    }
}

/// Remove `person_id` from the candidates of every list.
fn strip_candidate(lists: &mut IdMap<CandidateList>, person_id: PersonId)
    requires
        old(lists).wf(),
    ensures
        final(lists).wf(),
        final(lists).map().dom() == old(lists).map().dom(),
        forall|k: u128|
            #[trigger] final(lists).map().contains_key(k) ==> with_candidates(
                old(lists).map()[k],
                final(lists).map()[k],
                without(old(lists).map()[k].candidates@, person_id),
            ),
{
    let n = lists.len();
    let mut i: usize = 0;
    proof {
        old(lists).lemma_wf();
    }
    while i < n
        invariant
            i <= n,
            n == lists.keys().len(),
            lists.wf(),
            lists.keys() == old(lists).keys(),
            old(lists).keys().len() == old(lists).values().len(),
            lists.values().len() == old(lists).values().len(),
            forall|j: int| i <= j < n ==> #[trigger] lists.values()[j] == old(lists).values()[j],
            forall|j: int|
                0 <= j < i ==> with_candidates(
                    old(lists).values()[j],
                    #[trigger] lists.values()[j],
                    without(old(lists).values()[j].candidates@, person_id),
                ),
        decreases n - i,
    {
        let ghost before = *lists;
        let list = lists.value_mut_at(i);
        remove_all(&mut list.candidates, person_id);
        proof {
            IdMap::lemma_update_at(&before, lists, i as int);
        }
        i = i + 1;
    }
    proof {
        lists.lemma_wf();
        old(lists).lemma_wf();
        assert(lists.map().dom() =~= old(lists).map().dom());
        assert forall|k: u128| #[trigger] lists.map().contains_key(k) implies with_candidates(
            old(lists).map()[k],
            lists.map()[k],
            without(old(lists).map()[k].candidates@, person_id),
        ) by {
            let j = lists.keys().index_of(k);
            assert(lists.keys()[j] == k);
        }
    }
}


/// A copy of `v`.
fn copy_ids(v: &Vec<u128>) -> (r: Vec<u128>)
    ensures
        r@ == v@,
{
    let mut r: Vec<u128> = Vec::new();
    let mut i: usize = 0;
    while i < v.len()
        invariant
            i <= v@.len(),
            r@ == v@.take(i as int),
        decreases v@.len() - i,
    {
        r.push(v[i]);
        assert(r@ =~= v@.take(i + 1));
        i = i + 1;
    }
    assert(v@.take(v@.len() as int) =~= v@);
    r
}

/// A copy of `v`.
fn copy_districts(v: &Vec<ElectoralDistrict>) -> (r: Vec<ElectoralDistrict>)
    ensures
        r@ == v@,
{
    let mut r: Vec<ElectoralDistrict> = Vec::new();
    let mut i: usize = 0;
    while i < v.len()
        invariant
            i <= v@.len(),
            r@ == v@.take(i as int),
        decreases v@.len() - i,
    {
        r.push(v[i]);
        assert(r@ =~= v@.take(i + 1));
        i = i + 1;
    }
    assert(v@.take(v@.len() as int) =~= v@);
    r
}

/// The first position of submitter `id` in `ss`.
fn position_of_submitter(ss: &Vec<ListSubmitter>, id: ListSubmitterId) -> (r: Option<usize>)
    ensures
        match r {
            Some(i) => first_submitter(ss@, id, i as int) && (choose|k: int| first_submitter(ss@, id, k)) == i,
            None => !(exists|k: int| first_submitter(ss@, id, k)),
        },
{
    let mut i: usize = 0;
    while i < ss.len()
        invariant
            i <= ss@.len(),
            forall|j: int| 0 <= j < i ==> #[trigger] ss@[j].id != id,
        decreases ss@.len() - i,
    {
        if ss[i].id == id {
            proof {
                assert(first_submitter(ss@, id, i as int));
                let k = choose|k: int| first_submitter(ss@, id, k);
                if k < i {
                    assert(ss@[k].id != id);
                }
                if k > i {
                    assert(ss@[i as int].id != id);
                }
            }
            return Some(i);
        }
        i = i + 1;
    }
    None
}

impl PgState {
    /// Apply a candidate-list event.
    fn apply_candidate_list_event(&mut self, e: &PgEvent, at: i64)
        requires
            old(self).wf(),
            e is CreateCandidateList || e is UpdateCandidateListDistricts || e is UpdateCandidateListOrder
                || e is AddCandidateToCandidateList || e is RemoveCandidateFromCandidateList || e is DeleteCandidateList,
        ensures
            final(self).wf(),
            pg_applied(*old(self), *final(self), *e, at),
                {
        match e {
            PgEvent::CreateCandidateList(cl) => {
                let mut c = cl.clone();
                c.created_at = at;
                let ghost v = c;
                self.candidate_lists.insert(c.id, c);
                assert(self.candidate_lists.map().dom() =~= old(self).candidate_lists.map().dom().insert(cl.id));
                assert(created_list(*cl, self.candidate_lists.map()[cl.id], at));
            },
            PgEvent::UpdateCandidateListDistricts { list_id, electoral_districts } => {
                match self.candidate_lists.remove(*list_id) {
                    Some(existing) => {
                        let ds = copy_districts(electoral_districts);
                        self.candidate_lists.insert(*list_id, CandidateList { electoral_districts: ds, ..existing });
                        assert(self.candidate_lists.map() =~= old(self).candidate_lists.map().insert(
                            *list_id,
                            self.candidate_lists.map()[*list_id],
                        ));
                    },
                    None => {
                        assert(self.candidate_lists.map() =~= old(self).candidate_lists.map());
                    },
                }
            },
            PgEvent::UpdateCandidateListOrder { list_id, candidates } => {
                match self.candidate_lists.remove(*list_id) {
                    Some(existing) => {
                        let cs = copy_ids(candidates);
                        self.candidate_lists.insert(*list_id, CandidateList { candidates: cs, ..existing });
                        assert(self.candidate_lists.map() =~= old(self).candidate_lists.map().insert(
                            *list_id,
                            self.candidate_lists.map()[*list_id],
                        ));
                    },
                    None => {
                        assert(self.candidate_lists.map() =~= old(self).candidate_lists.map());
                    },
                }
            },
            PgEvent::AddCandidateToCandidateList { list_id, person_id } => {
                match self.candidate_lists.remove(*list_id) {
                    Some(existing) => {
                        let mut list = existing;
                        if !contains_id(&list.candidates, *person_id) {
                            list.candidates.push(*person_id);
                        }
                        self.candidate_lists.insert(*list_id, list);
                        assert(self.candidate_lists.map() =~= old(self).candidate_lists.map().insert(
                            *list_id,
                            self.candidate_lists.map()[*list_id],
                        ));
                    },
                    None => {
                        assert(self.candidate_lists.map() =~= old(self).candidate_lists.map());
                    },
                }
            },
            PgEvent::RemoveCandidateFromCandidateList { list_id, person_id } => {
                match self.candidate_lists.remove(*list_id) {
                    Some(existing) => {
                        let mut list = existing;
                        remove_all(&mut list.candidates, *person_id);
                        self.candidate_lists.insert(*list_id, list);
                        assert(self.candidate_lists.map() =~= old(self).candidate_lists.map().insert(
                            *list_id,
                            self.candidate_lists.map()[*list_id],
                        ));
                    },
                    None => {
                        assert(self.candidate_lists.map() =~= old(self).candidate_lists.map());
                    },
                }
            },
            PgEvent::DeleteCandidateList(id) => {
                self.candidate_lists.remove(*id);
            },
            _ => {},
        }
    }

    /// Apply a name-authorisation event.
    fn apply_name_authorisation_event(&mut self, e: &PgEvent)
        requires
            old(self).wf(),
            e is CreateNameAuthorisation || e is UpdateNameAuthorisation || e is DeleteNameAuthorisation,
        ensures
            final(self).wf(),
            forall|at: i64| pg_applied(*old(self), *final(self), *e, at),
                {
        match e {
            PgEvent::CreateNameAuthorisation(na) => {
                self.name_authorisations.insert(na.id, na.clone());
            },
            PgEvent::UpdateNameAuthorisation(na) => {
                if self.name_authorisations.contains_key(na.id) {
                    self.name_authorisations.insert(na.id, na.clone());
                } else {
                    assert(self.name_authorisations.map() =~= modify(old(self).name_authorisations.map(), na.id, *na));
                }
            },
            PgEvent::DeleteNameAuthorisation(id) => {
                self.name_authorisations.remove(*id);
            },
            _ => {},
        }
    }

    /// Apply a list-submitter event.
    fn apply_submitter_event(&mut self, e: &PgEvent)
        requires
            old(self).wf(),
            e is UpdateListSubmitter || e is CreateSubstituteSubmitter || e is UpdateSubstituteSubmitter
                || e is DeleteSubstituteSubmitter,
        ensures
            final(self).wf(),
            forall|at: i64| pg_applied(*old(self), *final(self), *e, at),
                {
        match e {
            PgEvent::UpdateListSubmitter(ls) => {
                self.list_submitter = ls.clone();
            },
            PgEvent::CreateSubstituteSubmitter(ss) => {
                self.substitute_submitters.push(ss.clone());
            },
            PgEvent::UpdateSubstituteSubmitter(ss) => {
                match position_of_submitter(&self.substitute_submitters, ss.id) {
                    Some(i) => {
                        let ghost before = self.substitute_submitters@;
                        self.substitute_submitters.set(i, ss.clone());
                        assert(self.substitute_submitters@ =~= replace_submitter(before, *ss));
                    },
                    None => {},
                }
            },
            PgEvent::DeleteSubstituteSubmitter { substitute_submitter_id } => {
                let id = *substitute_submitter_id;
                let ghost before = self.substitute_submitters@;
                let mut kept: Vec<ListSubmitter> = Vec::new();
                let mut i: usize = 0;
                while i < self.substitute_submitters.len()
                    invariant
                        i <= before.len(),
                        self.substitute_submitters@ == before,
                        before == old(self).substitute_submitters@,
                        self.political_group == old(self).political_group,
                        self.persons == old(self).persons,
                        self.candidate_lists == old(self).candidate_lists,
                        self.name_authorisations == old(self).name_authorisations,
                        self.list_submitter == old(self).list_submitter,
                                old(self).wf(),
                        kept@ == before.take(i as int).filter_map(other_submitter(id)),
                    decreases before.len() - i,
                {
                    proof {
                        before.lemma_filter_map_take_succ(other_submitter(id), i as int);
                    }
                    if self.substitute_submitters[i].id != id {
                        kept.push(self.substitute_submitters[i].clone());
                    }
                    i = i + 1;
                }
                assert(before.take(before.len() as int) =~= before);
                self.substitute_submitters = kept;
            },
            _ => {},
        }
    }

    /// Apply an import of candidates: the created persons are stored, the
    /// updated ones replace their stored versions, and the list gets the
    /// imported candidates.
    fn apply_import_candidates_event(
        &mut self,
        list_id: CandidateListId,
        created_persons: &Vec<Person>,
        updated_persons: &Vec<Person>,
        candidates: &Vec<PersonId>,
        at: i64,
    )
        requires
            old(self).wf(),
        ensures
            final(self).wf(),
            keeps_all_but_persons_and_lists(*old(self), *final(self)),
            final(self).persons.map() == modify_all(
                insert_all(old(self).persons.map(), created_persons@, at),
                updated_persons@,
                at,
            ),
            changed_at(
                old(self).candidate_lists.map(),
                final(self).candidate_lists.map(),
                list_id,
                |a: CandidateList, b: CandidateList| with_candidates(a, b, candidates@),
            ),
                {
        let mut i: usize = 0;
        while i < created_persons.len()
            invariant
                i <= created_persons@.len(),
                self.persons.wf(),
                self.persons.map() == insert_all(old(self).persons.map(), created_persons@.take(i as int), at),
                self.political_group == old(self).political_group,
                self.candidate_lists == old(self).candidate_lists,
                self.name_authorisations == old(self).name_authorisations,
                self.list_submitter == old(self).list_submitter,
                self.substitute_submitters == old(self).substitute_submitters,
            decreases created_persons@.len() - i,
        {
            let mut p = created_persons[i].clone();
            p.updated_at = at;
            self.persons.insert(p.id, p);
            assert(created_persons@.take(i + 1).drop_last() =~= created_persons@.take(i as int));
            i = i + 1;
        }
        assert(created_persons@.take(created_persons@.len() as int) =~= created_persons@);
        let ghost created = self.persons.map();
        let mut j: usize = 0;
        while j < updated_persons.len()
            invariant
                j <= updated_persons@.len(),
                self.persons.wf(),
                self.persons.map() == modify_all(created, updated_persons@.take(j as int), at),
                self.political_group == old(self).political_group,
                self.candidate_lists == old(self).candidate_lists,
                self.name_authorisations == old(self).name_authorisations,
                self.list_submitter == old(self).list_submitter,
                self.substitute_submitters == old(self).substitute_submitters,
            decreases updated_persons@.len() - j,
        {
            let p = &updated_persons[j];
            assert(updated_persons@.take(j + 1).drop_last() =~= updated_persons@.take(j as int));
            if self.persons.contains_key(p.id) {
                let mut q = p.clone();
                q.updated_at = at;
                self.persons.insert(q.id, q);
            } else {
                assert(self.persons.map() =~= modify(self.persons.map(), p.id, Person { updated_at: at, ..*p }));
            }
            j = j + 1;
        }
        assert(updated_persons@.take(updated_persons@.len() as int) =~= updated_persons@);
        match self.candidate_lists.remove(list_id) {
            Some(existing) => {
                let cs = copy_ids(candidates);
                self.candidate_lists.insert(list_id, CandidateList { candidates: cs, ..existing });
                assert(self.candidate_lists.map() =~= old(self).candidate_lists.map().insert(
                    list_id,
                    self.candidate_lists.map()[list_id],
                ));
            },
            None => {
                assert(self.candidate_lists.map() =~= old(self).candidate_lists.map());
            },
        }
    }
}


/// A list submitter with nothing filled in.
pub open spec fn blank_submitter(s: ListSubmitter) -> bool {
    &&& s.id == 0
    &&& s.last_name@ == Seq::<char>::empty()
    &&& s.last_name_prefix is None
    &&& s.initials@ == Seq::<char>::empty()
    &&& s.locality@ == Seq::<char>::empty()
    &&& s.postal_code@ == Seq::<char>::empty()
    &&& s.house_number@ == Seq::<char>::empty()
    &&& s.house_number_addition is None
    &&& s.street_name@ == Seq::<char>::empty()
    &&& s.created_at == 0
    &&& s.updated_at == 0
}

/// The state of a projection before any event.
pub open spec fn is_initial(s: PgState) -> bool {
    &&& s.group() == (PoliticalGroup { appellation: None, list_designation: None })
    &&& s.person_map() == Map::<PersonId, Person>::empty()
    &&& s.list_map() == Map::<CandidateListId, CandidateList>::empty()
    &&& s.authorisation_map() == Map::<NameAuthorisationId, NameAuthorisation>::empty()
    &&& blank_submitter(s.submitter())
    &&& s.substitutes() == Seq::<ListSubmitter>::empty()
}

/// Whether `states` are the projections along the events `es`, in order:
/// each next state is what applying the event gives.
pub open spec fn replay_chain(states: Seq<PgState>, es: Seq<StoreEvent<PgEvent>>) -> bool {
    &&& states.len() == es.len() + 1
    &&& forall|i: int| 0 <= i < es.len() ==> pg_applied(#[trigger] states[i], states[i + 1], es[i].payload, es[i].created_at)
}

/// Whether `end` is what applying the events `es`, in order, to `start`
/// gives.
pub open spec fn replays(start: PgState, es: Seq<StoreEvent<PgEvent>>, end: PgState) -> bool {
    exists|states: Seq<PgState>| #[trigger] replay_chain(states, es) && states[0] == start && states.last() == end
}

/// Keeps the events up to and including `target`.
pub open spec fn up_to(target: usize) -> spec_fn(StoreEvent<PgEvent>) -> Option<StoreEvent<PgEvent>> {
    |e: StoreEvent<PgEvent>| if e.event_id <= target { Some(e) } else { None }
}

impl PgStoreData {
    /// A point-in-time snapshot: the projection of the events up to and
    /// including `target_event_id`, replayed in order from an empty
    /// projection. Later events are ignored, and the snapshot keeps no event
    /// log of its own: only the derived state.
    pub fn snapshot_until(events: &Vec<StoreEvent<PgEvent>>, target_event_id: usize) -> (r: PgStoreData)
        ensures
            r.log() == Seq::<StoreEvent<PgEvent>>::empty(),
            exists|s0: PgState| is_initial(s0) && #[trigger] replays(s0, events@.filter_map(up_to(target_event_id)), r.state()),
    {
        let mut state = PgState::empty();
        let ghost s0 = state;
        let ghost mut states: Seq<PgState> = seq![state];
        let mut i: usize = 0;
        assert(events@.take(0).filter_map(up_to(target_event_id)) =~= Seq::<StoreEvent<PgEvent>>::empty());
        while i < events.len()
            invariant
                i <= events@.len(),
                state.wf(),
                is_initial(s0),
                replay_chain(states, events@.take(i as int).filter_map(up_to(target_event_id))),
                states[0] == s0,
                states.last() == state,
            decreases events@.len() - i,
        {
            let ghost kept = events@.take(i as int).filter_map(up_to(target_event_id));
            proof {
                events@.lemma_filter_map_take_succ(up_to(target_event_id), i as int);
            }
            let event = &events[i];
            if event.event_id <= target_event_id {
                let ghost before = states;
                state.apply_payload(&event.payload, event.created_at);
                proof {
                    states = before.push(state);
                    let next = events@.take(i + 1).filter_map(up_to(target_event_id));
                    assert(next =~= kept.push(events@[i as int]));
                    assert forall|j: int| 0 <= j < next.len() implies pg_applied(
                        #[trigger] states[j],
                        states[j + 1],
                        next[j].payload,
                        next[j].created_at,
                    ) by {
                        if j < kept.len() {
                            assert(before[j] == states[j]);
                            assert(before[j + 1] == states[j + 1]);
                            assert(pg_applied(before[j], before[j + 1], kept[j].payload, kept[j].created_at));
                        }
                    }
                }
            } else {
                assert(events@.take(i + 1).filter_map(up_to(target_event_id)) =~= kept);
            }
            i = i + 1;
        }
        assert(events@.take(events@.len() as int) =~= events@);
        assert(replay_chain(states, events@.filter_map(up_to(target_event_id))));
        assert(replays(s0, events@.filter_map(up_to(target_event_id)), state));
        let r = PgStoreData { state, events: Vec::new() };
        assert(r.state() == state);
        r
    }
}


/// Without `x`, a sequence that does not hold `x` is unchanged.
proof fn lemma_without_absent(s: Seq<PersonId>, x: PersonId)
    requires
        !s.contains(x),
    ensures
        without(s, x) == s,
    decreases s.len(),
{
    if s.len() > 0 {
        assert(!s.drop_last().contains(x)) by {
            if s.drop_last().contains(x) {
                let k = choose|k: int| 0 <= k < s.drop_last().len() && s.drop_last()[k] == x;
                assert(s[k] == x);
            }
        }
        lemma_without_absent(s.drop_last(), x);
        assert(s.last() != x) by {
            assert(s[s.len() - 1] == s.last());
        }
        assert(s.drop_last().push(s.last()) =~= s);
    }
}

/// Updating a stored person's name and personal data replaces both with
/// the event's: the person then has exactly the name and personal data the
/// event carries, keeps their id, address and representative, and was last
/// changed at the event's time. Every other person stays as they were; an
/// update of a person nobody stored changes no one.
pub proof fn lemma_update_personal_data_replaces_it(
    o: PgState,
    n: PgState,
    person_id: PersonId,
    name: FullName,
    personal_data: PersonalData,
    at: i64,
)
    requires
        pg_applied(o, n, PgEvent::UpdatePersonPersonalData { person_id, name, personal_data }, at),
    ensures
        n.person_map().dom() == o.person_map().dom(),
        forall|q: PersonId| q != person_id && #[trigger] o.person_map().contains_key(q) ==> n.person_map()[q] == o.person_map()[q],
        o.person_map().contains_key(person_id) ==> {
            let before = o.person_map()[person_id];
            let after = n.person_map()[person_id];
            &&& after.name == name
            &&& after.personal_data == personal_data
            &&& after.id == before.id
            &&& after.address == before.address
            &&& after.representative == before.representative
            &&& after.updated_at == at
        },
        !o.person_map().contains_key(person_id) ==> n.person_map() == o.person_map(),
{
}

/// Deleting a candidate list removes it, and only it: no list with that id
/// is left, and every other list stays as it was.
pub proof fn lemma_delete_candidate_list_removes_it(o: PgState, n: PgState, id: CandidateListId, at: i64)
    requires
        pg_applied(o, n, PgEvent::DeleteCandidateList(id), at),
    ensures
        !n.list_map().contains_key(id),
        forall|k: CandidateListId| k != id ==> (#[trigger] n.list_map().contains_key(k) <==> o.list_map().contains_key(k)),
        forall|k: CandidateListId| k != id && #[trigger] o.list_map().contains_key(k) ==> n.list_map()[k] == o.list_map()[k],
        n.person_map() == o.person_map(),
{
}

/// What a political-group event leaves behind, read back from the
/// resulting projection: a created person or list is held under its id with
/// the data given, a deleted one is gone, and an update of a held person or
/// list carries the fields the event gives.
pub proof fn lemma_pg_events_read_back(o: PgState, n: PgState, e: PgEvent, at: i64)
    requires
        pg_applied(o, n, e, at),
    ensures
        e matches PgEvent::CreatePerson(p) ==> n.person_map().contains_key(p.id) && {
            let q = n.person_map()[p.id];
            &&& q.name == p.name
            &&& q.personal_data == p.personal_data
            &&& q.address == p.address
            &&& q.representative == p.representative
            &&& q.updated_at == at
        },
        e matches PgEvent::CreatePersonPersonalData { person_id, name, personal_data } ==> n.person_map().contains_key(
            person_id,
        ) && n.person_map()[person_id].name == name && n.person_map()[person_id].personal_data == personal_data,
        e matches PgEvent::UpdatePerson(p) ==> (o.person_map().contains_key(p.id) ==> {
            let q = n.person_map()[p.id];
            &&& q.name == p.name
            &&& q.personal_data == p.personal_data
            &&& q.address == p.address
            &&& q.representative == p.representative
        }),
        e matches PgEvent::UpdatePersonAddress { person_id, address } ==> (o.person_map().contains_key(person_id) ==> {
            let q = n.person_map()[person_id];
            &&& q.address == address
            &&& q.name == o.person_map()[person_id].name
            &&& q.personal_data == o.person_map()[person_id].personal_data
        }),
        e matches PgEvent::UpdatePersonRepresentative { person_id, representative } ==> (o.person_map().contains_key(
            person_id,
        ) ==> {
            let q = n.person_map()[person_id];
            &&& q.representative == representative
            &&& q.name == o.person_map()[person_id].name
            &&& q.personal_data == o.person_map()[person_id].personal_data
        }),
        e matches PgEvent::DeletePerson { person_id } ==> !n.person_map().contains_key(person_id),
        e matches PgEvent::CreateCandidateList(cl) ==> n.list_map().contains_key(cl.id) && n.list_map()[cl.id].candidates@
            == cl.candidates@ && n.list_map()[cl.id].electoral_districts@ == cl.electoral_districts@,
        e matches PgEvent::DeleteCandidateList(id) ==> !n.list_map().contains_key(id),
        e matches PgEvent::UpdateCandidateListOrder { list_id, candidates } ==> (o.list_map().contains_key(list_id)
            ==> n.list_map()[list_id].candidates@ == candidates@),
        e matches PgEvent::CreateNameAuthorisation(na) ==> n.authorisation_map().contains_key(na.id)
            && n.authorisation_map()[na.id] == na,
        e matches PgEvent::DeleteNameAuthorisation(id) ==> !n.authorisation_map().contains_key(id),
        e matches PgEvent::UpdatePoliticalGroup(pg) ==> n.group() == pg,
{
}

/// Deleting a person takes them off every candidate list and leaves the
/// lists they were not on as they were.
pub proof fn lemma_delete_person_clears_the_lists(o: PgState, n: PgState, person_id: PersonId, at: i64, k: CandidateListId)
    requires
        pg_applied(o, n, PgEvent::DeletePerson { person_id }, at),
        o.list_map().contains_key(k),
    ensures
        n.list_map().contains_key(k),
        !n.list_map()[k].candidates@.contains(person_id),
        !o.list_map()[k].candidates@.contains(person_id) ==> n.list_map()[k].candidates@ == o.list_map()[k].candidates@,
        !n.person_map().contains_key(person_id),
{
    let cs = o.list_map()[k].candidates@;
    if without(cs, person_id).contains(person_id) {
        cs.lemma_filter_map_contains(other_than(person_id), person_id);
    }
    if !cs.contains(person_id) {
        lemma_without_absent(cs, person_id);
    }
}

/// Adding a candidate who is already on the list changes nothing: a second
/// add of the same candidate leaves the list as the first one left it.
pub proof fn lemma_add_candidate_deduplicates(
    o: PgState,
    m: PgState,
    n: PgState,
    list_id: CandidateListId,
    person_id: PersonId,
    at1: i64,
    at2: i64,
)
    requires
        pg_applied(o, m, PgEvent::AddCandidateToCandidateList { list_id, person_id }, at1),
        pg_applied(m, n, PgEvent::AddCandidateToCandidateList { list_id, person_id }, at2),
        o.list_map().contains_key(list_id),
    ensures
        m.list_map()[list_id].candidates@.contains(person_id),
        n.list_map()[list_id] == m.list_map()[list_id],
{
    let a = o.list_map()[list_id];
    let b = m.list_map()[list_id];
    if !a.candidates@.contains(person_id) {
        assert(b.candidates@ == a.candidates@.push(person_id));
        assert(b.candidates@[a.candidates@.len() as int] == person_id);
    }
}


/// Two maps of lists hold the same lists under the same ids.
pub open spec fn lists_alike(a: Map<CandidateListId, CandidateList>, b: Map<CandidateListId, CandidateList>) -> bool {
    &&& a.dom() == b.dom()
    &&& forall|k: CandidateListId| #[trigger] a.contains_key(k) ==> same_list(a[k], b[k])
}

/// Two states derive the same projection.
pub open spec fn same_state(a: PgState, b: PgState) -> bool {
    &&& a.group() == b.group()
    &&& a.person_map() == b.person_map()
    &&& lists_alike(a.list_map(), b.list_map())
    &&& a.authorisation_map() == b.authorisation_map()
    &&& a.submitter() == b.submitter()
    &&& a.substitutes() == b.substitutes()
}

/// Applying an event is deterministic: the same event, applied at the same
/// time to the same projection, gives the same projection.
pub proof fn lemma_apply_is_deterministic(o1: PgState, o2: PgState, n1: PgState, n2: PgState, e: PgEvent, at: i64)
    requires
        same_state(o1, o2),
        pg_applied(o1, n1, e, at),
        pg_applied(o2, n2, e, at),
    ensures
        same_state(n1, n2),
{
    let m1 = n1.list_map();
    let m2 = n2.list_map();
    match e {
        PgEvent::DeletePerson { person_id } => {
            assert(m1.dom() =~= m2.dom());
        },
        PgEvent::CreateCandidateList(cl) => {
            assert(m1.dom() =~= m2.dom());
            assert forall|k: CandidateListId| #[trigger] m1.contains_key(k) implies same_list(m1[k], m2[k]) by {
                if k != cl.id {
                    assert(o1.list_map().contains_key(k));
                }
            }
        },
        PgEvent::UpdateCandidateListDistricts { list_id, electoral_districts } => {
            assert(m1.dom() =~= m2.dom());
            assert forall|k: CandidateListId| #[trigger] m1.contains_key(k) implies same_list(m1[k], m2[k]) by {
                assert(o1.list_map().contains_key(k));
            }
        },
        PgEvent::UpdateCandidateListOrder { list_id, candidates } => {
            assert(m1.dom() =~= m2.dom());
            assert forall|k: CandidateListId| #[trigger] m1.contains_key(k) implies same_list(m1[k], m2[k]) by {
                assert(o1.list_map().contains_key(k));
            }
        },
        PgEvent::AddCandidateToCandidateList { list_id, person_id } => {
            assert(m1.dom() =~= m2.dom());
            assert forall|k: CandidateListId| #[trigger] m1.contains_key(k) implies same_list(m1[k], m2[k]) by {
                assert(o1.list_map().contains_key(k));
            }
        },
        PgEvent::RemoveCandidateFromCandidateList { list_id, person_id } => {
            assert(m1.dom() =~= m2.dom());
            assert forall|k: CandidateListId| #[trigger] m1.contains_key(k) implies same_list(m1[k], m2[k]) by {
                assert(o1.list_map().contains_key(k));
            }
        },
        PgEvent::DeleteCandidateList(id) => {
            assert(m1.dom() =~= m2.dom());
        },
        PgEvent::ImportCandidates { list_id, created_persons, updated_persons, candidates, .. } => {
            assert(m1.dom() =~= m2.dom());
            assert forall|k: CandidateListId| #[trigger] m1.contains_key(k) implies same_list(m1[k], m2[k]) by {
                assert(o1.list_map().contains_key(k));
            }
        },
        _ => {},
    }
}

/// Replaying the same events from the same projection always rebuilds the
/// same projection.
pub proof fn lemma_replay_is_deterministic(
    s1: PgState,
    s2: PgState,
    es: Seq<StoreEvent<PgEvent>>,
    e1: PgState,
    e2: PgState,
)
    requires
        same_state(s1, s2),
        replays(s1, es, e1),
        replays(s2, es, e2),
    ensures
        same_state(e1, e2),
{
    let c1 = choose|states: Seq<PgState>| #[trigger] replay_chain(states, es) && states[0] == s1 && states.last() == e1;
    let c2 = choose|states: Seq<PgState>| #[trigger] replay_chain(states, es) && states[0] == s2 && states.last() == e2;
    lemma_chains_agree(c1, c2, es, es.len() as int);
}

/// Two replays of the same events that start alike stay alike.
proof fn lemma_chains_agree(c1: Seq<PgState>, c2: Seq<PgState>, es: Seq<StoreEvent<PgEvent>>, i: int)
    requires
        replay_chain(c1, es),
        replay_chain(c2, es),
        same_state(c1[0], c2[0]),
        0 <= i <= es.len(),
    ensures
        same_state(c1[i], c2[i]),
    decreases i,
{
    if i > 0 {
        lemma_chains_agree(c1, c2, es, i - 1);
        lemma_apply_is_deterministic(c1[i - 1], c2[i - 1], c1[i], c2[i], es[i - 1].payload, es[i - 1].created_at);
    }
}


/// Two events carry the same values (their sequences compared by contents).
pub open spec fn same_event(a: PgEvent, b: PgEvent) -> bool {
    match a {
        PgEvent::UpdatePoliticalGroup(x) => b matches PgEvent::UpdatePoliticalGroup(y) && y == x,
        PgEvent::CreatePerson(x) => b matches PgEvent::CreatePerson(y) && y == x,
        PgEvent::CreatePersonPersonalData { person_id, name, personal_data } => b matches PgEvent::CreatePersonPersonalData {
            person_id: p2,
            name: n2,
            personal_data: d2,
        } && p2 == person_id && n2 == name && d2 == personal_data,
        PgEvent::UpdatePerson(x) => b matches PgEvent::UpdatePerson(y) && y == x,
        PgEvent::UpdatePersonPersonalData { person_id, name, personal_data } => b matches PgEvent::UpdatePersonPersonalData {
            person_id: p2,
            name: n2,
            personal_data: d2,
        } && p2 == person_id && n2 == name && d2 == personal_data,
        PgEvent::UpdatePersonAddress { person_id, address } => b matches PgEvent::UpdatePersonAddress {
            person_id: p2,
            address: a2,
        } && p2 == person_id && a2 == address,
        PgEvent::UpdatePersonRepresentative { person_id, representative } => b matches PgEvent::UpdatePersonRepresentative {
            person_id: p2,
            representative: r2,
        } && p2 == person_id && r2 == representative,
        PgEvent::DeletePerson { person_id } => b matches PgEvent::DeletePerson { person_id: p2 } && p2 == person_id,
        PgEvent::CreateCandidateList(x) => b matches PgEvent::CreateCandidateList(y) && same_list(y, x),
        PgEvent::UpdateCandidateListDistricts { list_id, electoral_districts } => b matches PgEvent::UpdateCandidateListDistricts {
            list_id: l2,
            electoral_districts: d2,
        } && l2 == list_id && d2@ == electoral_districts@,
        PgEvent::UpdateCandidateListOrder { list_id, candidates } => b matches PgEvent::UpdateCandidateListOrder {
            list_id: l2,
            candidates: c2,
        } && l2 == list_id && c2@ == candidates@,
        PgEvent::AddCandidateToCandidateList { list_id, person_id } => b matches PgEvent::AddCandidateToCandidateList {
            list_id: l2,
            person_id: p2,
        } && l2 == list_id && p2 == person_id,
        PgEvent::RemoveCandidateFromCandidateList { list_id, person_id } => b matches PgEvent::RemoveCandidateFromCandidateList {
            list_id: l2,
            person_id: p2,
        } && l2 == list_id && p2 == person_id,
        PgEvent::DeleteCandidateList(x) => b matches PgEvent::DeleteCandidateList(y) && y == x,
        PgEvent::CreateNameAuthorisation(x) => b matches PgEvent::CreateNameAuthorisation(y) && y == x,
        PgEvent::UpdateNameAuthorisation(x) => b matches PgEvent::UpdateNameAuthorisation(y) && y == x,
        PgEvent::DeleteNameAuthorisation(x) => b matches PgEvent::DeleteNameAuthorisation(y) && y == x,
        PgEvent::UpdateListSubmitter(x) => b matches PgEvent::UpdateListSubmitter(y) && y == x,
        PgEvent::CreateSubstituteSubmitter(x) => b matches PgEvent::CreateSubstituteSubmitter(y) && y == x,
        PgEvent::UpdateSubstituteSubmitter(x) => b matches PgEvent::UpdateSubstituteSubmitter(y) && y == x,
        PgEvent::DeleteSubstituteSubmitter { substitute_submitter_id } => b matches PgEvent::DeleteSubstituteSubmitter {
            substitute_submitter_id: s2,
        } && s2 == substitute_submitter_id,
        PgEvent::DeveloperLogin { stream_id } => b matches PgEvent::DeveloperLogin { stream_id: s2 } && s2 == stream_id,
        PgEvent::Login => b is Login,
        PgEvent::Logout => b is Logout,
        PgEvent::DownloadFile { file_name, download_path } => b matches PgEvent::DownloadFile {
            file_name: f2,
            download_path: d2,
        } && f2 == file_name && d2 == download_path,
        PgEvent::HideDownloadWarning => b is HideDownloadWarning,
        PgEvent::ExportCsv { file_name, file_size, list_id } => b matches PgEvent::ExportCsv {
            file_name: f2,
            file_size: s2,
            list_id: l2,
        } && f2 == file_name && s2 == file_size && l2 == list_id,
        PgEvent::ImportCandidates { list_id, file_name, file_size, created_persons, updated_persons, candidates } =>
            b matches PgEvent::ImportCandidates {
            list_id: l2,
            file_name: f2,
            file_size: s2,
            created_persons: c2,
            updated_persons: u2,
            candidates: k2,
        } && l2 == list_id && f2 == file_name && s2 == file_size && c2@ == created_persons@ && u2@
            == updated_persons@ && k2@ == candidates@,
        PgEvent::Import { hash } => b matches PgEvent::Import { hash: h2 } && h2 == hash,
    }
}

/// A copy of `v`.
fn copy_persons(v: &Vec<Person>) -> (r: Vec<Person>)
    ensures
        r@ == v@,
{
    let mut r: Vec<Person> = Vec::new();
    let mut i: usize = 0;
    while i < v.len()
        invariant
            i <= v@.len(),
            r@ == v@.take(i as int),
        decreases v@.len() - i,
    {
        r.push(v[i].clone());
        assert(r@ =~= v@.take(i + 1));
        i = i + 1;
    }
    assert(v@.take(v@.len() as int) =~= v@);
    r
}

impl PgEvent {
    /// A copy of this event.
    pub fn duplicate(&self) -> (r: PgEvent)
        ensures
            same_event(*self, r),
    {
        match self {
            PgEvent::UpdatePoliticalGroup(x) => PgEvent::UpdatePoliticalGroup(x.clone()),
            PgEvent::CreatePerson(x) => PgEvent::CreatePerson(x.clone()),
            PgEvent::CreatePersonPersonalData { person_id, name, personal_data } => PgEvent::CreatePersonPersonalData {
                person_id: *person_id,
                name: name.clone(),
                personal_data: personal_data.clone(),
            },
            PgEvent::UpdatePerson(x) => PgEvent::UpdatePerson(x.clone()),
            PgEvent::UpdatePersonPersonalData { person_id, name, personal_data } => PgEvent::UpdatePersonPersonalData {
                person_id: *person_id,
                name: name.clone(),
                personal_data: personal_data.clone(),
            },
            PgEvent::UpdatePersonAddress { person_id, address } => PgEvent::UpdatePersonAddress {
                person_id: *person_id,
                address: address.clone(),
            },
            PgEvent::UpdatePersonRepresentative { person_id, representative } => PgEvent::UpdatePersonRepresentative {
                person_id: *person_id,
                representative: representative.clone(),
            },
            PgEvent::DeletePerson { person_id } => PgEvent::DeletePerson { person_id: *person_id },
            PgEvent::CreateCandidateList(x) => PgEvent::CreateCandidateList(x.clone()),
            PgEvent::UpdateCandidateListDistricts { list_id, electoral_districts } => PgEvent::UpdateCandidateListDistricts {
                list_id: *list_id,
                electoral_districts: copy_districts(electoral_districts),
            },
            PgEvent::UpdateCandidateListOrder { list_id, candidates } => PgEvent::UpdateCandidateListOrder {
                list_id: *list_id,
                candidates: copy_ids(candidates),
            },
            PgEvent::AddCandidateToCandidateList { list_id, person_id } => PgEvent::AddCandidateToCandidateList {
                list_id: *list_id,
                person_id: *person_id,
            },
            PgEvent::RemoveCandidateFromCandidateList { list_id, person_id } => PgEvent::RemoveCandidateFromCandidateList {
                list_id: *list_id,
                person_id: *person_id,
            },
            PgEvent::DeleteCandidateList(x) => PgEvent::DeleteCandidateList(*x),
            PgEvent::CreateNameAuthorisation(x) => PgEvent::CreateNameAuthorisation(x.clone()),
            PgEvent::UpdateNameAuthorisation(x) => PgEvent::UpdateNameAuthorisation(x.clone()),
            PgEvent::DeleteNameAuthorisation(x) => PgEvent::DeleteNameAuthorisation(*x),
            PgEvent::UpdateListSubmitter(x) => PgEvent::UpdateListSubmitter(x.clone()),
            PgEvent::CreateSubstituteSubmitter(x) => PgEvent::CreateSubstituteSubmitter(x.clone()),
            PgEvent::UpdateSubstituteSubmitter(x) => PgEvent::UpdateSubstituteSubmitter(x.clone()),
            PgEvent::DeleteSubstituteSubmitter { substitute_submitter_id } => PgEvent::DeleteSubstituteSubmitter {
                substitute_submitter_id: *substitute_submitter_id,
            },
            PgEvent::DeveloperLogin { stream_id } => PgEvent::DeveloperLogin { stream_id: *stream_id },
            PgEvent::Login => PgEvent::Login,
            PgEvent::Logout => PgEvent::Logout,
            PgEvent::DownloadFile { file_name, download_path } => PgEvent::DownloadFile {
                file_name: file_name.clone(),
                download_path: download_path.clone(),
            },
            PgEvent::HideDownloadWarning => PgEvent::HideDownloadWarning,
            PgEvent::ExportCsv { file_name, file_size, list_id } => PgEvent::ExportCsv {
                file_name: file_name.clone(),
                file_size: *file_size,
                list_id: *list_id,
            },
            PgEvent::ImportCandidates { list_id, file_name, file_size, created_persons, updated_persons, candidates } =>
                PgEvent::ImportCandidates {
                list_id: *list_id,
                file_name: file_name.clone(),
                file_size: *file_size,
                created_persons: copy_persons(created_persons),
                updated_persons: copy_persons(updated_persons),
                candidates: copy_ids(candidates),
            },
            PgEvent::Import { hash } => PgEvent::Import { hash: *hash },
        }
    }
}

/// Events that carry the same values do the same to a projection.
pub proof fn lemma_same_event_same_effect(o: PgState, n: PgState, a: PgEvent, b: PgEvent, at: i64)
    requires
        same_event(a, b),
    ensures
        pg_applied(o, n, a, at) == pg_applied(o, n, b, at),
{
}


/// A copy of a map of persons.
fn copy_person_map(m: &IdMap<Person>) -> (r: IdMap<Person>)
    requires
        m.wf(),
    ensures
        r.wf(),
        r.map() == m.map(),
{
    proof {
        m.lemma_wf();
    }
    let mut r: IdMap<Person> = IdMap::new();
    let n = m.entries_len();
    let mut i: usize = 0;
    while i < n
        invariant
            i <= n,
            n == m.keys().len(),
            n == m.values().len(),
            m.wf(),
            r.wf(),
            forall|k: u128| #[trigger] r.map().contains_key(k) == m.keys().take(i as int).contains(k),
            forall|k: u128| #[trigger] r.map().contains_key(k) ==> r.map()[k] == m.map()[k],
        decreases n - i,
    {
        let k = m.key_at(i);
        let v = m.value_at(i).clone();
        proof {
            m.lemma_wf();
            assert(m.map()[m.keys()[i as int]] == m.values()[i as int]);
            lemma_take_succ_contains(m.keys(), i as int);
        }
        r.insert(k, v);
        i = i + 1;
    }
    proof {
        assert(m.keys().take(n as int) =~= m.keys());
        assert(r.map() =~= m.map());
    }
    r
}

/// A copy of a map of name authorisations.
fn copy_authorisation_map(m: &IdMap<NameAuthorisation>) -> (r: IdMap<NameAuthorisation>)
    requires
        m.wf(),
    ensures
        r.wf(),
        r.map() == m.map(),
{
    proof {
        m.lemma_wf();
    }
    let mut r: IdMap<NameAuthorisation> = IdMap::new();
    let n = m.entries_len();
    let mut i: usize = 0;
    while i < n
        invariant
            i <= n,
            n == m.keys().len(),
            n == m.values().len(),
            m.wf(),
            r.wf(),
            forall|k: u128| #[trigger] r.map().contains_key(k) == m.keys().take(i as int).contains(k),
            forall|k: u128| #[trigger] r.map().contains_key(k) ==> r.map()[k] == m.map()[k],
        decreases n - i,
    {
        let k = m.key_at(i);
        let v = m.value_at(i).clone();
        proof {
            m.lemma_wf();
            assert(m.map()[m.keys()[i as int]] == m.values()[i as int]);
            lemma_take_succ_contains(m.keys(), i as int);
        }
        r.insert(k, v);
        i = i + 1;
    }
    proof {
        assert(m.keys().take(n as int) =~= m.keys());
        assert(r.map() =~= m.map());
    }
    r
}

/// A copy of a map of candidate lists.
fn copy_list_map(m: &IdMap<CandidateList>) -> (r: IdMap<CandidateList>)
    requires
        m.wf(),
    ensures
        r.wf(),
        lists_alike(r.map(), m.map()),
{
    proof {
        m.lemma_wf();
    }
    let mut r: IdMap<CandidateList> = IdMap::new();
    let n = m.entries_len();
    let mut i: usize = 0;
    while i < n
        invariant
            i <= n,
            n == m.keys().len(),
            n == m.values().len(),
            m.wf(),
            r.wf(),
            forall|k: u128| #[trigger] r.map().contains_key(k) == m.keys().take(i as int).contains(k),
            forall|k: u128| #[trigger] r.map().contains_key(k) ==> same_list(r.map()[k], m.map()[k]),
        decreases n - i,
    {
        let k = m.key_at(i);
        let v = m.value_at(i).clone();
        proof {
            m.lemma_wf();
            assert(m.map()[m.keys()[i as int]] == m.values()[i as int]);
            lemma_take_succ_contains(m.keys(), i as int);
        }
        r.insert(k, v);
        i = i + 1;
    }
    proof {
        assert(m.keys().take(n as int) =~= m.keys());
        assert(r.map().dom() =~= m.map().dom());
    }
    r
}

/// A copy of a sequence of list submitters.
fn copy_submitters(v: &Vec<ListSubmitter>) -> (r: Vec<ListSubmitter>)
    ensures
        r@ == v@,
{
    let mut r: Vec<ListSubmitter> = Vec::new();
    let mut i: usize = 0;
    while i < v.len()
        invariant
            i <= v@.len(),
            r@ == v@.take(i as int),
        decreases v@.len() - i,
    {
        r.push(v[i].clone());
        assert(r@ =~= v@.take(i + 1));
        i = i + 1;
    }
    assert(v@.take(v@.len() as int) =~= v@);
    r
}

impl PgStoreData {
    /// A copy of the derived state, without the event log: the snapshot a
    /// corrected projection starts from.
    pub fn copy_state(&self) -> (r: PgStoreData)
        ensures
            same_state(r.state(), self.state()),
            r.log() == Seq::<StoreEvent<PgEvent>>::empty(),
    {
        proof {
            use_type_invariant(self);
        }
        let st = &self.state;
        let state = PgState {
            political_group: st.political_group.clone(),
            persons: copy_person_map(&st.persons),
            candidate_lists: copy_list_map(&st.candidate_lists),
            name_authorisations: copy_authorisation_map(&st.name_authorisations),
            list_submitter: st.list_submitter.clone(),
            substitute_submitters: copy_submitters(&st.substitute_submitters),
        };
        PgStoreData { state, events: Vec::new() }
    }
}

/// `copy` holds the events of `orig`, in order, each with the same id, time,
/// hash and payload values.
pub open spec fn copied_log(orig: Seq<StoreEvent<PgEvent>>, copy: Seq<StoreEvent<PgEvent>>) -> bool {
    &&& copy.len() == orig.len()
    &&& forall|i: int|
        0 <= i < orig.len() ==> {
            &&& (#[trigger] copy[i]).event_id == orig[i].event_id
            &&& copy[i].created_at == orig[i].created_at
            &&& copy[i].hash == orig[i].hash
            &&& same_event(orig[i].payload, copy[i].payload)
        }
}

impl PgStoreData {
    /// A copy of the projection: its derived state and its event log.
    pub fn copy_with_log(&self) -> (r: PgStoreData)
        ensures
            same_state(r.state(), self.state()),
            copied_log(self.log(), r.log()),
    {
        let mut r = self.copy_state();
        let mut events: Vec<StoreEvent<PgEvent>> = Vec::new();
        let mut i: usize = 0;
        while i < self.events.len()
            invariant
                i <= self.events@.len(),
                copied_log(self.events@.take(i as int), events@),
            decreases self.events@.len() - i,
        {
            let e = &self.events[i];
            events.push(StoreEvent { event_id: e.event_id, payload: e.payload.duplicate(), created_at: e.created_at, hash: e.hash });
            i = i + 1;
        }
        assert(self.events@.take(self.events@.len() as int) =~= self.events@);
        proof {
            use_type_invariant(&r);
        }
        r.events = events;
        r
    }
}

impl StoreData for PgStoreData {
    type Event = PgEvent;

    closed spec fn log(&self) -> Seq<StoreEvent<PgEvent>> {
        self.events@
    }

    fn apply(&mut self, event: StoreEvent<PgEvent>)
        ensures
            pg_applied(old(self).state(), final(self).state(), event.payload, event.created_at),
    {
        proof {
            use_type_invariant(&*self);
        }
        let mut state = PgState::empty();
        std::mem::swap(&mut state, &mut self.state);
        state.apply_payload(&event.payload, event.created_at);
        self.state = state;
        let mut events: Vec<StoreEvent<PgEvent>> = Vec::new();
        std::mem::swap(&mut events, &mut self.events);
        events.push(event);
        self.events = events;
    }

    fn events(&self) -> (r: &Vec<StoreEvent<PgEvent>>) {
        &self.events
    }

    fn scope() -> (r: Scope)
        ensures
            r == Scope::PoliticalGroup,
    {
        Scope::PoliticalGroup
    }
}

} // verus!
