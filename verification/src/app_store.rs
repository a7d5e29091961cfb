//! The political group's own projection: what each event does to it and the
//! reads the pages make of it.

use vstd::prelude::*;

use crate::entities::{
    AuthorisedAgent, AuthorisedAgentId, CandidateList, CandidateListId, DutchAddress, ElectoralDistrict,
    ListSubmitter, ListSubmitterId, Person, PersonId, PersonalInfo, PoliticalGroup, Representative,
    SubstituteSubmitter, SubstituteSubmitterId,
};
use crate::error::AppError;
use crate::id_map::IdMap;
use crate::entities::same_list;

verus! {

/// What a political group recorded.
pub enum AppEvent {
    UpdatePoliticalGroup(PoliticalGroup),
    CreatePerson(Person),
    UpdatePerson(Person),
    UpdatePersonPersonalInfo(PersonalInfo),
    UpdatePersonAddress { person_id: PersonId, address: DutchAddress, updated_at: i64 },
    UpdatePersonRepresentative { person_id: PersonId, representative: Representative, updated_at: i64 },
    DeletePerson(PersonId),
    CreateCandidateList(CandidateList),
    UpdateCandidateList(CandidateList),
    UpdateCandidateListDistricts {
        list_id: CandidateListId,
        electoral_districts: Vec<ElectoralDistrict>,
        updated_at: i64,
    },
    UpdateCandidateListOrder { list_id: CandidateListId, candidates: Vec<PersonId>, updated_at: i64 },
    UpdateCandidateListSubmitters {
        list_id: CandidateListId,
        list_submitter_id: Option<ListSubmitterId>,
        substitute_list_submitter_ids: Vec<SubstituteSubmitterId>,
        updated_at: i64,
    },
    AddCandidateToCandidateList { list_id: CandidateListId, person_id: PersonId, updated_at: i64 },
    RemoveCandidateFromCandidateList { list_id: CandidateListId, person_id: PersonId, updated_at: i64 },
    RemoveCandidateFromAllCandidateLists { person_id: PersonId, updated_at: i64 },
    DeleteCandidateList(CandidateListId),
    CreateAuthorisedAgent(AuthorisedAgent),
    UpdateAuthorisedAgent(AuthorisedAgent),
    DeleteAuthorisedAgent(AuthorisedAgentId),
    CreateListSubmitter(ListSubmitter),
    UpdateListSubmitter(ListSubmitter),
    DeleteListSubmitter(ListSubmitterId),
    CreateSubstituteSubmitter(SubstituteSubmitter),
    UpdateSubstituteSubmitter(SubstituteSubmitter),
    DeleteSubstituteSubmitter(SubstituteSubmitterId),
}

/// The projection of one political group's stream.
pub struct AppStoreData {
    pub political_group: PoliticalGroup,
    pub persons: IdMap<Person>,
    pub candidate_lists: IdMap<CandidateList>,
    pub authorised_agents: IdMap<AuthorisedAgent>,
    pub list_submitters: IdMap<ListSubmitter>,
    pub substitute_submitters: IdMap<SubstituteSubmitter>,
    pub last_event_id: usize,
}

/// `m` with `v` stored under `k` if `k` is present; updates never create.
pub open spec fn modify<V>(m: Map<u128, V>, k: u128, v: V) -> Map<u128, V> {
    if m.contains_key(k) {
        m.insert(k, v)
    } else {
        m
    }
}

/// `s` without the occurrences of `x`.
pub open spec fn without(s: Seq<PersonId>, x: PersonId) -> Seq<PersonId> {
    s.filter_map(other_than(x))
}

/// Keeps every id but `x`.
pub open spec fn other_than(x: PersonId) -> spec_fn(PersonId) -> Option<PersonId> {
    |y: PersonId| if y != x { Some(y) } else { None }
}

/// Two lists agree except for candidates and update time.
pub open spec fn same_list_except_candidates(a: CandidateList, b: CandidateList) -> bool {
    &&& a.id == b.id
    &&& a.electoral_districts@ == b.electoral_districts@
    &&& a.list_submitter_id == b.list_submitter_id
    &&& a.substitute_list_submitter_ids@ == b.substitute_list_submitter_ids@
    &&& a.created_at == b.created_at
}

impl AppStoreData {
    /// All collections are well formed.
    pub open spec fn wf(&self) -> bool {
        &&& self.persons.wf()
        &&& self.candidate_lists.wf()
        &&& self.authorised_agents.wf()
        &&& self.list_submitters.wf()
        &&& self.substitute_submitters.wf()
    }

    /// A projection before any event.
    pub fn new() -> (d: Self)
        ensures
            d.wf(),
            d.persons.map() == Map::<u128, Person>::empty(),
            d.candidate_lists.map() == Map::<u128, CandidateList>::empty(),
            d.authorised_agents.map() == Map::<u128, AuthorisedAgent>::empty(),
            d.list_submitters.map() == Map::<u128, ListSubmitter>::empty(),
            d.substitute_submitters.map() == Map::<u128, SubstituteSubmitter>::empty(),
            d.last_event_id == 0,
            d.political_group == (PoliticalGroup {
                id: 0,
                long_list_allowed: None,
                legal_name: None,
                display_name: None,
                created_at: 0,
                updated_at: 0,
            }),
    {
        AppStoreData {
            political_group: PoliticalGroup::empty(),
            persons: IdMap::new(),
            candidate_lists: IdMap::new(),
            authorised_agents: IdMap::new(),
            list_submitters: IdMap::new(),
            substitute_submitters: IdMap::new(),
            last_event_id: 0,
        }
    }
}

pub(crate) fn remove_all(v: &mut Vec<PersonId>, x: PersonId)
    ensures
        final(v)@ == without(old(v)@, x),
{
    let mut kept: Vec<PersonId> = Vec::new();
    let mut i: usize = 0;
    while i < v.len()
        invariant
            i <= v@.len(),
            v@ == old(v)@,
            kept@ == without(v@.take(i as int), x),
        decreases v@.len() - i,
    {
        proof {
            v@.lemma_filter_map_take_succ(other_than(x), i as int);
        }
        if v[i] != x {
            kept.push(v[i]);
        }
        i = i + 1;
    }
    assert(v@.take(v@.len() as int) =~= v@);
    *v = kept;
}

pub(crate) fn contains_id(v: &Vec<PersonId>, x: PersonId) -> (r: bool)
    ensures
        r == v@.contains(x),
{
    let mut i: usize = 0;
    while i < v.len()
        invariant
            i <= v@.len(),
            forall|j: int| 0 <= j < i ==> v@[j] != x,
        decreases v@.len() - i,
    {
        if v[i] == x {
            return true;
        }
        i = i + 1;
    }
    false
}

/// `new` is `old` with only the entry under `k` changed, and that entry (if
/// present) related by `step`.
pub open spec fn changed_at<V>(
    old_m: Map<u128, V>,
    new_m: Map<u128, V>,
    k: u128,
    step: spec_fn(V, V) -> bool,
) -> bool {
    &&& new_m.dom() == old_m.dom()
    &&& forall|x: u128| #[trigger] new_m.contains_key(x) && x != k ==> new_m[x] == old_m[x]
    &&& old_m.contains_key(k) ==> step(old_m[k], new_m[k])
}

/// Only the persons differ.
pub open spec fn only_persons(a: AppStoreData, b: AppStoreData) -> bool {
    &&& a.political_group == b.political_group
    &&& a.candidate_lists == b.candidate_lists
    &&& a.authorised_agents == b.authorised_agents
    &&& a.list_submitters == b.list_submitters
    &&& a.substitute_submitters == b.substitute_submitters
    &&& a.last_event_id == b.last_event_id
}

/// Only the candidate lists differ.
pub open spec fn only_lists(a: AppStoreData, b: AppStoreData) -> bool {
    &&& a.political_group == b.political_group
    &&& a.persons == b.persons
    &&& a.authorised_agents == b.authorised_agents
    &&& a.list_submitters == b.list_submitters
    &&& a.substitute_submitters == b.substitute_submitters
    &&& a.last_event_id == b.last_event_id
}

/// Only the authorised agents differ.
pub open spec fn only_agents(a: AppStoreData, b: AppStoreData) -> bool {
    &&& a.political_group == b.political_group
    &&& a.persons == b.persons
    &&& a.candidate_lists == b.candidate_lists
    &&& a.list_submitters == b.list_submitters
    &&& a.substitute_submitters == b.substitute_submitters
    &&& a.last_event_id == b.last_event_id
}

/// Only the list submitters differ.
pub open spec fn only_list_submitters(a: AppStoreData, b: AppStoreData) -> bool {
    &&& a.political_group == b.political_group
    &&& a.persons == b.persons
    &&& a.candidate_lists == b.candidate_lists
    &&& a.authorised_agents == b.authorised_agents
    &&& a.substitute_submitters == b.substitute_submitters
    &&& a.last_event_id == b.last_event_id
}

/// Only the substitute submitters differ.
pub open spec fn only_substitutes(a: AppStoreData, b: AppStoreData) -> bool {
    &&& a.political_group == b.political_group
    &&& a.persons == b.persons
    &&& a.candidate_lists == b.candidate_lists
    &&& a.authorised_agents == b.authorised_agents
    &&& a.list_submitters == b.list_submitters
    &&& a.last_event_id == b.last_event_id
}

/// The candidates of a list after removing `person` from it, and the update
/// time moved to `at` only when someone was removed.
pub open spec fn removed_from(o: CandidateList, n: CandidateList, person: PersonId, at: i64) -> bool {
    &&& same_list_except_candidates(o, n)
    &&& n.candidates@ == without(o.candidates@, person)
    &&& n.updated_at == (if without(o.candidates@, person).len() != o.candidates@.len() {
        at
    } else {
        o.updated_at
    })
}

/// What applying `event` does to the projection.
pub open spec fn applied(old_d: AppStoreData, new_d: AppStoreData, event: AppEvent) -> bool {
    match event {
        AppEvent::UpdatePoliticalGroup(pg) => new_d == AppStoreData { political_group: pg, ..old_d },
        AppEvent::CreatePerson(p) => only_persons(old_d, new_d) && new_d.persons.map()
            == old_d.persons.map().insert(p.id, p),
        AppEvent::UpdatePerson(p) => only_persons(old_d, new_d) && new_d.persons.map() == modify(
            old_d.persons.map(),
            p.id,
            p,
        ),
        AppEvent::UpdatePersonPersonalInfo(info) => only_persons(old_d, new_d) && new_d.persons.map()
            == modify(
            old_d.persons.map(),
            info.person_id,
            Person {
                name: info.name,
                first_name: info.first_name,
                gender: info.gender,
                bsn: info.bsn,
                no_bsn_confirmed: info.no_bsn_confirmed,
                date_of_birth: info.date_of_birth,
                place_of_residence: info.place_of_residence,
                country_of_residence: info.country_of_residence,
                updated_at: info.updated_at,
                ..old_d.persons.map()[info.person_id]
            },
        ),
        AppEvent::UpdatePersonAddress { person_id, address, updated_at } => only_persons(old_d, new_d)
            && new_d.persons.map() == modify(
            old_d.persons.map(),
            person_id,
            Person { address, updated_at, ..old_d.persons.map()[person_id] },
        ),
        AppEvent::UpdatePersonRepresentative { person_id, representative, updated_at } => only_persons(
            old_d,
            new_d,
        ) && new_d.persons.map() == modify(
            old_d.persons.map(),
            person_id,
            Person { representative, updated_at, ..old_d.persons.map()[person_id] },
        ),
        AppEvent::DeletePerson(id) => only_persons(old_d, new_d) && new_d.persons.map()
            == old_d.persons.map().remove(id),
        AppEvent::CreateCandidateList(cl) => only_lists(old_d, new_d) && new_d.candidate_lists.map()
            == old_d.candidate_lists.map().insert(cl.id, cl),
        AppEvent::UpdateCandidateList(cl) => only_lists(old_d, new_d) && new_d.candidate_lists.map()
            == modify(old_d.candidate_lists.map(), cl.id, cl),
        AppEvent::UpdateCandidateListDistricts { list_id, electoral_districts, updated_at } => only_lists(
            old_d,
            new_d,
        ) && new_d.candidate_lists.map() == modify(
            old_d.candidate_lists.map(),
            list_id,
            CandidateList { electoral_districts, updated_at, ..old_d.candidate_lists.map()[list_id] },
        ),
        AppEvent::UpdateCandidateListOrder { list_id, candidates, updated_at } => only_lists(old_d, new_d)
            && new_d.candidate_lists.map() == modify(
            old_d.candidate_lists.map(),
            list_id,
            CandidateList { candidates, updated_at, ..old_d.candidate_lists.map()[list_id] },
        ),
        AppEvent::UpdateCandidateListSubmitters {
            list_id,
            list_submitter_id,
            substitute_list_submitter_ids,
            updated_at,
        } => only_lists(old_d, new_d) && new_d.candidate_lists.map() == modify(
            old_d.candidate_lists.map(),
            list_id,
            CandidateList {
                list_submitter_id,
                substitute_list_submitter_ids,
                updated_at,
                ..old_d.candidate_lists.map()[list_id]
            },
        ),
        AppEvent::AddCandidateToCandidateList { list_id, person_id, updated_at } => only_lists(old_d, new_d)
            && changed_at(
            old_d.candidate_lists.map(),
            new_d.candidate_lists.map(),
            list_id,
            |o: CandidateList, n: CandidateList|
                if o.candidates@.contains(person_id) {
                    n == o
                } else {
                    same_list_except_candidates(o, n) && n.candidates@ == o.candidates@.push(person_id)
                        && n.updated_at == updated_at
                },
        ),
        AppEvent::RemoveCandidateFromCandidateList { list_id, person_id, updated_at } => only_lists(
            old_d,
            new_d,
        ) && changed_at(
            old_d.candidate_lists.map(),
            new_d.candidate_lists.map(),
            list_id,
            |o: CandidateList, n: CandidateList|
                same_list_except_candidates(o, n) && n.candidates@ == without(o.candidates@, person_id)
                    && n.updated_at == updated_at,
        ),
        AppEvent::RemoveCandidateFromAllCandidateLists { person_id, updated_at } => only_lists(old_d, new_d)
            && new_d.candidate_lists.map().dom() == old_d.candidate_lists.map().dom() && forall|k: u128|
            #[trigger] new_d.candidate_lists.map().contains_key(k) ==> removed_from(
                old_d.candidate_lists.map()[k],
                new_d.candidate_lists.map()[k],
                person_id,
                updated_at,
            ),
        AppEvent::DeleteCandidateList(id) => only_lists(old_d, new_d) && new_d.candidate_lists.map()
            == old_d.candidate_lists.map().remove(id),
        AppEvent::CreateAuthorisedAgent(a) => only_agents(old_d, new_d) && new_d.authorised_agents.map()
            == old_d.authorised_agents.map().insert(a.id, a),
        AppEvent::UpdateAuthorisedAgent(a) => only_agents(old_d, new_d) && new_d.authorised_agents.map()
            == modify(old_d.authorised_agents.map(), a.id, a),
        AppEvent::DeleteAuthorisedAgent(id) => only_agents(old_d, new_d) && new_d.authorised_agents.map()
            == old_d.authorised_agents.map().remove(id),
        AppEvent::CreateListSubmitter(ls) => only_list_submitters(old_d, new_d)
            && new_d.list_submitters.map() == old_d.list_submitters.map().insert(ls.id, ls),
        AppEvent::UpdateListSubmitter(ls) => only_list_submitters(old_d, new_d)
            && new_d.list_submitters.map() == modify(old_d.list_submitters.map(), ls.id, ls),
        AppEvent::DeleteListSubmitter(id) => only_list_submitters(old_d, new_d)
            && new_d.list_submitters.map() == old_d.list_submitters.map().remove(id),
        AppEvent::CreateSubstituteSubmitter(ss) => only_substitutes(old_d, new_d)
            && new_d.substitute_submitters.map() == old_d.substitute_submitters.map().insert(ss.id, ss),
        AppEvent::UpdateSubstituteSubmitter(ss) => only_substitutes(old_d, new_d)
            && new_d.substitute_submitters.map() == modify(old_d.substitute_submitters.map(), ss.id, ss),
        AppEvent::DeleteSubstituteSubmitter(id) => only_substitutes(old_d, new_d)
            && new_d.substitute_submitters.map() == old_d.substitute_submitters.map().remove(id),
    }
}

/// Remove `person_id` from every list, moving the update time of the lists
/// it was on.
fn remove_from_all_lists(lists: &mut IdMap<CandidateList>, person_id: PersonId, updated_at: i64)
    requires
        old(lists).wf(),
    ensures
        final(lists).wf(),
        final(lists).map().dom() == old(lists).map().dom(),
        forall|k: u128|
            #[trigger] final(lists).map().contains_key(k) ==> removed_from(
                old(lists).map()[k],
                final(lists).map()[k],
                person_id,
                updated_at,
            ),
{
    let n = lists.len();
    let mut i: usize = 0;
    proof {
        old(lists).lemma_wf();
    }
    while i < n
        invariant
            i <= n,
            n == lists.keys().len(),
            lists.wf(),
            lists.keys() == old(lists).keys(),
            old(lists).keys().len() == old(lists).values().len(),
            lists.values().len() == old(lists).values().len(),
            forall|j: int| i <= j < n ==> #[trigger] lists.values()[j] == old(lists).values()[j],
            forall|j: int|
                0 <= j < i ==> removed_from(
                    old(lists).values()[j],
                    #[trigger] lists.values()[j],
                    person_id,
                    updated_at,
                ),
        decreases n - i,
    {
        let ghost before = *lists;
        let list = lists.value_mut_at(i);
        let len_before = list.candidates.len();
        remove_all(&mut list.candidates, person_id);
        if list.candidates.len() != len_before {
            list.updated_at = updated_at;
        }
        proof {
            IdMap::lemma_update_at(&before, lists, i as int);
        }
        i = i + 1;
    }
    proof {
        lists.lemma_wf();
        old(lists).lemma_wf();
        assert(lists.map().dom() =~= old(lists).map().dom());
        assert forall|k: u128| #[trigger] lists.map().contains_key(k) implies removed_from(
            old(lists).map()[k],
            lists.map()[k],
            person_id,
            updated_at,
        ) by {
            let j = lists.keys().index_of(k);
            assert(lists.keys()[j] == k);
            assert(lists.map()[lists.keys()[j]] == lists.values()[j]);
            assert(old(lists).map()[old(lists).keys()[j]] == old(lists).values()[j]);
        }
    }
}

/// The store handle of one political group's stream.
pub struct AppStore {
    pub data: AppStoreData,
}

impl AppStore {
    /// Apply one event to the projection.
    pub fn apply(event: AppEvent, data: &mut AppStoreData)
        requires
            old(data).wf(),
        ensures
            final(data).wf(),
            applied(*old(data), *final(data), event),
    {
        match event {
            AppEvent::UpdatePoliticalGroup(pg) => {
                data.political_group = pg;
            },
            AppEvent::CreatePerson(person) => {
                data.persons.insert(person.id, person);
            },
            AppEvent::UpdatePerson(person) => {
                if data.persons.contains_key(person.id) {
                    data.persons.insert(person.id, person);
                }
            },
            AppEvent::UpdatePersonPersonalInfo(info) => {
                let id = info.person_id;
                match data.persons.remove(id) {
                    Some(existing) => {
                        data.persons.insert(id, existing.update_personal_info(info));
                        assert(data.persons.map() =~= old(data).persons.map().insert(
                            id,
                            data.persons.map()[id],
                        ));
                    },
                    None => {
                        assert(data.persons.map() =~= old(data).persons.map());
                    },
                }
            },
            AppEvent::UpdatePersonAddress { person_id, address, updated_at } => {
                match data.persons.remove(person_id) {
                    Some(existing) => {
                        data.persons.insert(person_id, Person { address, updated_at, ..existing });
                        assert(data.persons.map() =~= old(data).persons.map().insert(
                            person_id,
                            data.persons.map()[person_id],
                        ));
                    },
                    None => {
                        assert(data.persons.map() =~= old(data).persons.map());
                    },
                }
            },
            AppEvent::UpdatePersonRepresentative { person_id, representative, updated_at } => {
                match data.persons.remove(person_id) {
                    Some(existing) => {
                        data.persons.insert(person_id, Person { representative, updated_at, ..existing });
                        assert(data.persons.map() =~= old(data).persons.map().insert(
                            person_id,
                            data.persons.map()[person_id],
                        ));
                    },
                    None => {
                        assert(data.persons.map() =~= old(data).persons.map());
                    },
                }
            },
            AppEvent::DeletePerson(person_id) => {
                data.persons.remove(person_id);
            },
            AppEvent::CreateCandidateList(cl) => {
                data.candidate_lists.insert(cl.id, cl);
            },
            AppEvent::UpdateCandidateList(cl) => {
                if data.candidate_lists.contains_key(cl.id) {
                    data.candidate_lists.insert(cl.id, cl);
                }
            },
            AppEvent::UpdateCandidateListDistricts { list_id, electoral_districts, updated_at } => {
                match data.candidate_lists.remove(list_id) {
                    Some(existing) => {
                        data.candidate_lists.insert(
                            list_id,
                            CandidateList { electoral_districts, updated_at, ..existing },
                        );
                        assert(data.candidate_lists.map() =~= old(data).candidate_lists.map().insert(
                            list_id,
                            data.candidate_lists.map()[list_id],
                        ));
                    },
                    None => {
                        assert(data.candidate_lists.map() =~= old(data).candidate_lists.map());
                    },
                }
            },
            AppEvent::UpdateCandidateListOrder { list_id, candidates, updated_at } => {
                match data.candidate_lists.remove(list_id) {
                    Some(existing) => {
                        data.candidate_lists.insert(
                            list_id,
                            CandidateList { candidates, updated_at, ..existing },
                        );
                        assert(data.candidate_lists.map() =~= old(data).candidate_lists.map().insert(
                            list_id,
                            data.candidate_lists.map()[list_id],
                        ));
                    },
                    None => {
                        assert(data.candidate_lists.map() =~= old(data).candidate_lists.map());
                    },
                }
            },
            AppEvent::UpdateCandidateListSubmitters {
                list_id,
                list_submitter_id,
                substitute_list_submitter_ids,
                updated_at,
            } => {
                match data.candidate_lists.remove(list_id) {
                    Some(existing) => {
                        data.candidate_lists.insert(
                            list_id,
                            CandidateList {
                                list_submitter_id,
                                substitute_list_submitter_ids,
                                updated_at,
                                ..existing
                            },
                        );
                        assert(data.candidate_lists.map() =~= old(data).candidate_lists.map().insert(
                            list_id,
                            data.candidate_lists.map()[list_id],
                        ));
                    },
                    None => {
                        assert(data.candidate_lists.map() =~= old(data).candidate_lists.map());
                    },
                }
            },
            AppEvent::AddCandidateToCandidateList { list_id, person_id, updated_at } => {
                match data.candidate_lists.position_of(list_id) {
                    Some(i) => {
                        let ghost before = data.candidate_lists;
                        proof {
                            before.lemma_wf();
                            crate::id_map::lemma_index_of_unique(before.keys(), i as int);
                        }
                        let list = data.candidate_lists.value_mut_at(i);
                        if !contains_id(&list.candidates, person_id) {
                            list.candidates.push(person_id);
                            list.updated_at = updated_at;
                        }
                        proof {
                            IdMap::lemma_update_at(&before, &data.candidate_lists, i as int);
                            assert(data.candidate_lists.map().dom() =~= old(data).candidate_lists.map().dom());
                        }
                    },
                    None => {},
                }
            },
            AppEvent::RemoveCandidateFromCandidateList { list_id, person_id, updated_at } => {
                match data.candidate_lists.position_of(list_id) {
                    Some(i) => {
                        let ghost before = data.candidate_lists;
                        proof {
                            before.lemma_wf();
                            crate::id_map::lemma_index_of_unique(before.keys(), i as int);
                        }
                        let list = data.candidate_lists.value_mut_at(i);
                        remove_all(&mut list.candidates, person_id);
                        list.updated_at = updated_at;
                        proof {
                            IdMap::lemma_update_at(&before, &data.candidate_lists, i as int);
                            assert(data.candidate_lists.map().dom() =~= old(data).candidate_lists.map().dom());
                        }
                    },
                    None => {},
                }
            },
            AppEvent::RemoveCandidateFromAllCandidateLists { person_id, updated_at } => {
                remove_from_all_lists(&mut data.candidate_lists, person_id, updated_at);
            },
            AppEvent::DeleteCandidateList(id) => {
                data.candidate_lists.remove(id);
            },
            AppEvent::CreateAuthorisedAgent(aa) => {
                data.authorised_agents.insert(aa.id, aa);
            },
            AppEvent::UpdateAuthorisedAgent(aa) => {
                if data.authorised_agents.contains_key(aa.id) {
                    data.authorised_agents.insert(aa.id, aa);
                }
            },
            AppEvent::DeleteAuthorisedAgent(id) => {
                data.authorised_agents.remove(id);
            },
            AppEvent::CreateListSubmitter(ls) => {
                data.list_submitters.insert(ls.id, ls);
            },
            AppEvent::UpdateListSubmitter(ls) => {
                if data.list_submitters.contains_key(ls.id) {
                    data.list_submitters.insert(ls.id, ls);
                }
            },
            AppEvent::DeleteListSubmitter(id) => {
                data.list_submitters.remove(id);
            },
            AppEvent::CreateSubstituteSubmitter(ss) => {
                data.substitute_submitters.insert(ss.id, ss);
            },
            AppEvent::UpdateSubstituteSubmitter(ss) => {
                if data.substitute_submitters.contains_key(ss.id) {
                    data.substitute_submitters.insert(ss.id, ss);
                }
            },
            AppEvent::DeleteSubstituteSubmitter(id) => {
                data.substitute_submitters.remove(id);
            },
        }
    }
}

fn clone_values<V: Clone>(m: &IdMap<V>) -> (r: Vec<V>)
    ensures
        r@.len() == m.values().len(),
        forall|i: int| 0 <= i < r@.len() ==> cloned::<V>(m.values()[i], #[trigger] r@[i]),
{
    let mut r: Vec<V> = Vec::new();
    let mut i: usize = 0;
    while i < m.entries_len()
        invariant
            i <= m.values().len(),
            r@.len() == i,
            forall|j: int| 0 <= j < i ==> cloned::<V>(m.values()[j], #[trigger] r@[j]),
        decreases m.values().len() - i,
    {
        r.push(m.value_at(i).clone());
        i = i + 1;
    }
    r
}

impl AppStore {
    /// Every person, in the map's iteration order.
    pub fn get_persons(&self) -> (r: Result<Vec<Person>, AppError>)
        ensures
            r matches Ok(v) && v@ == self.data.persons.values(),
    {
        let v = clone_values(&self.data.persons);
        assert(v@ =~= self.data.persons.values());
        Ok(v)
    }
}

/// Positions `0..times.len()` ordered by their time, earlier first; equal
/// times keep their order.
fn sorted_positions(times: &Vec<i64>) -> (p: Vec<usize>)
    ensures
        p@.len() == times@.len(),
        p@.no_duplicates(),
        forall|i: int| 0 <= i < p@.len() ==> #[trigger] p@[i] < times@.len(),
        forall|i: int, j: int| 0 <= i < j < p@.len() ==> times@[#[trigger] p@[i] as int] <= times@[#[trigger] p@[j] as int],
{
    let mut p: Vec<usize> = Vec::new();
    let mut k: usize = 0;
    while k < times.len()
        invariant
            k <= times@.len(),
            p@.len() == k,
            p@.no_duplicates(),
            forall|i: int| 0 <= i < p@.len() ==> #[trigger] p@[i] < k,
            forall|i: int, j: int| 0 <= i < j < p@.len() ==> times@[#[trigger] p@[i] as int] <= times@[#[trigger] p@[j] as int],
        decreases times@.len() - k,
    {
        let t = times[k];
        let mut j: usize = 0;
        while j < p.len() && times[p[j]] <= t
            invariant
                j <= p@.len(),
                p@.len() == k,
                k < times@.len(),
                t == times@[k as int],
                forall|i: int| 0 <= i < p@.len() ==> #[trigger] p@[i] < k,
                forall|m: int| 0 <= m < j ==> times@[#[trigger] p@[m] as int] <= t,
            decreases p@.len() - j,
        {
            j = j + 1;
        }
        let ghost before = p@;
        p.insert(j, k);
        proof {
            assert(p@ == before.insert(j as int, k));
            assert forall|a: int, b: int| 0 <= a < p@.len() && 0 <= b < p@.len() && a != b implies p@[a] != p@[b] by {
                if a == j as int {
                    let ob = if b < j { b } else { b - 1 };
                    assert(p@[b] == before[ob]);
                } else if b == j as int {
                    let oa = if a < j { a } else { a - 1 };
                    assert(p@[a] == before[oa]);
                } else {
                    let oa = if a < j { a } else { a - 1 };
                    let ob = if b < j { b } else { b - 1 };
                    assert(p@[a] == before[oa]);
                    assert(p@[b] == before[ob]);
                }
            }
            assert forall|i: int, l: int| 0 <= i < l < p@.len() implies times@[#[trigger] p@[i] as int] <= times@[#[trigger] p@[l] as int] by {
                let oi = if i < j { i } else { i - 1 };
                let ol = if l < j { l } else { l - 1 };
                if i == j as int {
                    assert(p@[l] == before[ol]);
                    if j < before.len() {
                        assert(times@[before[j as int] as int] > t);
                        if ol > j {
                            assert(times@[before[j as int] as int] <= times@[before[ol] as int]);
                        }
                    }
                } else if l == j as int {
                    assert(p@[i] == before[oi]);
                } else {
                    assert(p@[i] == before[oi]);
                    assert(p@[l] == before[ol]);
                }
            }
            assert forall|i: int| 0 <= i < p@.len() implies #[trigger] p@[i] < k + 1 by {
                if i != j as int {
                    let oi = if i < j { i } else { i - 1 };
                    assert(p@[i] == before[oi]);
                }
            }
        }
        k = k + 1;
    }
    p
}

impl AppStore {
    /// Every candidate list, earliest created first.
    pub fn get_candidate_lists(&self) -> (r: Result<Vec<CandidateList>, AppError>)
        requires
            self.data.wf(),
        ensures
            r matches Ok(v) && {
                let vals = self.data.candidate_lists.values();
                &&& v@.len() == vals.len()
                &&& exists|p: Seq<usize>|
                    #![trigger p.no_duplicates()]
                    p.len() == vals.len() && p.no_duplicates() && (forall|i: int|
                        0 <= i < p.len() ==> #[trigger] p[i] < vals.len() && same_list(v@[i], vals[p[i] as int]))
                &&& forall|i: int, j: int| 0 <= i < j < v@.len() ==> (#[trigger] v@[i]).created_at <= (#[trigger] v@[j]).created_at
            },
    {
        let lists = &self.data.candidate_lists;
        let n = lists.entries_len();
        let mut times: Vec<i64> = Vec::new();
        let mut i: usize = 0;
        while i < n
            invariant
                i <= n,
                n == lists.values().len(),
                times@.len() == i,
                forall|j: int| 0 <= j < i ==> #[trigger] times@[j] == lists.values()[j].created_at,
            decreases n - i,
        {
            times.push(lists.value_at(i).created_at);
            i = i + 1;
        }
        let p = sorted_positions(&times);
        let mut out: Vec<CandidateList> = Vec::new();
        let mut k: usize = 0;
        while k < n
            invariant
                k <= n,
                n == lists.values().len(),
                n == times@.len(),
                p@.len() == n,
                forall|j: int| 0 <= j < n ==> #[trigger] times@[j] == lists.values()[j].created_at,
                forall|j: int| 0 <= j < n ==> #[trigger] p@[j] < n,
                out@.len() == k,
                forall|j: int| 0 <= j < k ==> same_list(#[trigger] out@[j], lists.values()[p@[j] as int]),
            decreases n - k,
        {
            out.push(lists.value_at(p[k]).clone());
            k = k + 1;
        }
        proof {
            assert(p@.len() == n && p@.no_duplicates());
            assert forall|a: int, b: int| 0 <= a < b < out@.len() implies (#[trigger] out@[a]).created_at
                <= (#[trigger] out@[b]).created_at by {
                assert(times@[p@[a] as int] <= times@[p@[b] as int]);
            }
        }
        Ok(out)
    }

    /// The political group's basic data.
    pub fn get_political_group(&self) -> (r: Result<PoliticalGroup, AppError>)
        ensures
            r matches Ok(g) && g == self.data.political_group,
    {
        Ok(self.data.political_group.clone())
    }

    /// Every authorised agent, in the map's iteration order.
    pub fn get_authorised_agents(&self) -> (r: Result<Vec<AuthorisedAgent>, AppError>)
        ensures
            r matches Ok(v) && v@ == self.data.authorised_agents.values(),
    {
        let v = clone_values(&self.data.authorised_agents);
        assert(v@ =~= self.data.authorised_agents.values());
        Ok(v)
    }

    /// Every list submitter, in the map's iteration order.
    pub fn get_list_submitters(&self) -> (r: Result<Vec<ListSubmitter>, AppError>)
        ensures
            r matches Ok(v) && v@ == self.data.list_submitters.values(),
    {
        let v = clone_values(&self.data.list_submitters);
        assert(v@ =~= self.data.list_submitters.values());
        Ok(v)
    }

    /// Every substitute submitter, in the map's iteration order.
    pub fn get_substitute_submitters(&self) -> (r: Result<Vec<SubstituteSubmitter>, AppError>)
        ensures
            r matches Ok(v) && v@ == self.data.substitute_submitters.values(),
    {
        let v = clone_values(&self.data.substitute_submitters);
        assert(v@ =~= self.data.substitute_submitters.values());
        Ok(v)
    }

    /// The number of persons.
    pub fn get_person_count(&self) -> (r: Result<usize, AppError>)
        requires
            self.data.wf(),
        ensures
            r matches Ok(n) && n == self.data.persons.map().dom().len(),
    {
        Ok(self.data.persons.len())
    }

    /// The candidate list with this id.
    pub fn get_candidate_list(&self, list_id: CandidateListId) -> (r: Result<CandidateList, AppError>)
        requires
            self.data.wf(),
        ensures
            match r {
                Ok(l) => self.data.candidate_lists.map().contains_key(list_id) && same_list(
                    l,
                    self.data.candidate_lists.map()[list_id],
                ),
                Err(e) => !self.data.candidate_lists.map().contains_key(list_id) && e == AppError::GenericNotFound,
            },
    {
        match self.data.candidate_lists.get(list_id) {
            Some(list) => Ok(list.clone()),
            None => Err(AppError::GenericNotFound),
        }
    }

    /// The person with this id.
    pub fn get_person(&self, person_id: PersonId) -> (r: Result<Person, AppError>)
        requires
            self.data.wf(),
        ensures
            match r {
                Ok(p) => self.data.persons.map().contains_key(person_id) && p == self.data.persons.map()[person_id],
                Err(e) => !self.data.persons.map().contains_key(person_id) && e == AppError::GenericNotFound,
            },
    {
        match self.data.persons.get(person_id) {
            Some(p) => Ok(p.clone()),
            None => Err(AppError::GenericNotFound),
        }
    }

    /// The authorised agent with this id.
    pub fn get_authorised_agent(&self, id: AuthorisedAgentId) -> (r: Result<AuthorisedAgent, AppError>)
        requires
            self.data.wf(),
        ensures
            match r {
                Ok(a) => self.data.authorised_agents.map().contains_key(id) && a == self.data.authorised_agents.map()[id],
                Err(e) => !self.data.authorised_agents.map().contains_key(id) && e == AppError::GenericNotFound,
            },
    {
        match self.data.authorised_agents.get(id) {
            Some(a) => Ok(a.clone()),
            None => Err(AppError::GenericNotFound),
        }
    }

    /// The list submitter with this id.
    pub fn get_list_submitter(&self, id: ListSubmitterId) -> (r: Result<ListSubmitter, AppError>)
        requires
            self.data.wf(),
        ensures
            match r {
                Ok(s) => self.data.list_submitters.map().contains_key(id) && s == self.data.list_submitters.map()[id],
                Err(e) => !self.data.list_submitters.map().contains_key(id) && e == AppError::GenericNotFound,
            },
    {
        match self.data.list_submitters.get(id) {
            Some(s) => Ok(s.clone()),
            None => Err(AppError::GenericNotFound),
        }
    }

    /// The substitute submitter with this id.
    pub fn get_substitute_submitter(&self, id: SubstituteSubmitterId) -> (r: Result<SubstituteSubmitter, AppError>)
        requires
            self.data.wf(),
        ensures
            match r {
                Ok(s) => self.data.substitute_submitters.map().contains_key(id) && s
                    == self.data.substitute_submitters.map()[id],
                Err(e) => !self.data.substitute_submitters.map().contains_key(id) && e == AppError::GenericNotFound,
            },
    {
        match self.data.substitute_submitters.get(id) {
            Some(s) => Ok(s.clone()),
            None => Err(AppError::GenericNotFound),
        }
    }

    /// On how many candidate lists this person stands.
    pub fn count_candidate_lists(&self, person_id: PersonId) -> (r: Result<usize, AppError>)
        ensures
            r matches Ok(n) && n == lists_with(self.data.candidate_lists.values(), person_id),
            self.data.wf() ==> (r matches Ok(n) && n == lists_holding(self.data.candidate_lists.map(), person_id).len()
                && n <= self.data.candidate_lists.map().dom().len()),
    {
        let lists = &self.data.candidate_lists;
        let n = lists.entries_len();
        let mut count: usize = 0;
        let mut i: usize = 0;
        while i < n
            invariant
                i <= n,
                n == lists.values().len(),
                count == lists_with(lists.values().take(i as int), person_id),
                count <= i,
            decreases n - i,
        {
            assert(lists.values().take(i + 1).drop_last() =~= lists.values().take(i as int));
            if contains_id(&lists.value_at(i).candidates, person_id) {
                count = count + 1;
            }
            i = i + 1;
        }
        assert(lists.values().take(n as int) =~= lists.values());
        proof {
            if self.data.wf() {
                lemma_count_is_the_number_of_lists_holding(*lists, person_id);
            }
        }
        Ok(count)
    }

    /// The id of the last event applied.
    pub fn get_last_event_id(&self) -> (r: Result<usize, AppError>)
        ensures
            r matches Ok(n) && n == self.data.last_event_id,
    {
        Ok(self.data.last_event_id)
    }
}

/// How many of `lists` hold `person_id` as a candidate.
pub open spec fn lists_with(lists: Seq<CandidateList>, person_id: PersonId) -> nat
    decreases lists.len(),
{
    if lists.len() == 0 {
        0
    } else {
        lists_with(lists.drop_last(), person_id) + if lists.last().candidates@.contains(person_id) {
            1nat
        } else {
            0nat
        }
    }
}

/// The lists holding a candidate are at most all lists, and none for a
/// person on no list.
pub proof fn lemma_lists_with_bounds(lists: Seq<CandidateList>, person_id: PersonId)
    ensures
        lists_with(lists, person_id) <= lists.len(),
        (forall|i: int| 0 <= i < lists.len() ==> !(#[trigger] lists[i]).candidates@.contains(person_id))
            ==> lists_with(lists, person_id) == 0,
    decreases lists.len(),
{
    if lists.len() > 0 {
        let rest = lists.drop_last();
        lemma_lists_with_bounds(rest, person_id);
        if forall|i: int| 0 <= i < lists.len() ==> !(#[trigger] lists[i]).candidates@.contains(person_id) {
            assert forall|i: int| 0 <= i < rest.len() implies !(#[trigger] rest[i]).candidates@.contains(person_id) by {
                assert(rest[i] == lists[i]);
            }
            assert(lists[lists.len() - 1] == lists.last());
        }
    }
}

/// The candidate lists of `m` that hold `person_id`, by id.
pub open spec fn lists_holding(m: Map<CandidateListId, CandidateList>, person_id: PersonId) -> Set<CandidateListId> {
    m.dom().filter(|k: CandidateListId| m[k].candidates@.contains(person_id))
}

/// The ids among `ks` whose list in `m` holds `person_id`.
spec fn ids_holding(ks: Seq<CandidateListId>, m: Map<CandidateListId, CandidateList>, person_id: PersonId) -> Set<CandidateListId> {
    Set::new(|k: CandidateListId| ks.contains(k) && m[k].candidates@.contains(person_id))
}

proof fn lemma_ids_holding_len(
    ks: Seq<CandidateListId>,
    vs: Seq<CandidateList>,
    m: Map<CandidateListId, CandidateList>,
    person_id: PersonId,
)
    requires
        ks.len() == vs.len(),
        ks.no_duplicates(),
        forall|i: int| 0 <= i < ks.len() ==> m[#[trigger] ks[i]] == vs[i],
    ensures
        ids_holding(ks, m, person_id).finite(),
        ids_holding(ks, m, person_id).len() == lists_with(vs, person_id),
    decreases ks.len(),
{
    broadcast use vstd::set::group_set_axioms;
    if ks.len() == 0 {
        assert(ids_holding(ks, m, person_id) =~= Set::<CandidateListId>::empty());
    } else {
        let ks2 = ks.drop_last();
        let vs2 = vs.drop_last();
        let last = ks.last();
        assert forall|a: int, b: int| 0 <= a < ks2.len() && 0 <= b < ks2.len() && a != b implies ks2[a] != ks2[b] by {
            assert(ks2[a] == ks[a] && ks2[b] == ks[b]);
        }
        assert forall|i: int| 0 <= i < ks2.len() implies m[#[trigger] ks2[i]] == vs2[i] by {
            assert(ks2[i] == ks[i]);
        }
        lemma_ids_holding_len(ks2, vs2, m, person_id);
        assert(!ks2.contains(last)) by {
            if ks2.contains(last) {
                let j = choose|j: int| 0 <= j < ks2.len() && ks2[j] == last;
                assert(ks[j] == ks[ks.len() - 1]);
            }
        }
        assert(m[last] == vs.last()) by {
            assert(m[ks[ks.len() - 1]] == vs[vs.len() - 1]);
        }
        let before = ids_holding(ks2, m, person_id);
        let now = ids_holding(ks, m, person_id);
        assert forall|k: CandidateListId| #[trigger] ks.contains(k) <==> ks2.contains(k) || k == last by {
            if ks.contains(k) && k != last {
                let j = choose|j: int| 0 <= j < ks.len() && ks[j] == k;
                assert(ks2[j] == k);
            }
            if ks2.contains(k) {
                let j = choose|j: int| 0 <= j < ks2.len() && ks2[j] == k;
                assert(ks[j] == k);
            }
            if k == last {
                assert(ks[ks.len() - 1] == k);
            }
        }
        if vs.last().candidates@.contains(person_id) {
            assert(now =~= before.insert(last));
        } else {
            assert(now =~= before);
        }
    }
}

/// The count of lists holding a candidate is the size of the set of lists
/// that hold them, each counted once; at most the number of lists.
pub proof fn lemma_count_is_the_number_of_lists_holding(lists: IdMap<CandidateList>, person_id: PersonId)
    requires
        lists.wf(),
    ensures
        lists_holding(lists.map(), person_id).finite(),
        lists_with(lists.values(), person_id) == lists_holding(lists.map(), person_id).len(),
        lists_holding(lists.map(), person_id).len() <= lists.map().dom().len(),
{
    lists.lemma_wf();
    let ks = lists.keys();
    let m = lists.map();
    assert forall|i: int| 0 <= i < ks.len() implies m[#[trigger] ks[i]] == lists.values()[i] by {}
    lemma_ids_holding_len(ks, lists.values(), m, person_id);
    assert(ids_holding(ks, m, person_id) =~= lists_holding(m, person_id));
    lemma_lists_with_bounds(lists.values(), person_id);
    ks.unique_seq_to_set();
    assert(m.dom() =~= ks.to_set());
}

/// Deleting a candidate list removes it, and only it: afterwards the
/// projection holds no list with that id, every other list stays as it was,
/// and nothing but the lists changes.
pub proof fn lemma_delete_candidate_list_removes_it(o: AppStoreData, n: AppStoreData, id: CandidateListId)
    requires
        applied(o, n, AppEvent::DeleteCandidateList(id)),
    ensures
        !n.candidate_lists.map().contains_key(id),
        forall|k: CandidateListId|
            k != id ==> (#[trigger] n.candidate_lists.map().contains_key(k) <==> o.candidate_lists.map().contains_key(k)),
        forall|k: CandidateListId|
            k != id && #[trigger] o.candidate_lists.map().contains_key(k) ==> n.candidate_lists.map()[k]
                == o.candidate_lists.map()[k],
        n.persons == o.persons,
        n.political_group == o.political_group,
{
}

/// What an event leaves behind, read back from the resulting projection: a
/// created entity is held under its id exactly as given, a deleted one is
/// gone, and an update of a held entity carries the fields the event gives.
pub proof fn lemma_events_read_back(o: AppStoreData, n: AppStoreData, e: AppEvent)
    requires
        applied(o, n, e),
    ensures
        e matches AppEvent::CreatePerson(p) ==> n.persons.map().contains_key(p.id) && n.persons.map()[p.id] == p,
        e matches AppEvent::DeletePerson(id) ==> !n.persons.map().contains_key(id),
        e matches AppEvent::UpdatePerson(p) ==> (o.persons.map().contains_key(p.id) ==> n.persons.map()[p.id] == p),
        e matches AppEvent::UpdatePersonPersonalInfo(info) ==> (o.persons.map().contains_key(info.person_id) ==> {
            let q = n.persons.map()[info.person_id];
            &&& q.name == info.name
            &&& q.first_name == info.first_name
            &&& q.gender == info.gender
            &&& q.bsn == info.bsn
            &&& q.no_bsn_confirmed == info.no_bsn_confirmed
            &&& q.date_of_birth == info.date_of_birth
            &&& q.place_of_residence == info.place_of_residence
            &&& q.country_of_residence == info.country_of_residence
            &&& q.address == o.persons.map()[info.person_id].address
            &&& q.representative == o.persons.map()[info.person_id].representative
        }),
        e matches AppEvent::UpdatePersonAddress { person_id, address, .. } ==> (o.persons.map().contains_key(person_id)
            ==> n.persons.map()[person_id].address == address),
        e matches AppEvent::UpdatePersonRepresentative { person_id, representative, .. } ==> (
        o.persons.map().contains_key(person_id) ==> n.persons.map()[person_id].representative == representative),
        e matches AppEvent::CreateCandidateList(cl) ==> n.candidate_lists.map().contains_key(cl.id)
            && n.candidate_lists.map()[cl.id] == cl,
        e matches AppEvent::DeleteCandidateList(id) ==> !n.candidate_lists.map().contains_key(id),
        e matches AppEvent::UpdateCandidateListOrder { list_id, candidates, .. } ==> (
        o.candidate_lists.map().contains_key(list_id) ==> n.candidate_lists.map()[list_id].candidates@ == candidates@),
        e matches AppEvent::UpdateCandidateListDistricts { list_id, electoral_districts, .. } ==> (
        o.candidate_lists.map().contains_key(list_id) ==> n.candidate_lists.map()[list_id].electoral_districts@
            == electoral_districts@),
        e matches AppEvent::CreateAuthorisedAgent(a) ==> n.authorised_agents.map().contains_key(a.id)
            && n.authorised_agents.map()[a.id] == a,
        e matches AppEvent::DeleteAuthorisedAgent(id) ==> !n.authorised_agents.map().contains_key(id),
        e matches AppEvent::CreateListSubmitter(ls) ==> n.list_submitters.map().contains_key(ls.id)
            && n.list_submitters.map()[ls.id] == ls,
        e matches AppEvent::DeleteListSubmitter(id) ==> !n.list_submitters.map().contains_key(id),
        e matches AppEvent::CreateSubstituteSubmitter(ss) ==> n.substitute_submitters.map().contains_key(ss.id)
            && n.substitute_submitters.map()[ss.id] == ss,
        e matches AppEvent::DeleteSubstituteSubmitter(id) ==> !n.substitute_submitters.map().contains_key(id),
        e matches AppEvent::UpdatePoliticalGroup(pg) ==> n.political_group == pg,
{
}

} // verus!
