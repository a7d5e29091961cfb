//! The projection of a political group's stream as the central electoral
//! committee examines it: the imported data, the paper corrections on top
//! of it, the omissions found, the committee's own corrections and the BRP
//! checks.

use vstd::prelude::*;

use crate::app_store::changed_at;
use crate::csb_main::CsbUser;
use crate::id_map::IdMap;
use crate::pg_data::{copied_log, is_initial, lists_alike, pg_applied, put_at, same_event, same_state, PgState};
use crate::scrapped::{same_omission, unresolved};
use crate::store::StoreData;
use crate::stream::Scope;
use crate::entities::{same_list, CandidateList, CandidateListId, ElectoralDistrict, FullName, ListSubmitter, PersonId};
use crate::error::AppError;
use crate::event::{EventHash, StoreEvent};
use crate::pg_data::{NameAuthorisation, Person, PgEvent, PgStoreData, PoliticalGroup};
use crate::scrapped::{Omission, OmissionCategory, OmissionId, OmissionStatus};
use crate::stream::StreamId;

verus! {

/// What the BRP (the population register) said about one field of a
/// candidate, by its code.
#[derive(Debug, PartialEq, Eq)]
pub struct BrpFinding(pub String);

impl Clone for BrpFinding {
    fn clone(&self) -> (r: Self)
        ensures
            r == *self,
    {
        BrpFinding(self.0.clone())
    }
}

/// How far the BRP sweep for a stream got.
#[derive(Clone, Copy, Debug, PartialEq, Eq, Structural)]
pub enum BrpStatus {
    NotStarted,
    Running,
    Finished,
}

/// A committee correction ("ambtshalve") of one field of a candidate.
#[derive(Debug, PartialEq, Eq)]
pub enum PersonCorrection {
    Initials(String),
    LastName(String),
    DateOfBirth(String),
    PlaceOfResidence(String),
}

impl Clone for PersonCorrection {
    fn clone(&self) -> (r: Self)
        ensures
            r == *self,
    {
        match self {
            PersonCorrection::Initials(v) => PersonCorrection::Initials(v.clone()),
            PersonCorrection::LastName(v) => PersonCorrection::LastName(v.clone()),
            PersonCorrection::DateOfBirth(v) => PersonCorrection::DateOfBirth(v.clone()),
            PersonCorrection::PlaceOfResidence(v) => PersonCorrection::PlaceOfResidence(v.clone()),
        }
    }
}

/// A committee correction: of the appellation, or of a candidate.
#[derive(Debug)]
pub enum Correction {
    Appellation(String),
    Person(PersonId, PersonCorrection),
}

/// Which field a correction is of.
pub open spec fn field_of(c: PersonCorrection) -> int {
    match c {
        PersonCorrection::Initials(_) => 0,
        PersonCorrection::LastName(_) => 1,
        PersonCorrection::DateOfBirth(_) => 2,
        PersonCorrection::PlaceOfResidence(_) => 3,
    }
}

fn same_field(a: &PersonCorrection, b: &PersonCorrection) -> (r: bool)
    ensures
        r == (field_of(*a) == field_of(*b)),
{
    match (a, b) {
        (PersonCorrection::Initials(_), PersonCorrection::Initials(_)) => true,
        (PersonCorrection::LastName(_), PersonCorrection::LastName(_)) => true,
        (PersonCorrection::DateOfBirth(_), PersonCorrection::DateOfBirth(_)) => true,
        (PersonCorrection::PlaceOfResidence(_), PersonCorrection::PlaceOfResidence(_)) => true,
        _ => false,
    }
}

/// Whether an optional text holds exactly `v`.
pub open spec fn holds(o: Option<String>, v: Seq<char>) -> bool {
    o matches Some(t) && t@ == v
}

/// Whether the correction gives the person a value other than the one it has.
pub open spec fn changes(c: PersonCorrection, p: Person) -> bool {
    match c {
        PersonCorrection::Initials(v) => v@ != p.name.initials@,
        PersonCorrection::LastName(v) => v@ != p.name.last_name@,
        PersonCorrection::DateOfBirth(v) => !holds(p.personal_data.date_of_birth, v@),
        PersonCorrection::PlaceOfResidence(v) => !holds(p.personal_data.place_of_residence, v@),
    }
}

fn holds_text(o: &Option<String>, v: &String) -> (r: bool)
    ensures
        r == holds(*o, v@),
{
    match o {
        Some(t) => *t == *v,
        None => false,
    }
}

impl PersonCorrection {
    /// Whether this correction gives `person` a value other than the one it
    /// has.
    pub fn changes(&self, person: &Person) -> (r: bool)
        ensures
            r == changes(*self, *person),
    {
        match self {
            PersonCorrection::Initials(v) => !(*v == person.name.initials),
            PersonCorrection::LastName(v) => !(*v == person.name.last_name),
            PersonCorrection::DateOfBirth(v) => !holds_text(&person.personal_data.date_of_birth, v),
            PersonCorrection::PlaceOfResidence(v) => !holds_text(&person.personal_data.place_of_residence, v),
        }
    }
}

/// The person with the correction applied.
pub open spec fn corrected(p: Person, c: PersonCorrection) -> Person {
    match c {
        PersonCorrection::Initials(v) => Person { name: crate::entities::FullName { initials: v, ..p.name }, ..p },
        PersonCorrection::LastName(v) => Person { name: crate::entities::FullName { last_name: v, ..p.name }, ..p },
        PersonCorrection::DateOfBirth(v) => Person {
            personal_data: crate::pg_data::PersonalData { date_of_birth: Some(v), ..p.personal_data },
            ..p
        },
        PersonCorrection::PlaceOfResidence(v) => Person {
            personal_data: crate::pg_data::PersonalData { place_of_residence: Some(v), ..p.personal_data },
            ..p
        },
    }
}

/// The person with every correction of `cs` applied, in order.
pub open spec fn corrected_by(p: Person, cs: Seq<PersonCorrection>) -> Person
    decreases cs.len(),
{
    if cs.len() == 0 {
        p
    } else {
        corrected(corrected_by(p, cs.drop_last()), cs.last())
    }
}

/// Keeps the corrections of other fields than `c`'s.
pub open spec fn other_field(c: PersonCorrection) -> spec_fn(PersonCorrection) -> Option<PersonCorrection> {
    |d: PersonCorrection| if field_of(d) != field_of(c) { Some(d) } else { None }
}

/// The committee's corrections of one candidate: at most one per field.
#[derive(Debug)]
pub struct PersonCorrectionDelta {
    corrections: Vec<PersonCorrection>,
}

impl View for PersonCorrectionDelta {
    type V = Seq<PersonCorrection>;

    /// The corrections, in the order their fields were first corrected.
    closed spec fn view(&self) -> Seq<PersonCorrection> {
        self.corrections@
    }
}

/// No field is corrected twice.
pub open spec fn one_per_field(cs: Seq<PersonCorrection>) -> bool {
    forall|i: int, j: int| 0 <= i < j < cs.len() ==> field_of(#[trigger] cs[i]) != field_of(#[trigger] cs[j])
}

/// `cs` with the correction of `c`'s field replaced by `c`, or `c` added.
pub open spec fn with_correction(cs: Seq<PersonCorrection>, c: PersonCorrection) -> Seq<PersonCorrection> {
    if exists|i: int| 0 <= i < cs.len() && field_of(#[trigger] cs[i]) == field_of(c) {
        cs.update(choose|i: int| 0 <= i < cs.len() && field_of(#[trigger] cs[i]) == field_of(c), c)
    } else {
        cs.push(c)
    }
}

impl PersonCorrectionDelta {
    /// No corrections yet.
    pub fn new() -> (d: Self)
        ensures
            d@ == Seq::<PersonCorrection>::empty(),
    {
        PersonCorrectionDelta { corrections: Vec::new() }
    }

    /// Record `correction`, replacing an earlier one of the same field.
    pub fn add_correction(&mut self, correction: PersonCorrection)
        requires
            one_per_field(old(self)@),
        ensures
            final(self)@ == with_correction(old(self)@, correction),
            one_per_field(final(self)@),
    {
        let ghost cs = self.corrections@;
        let mut i: usize = 0;
        while i < self.corrections.len()
            invariant
                i <= cs.len(),
                self.corrections@ == cs,
                cs == old(self)@,
                one_per_field(cs),
                forall|j: int| 0 <= j < i ==> field_of(#[trigger] cs[j]) != field_of(correction),
            decreases cs.len() - i,
        {
            if same_field(&self.corrections[i], &correction) {
                proof {
                    let k = choose|k: int| 0 <= k < cs.len() && field_of(#[trigger] cs[k]) == field_of(correction);
                    if k != i {
                        if k < i {
                            assert(field_of(cs[k]) != field_of(correction));
                        } else {
                            assert(field_of(cs[i as int]) != field_of(cs[k]));
                        }
                    }
                }
                self.corrections.set(i, correction);
                proof {
                    let n = self.corrections@;
                    assert forall|a: int, b: int| 0 <= a < b < n.len() implies field_of(#[trigger] n[a]) != field_of(
                        #[trigger] n[b],
                    ) by {
                        if a == i as int {
                            assert(field_of(cs[b]) != field_of(cs[a]));
                        } else if b == i as int {
                            assert(field_of(cs[a]) != field_of(cs[b]));
                        } else {
                            assert(n[a] == cs[a] && n[b] == cs[b]);
                        }
                    }
                }
                return;
            }
            i = i + 1;
        }
        self.corrections.push(correction);
        proof {
            let n = self.corrections@;
            assert forall|a: int, b: int| 0 <= a < b < n.len() implies field_of(#[trigger] n[a]) != field_of(
                #[trigger] n[b],
            ) by {
                if b == cs.len() {
                    assert(n[a] == cs[a]);
                } else {
                    assert(n[a] == cs[a] && n[b] == cs[b]);
                }
            }
        }
    }

    /// Drop the correction of `correction`'s field, if any.
    pub fn remove_correction(&mut self, correction: &PersonCorrection)
        requires
            one_per_field(old(self)@),
        ensures
            final(self)@ == old(self)@.filter_map(other_field(*correction)),
            one_per_field(final(self)@),
    {
        let ghost cs = self.corrections@;
        let mut kept: Vec<PersonCorrection> = Vec::new();
        let mut i: usize = 0;
        while i < self.corrections.len()
            invariant
                i <= cs.len(),
                self.corrections@ == cs,
                cs == old(self)@,
                kept@ == cs.take(i as int).filter_map(other_field(*correction)),
            decreases cs.len() - i,
        {
            proof {
                cs.lemma_filter_map_take_succ(other_field(*correction), i as int);
            }
            if !same_field(&self.corrections[i], correction) {
                kept.push(self.corrections[i].clone());
            }
            i = i + 1;
        }
        assert(cs.take(cs.len() as int) =~= cs);
        self.corrections = kept;
        proof {
            lemma_filter_keeps_one_per_field(cs, *correction);
        }
    }

    /// The corrections, in the order their fields were first corrected.
    pub fn get_corrections(&self) -> (r: &Vec<PersonCorrection>)
        ensures
            r@ == self@,
    {
        &self.corrections
    }

    /// `person` with the corrections applied.
    pub fn apply(&self, person: Person) -> (r: Person)
        ensures
            r == corrected_by(person, self@),
    {
        let mut p = person;
        let mut i: usize = 0;
        while i < self.corrections.len()
            invariant
                i <= self@.len(),
                p == corrected_by(person, self@.take(i as int)),
            decreases self@.len() - i,
        {
            assert(self@.take(i + 1).drop_last() =~= self@.take(i as int));
            p = match &self.corrections[i] {
                PersonCorrection::Initials(v) => {
                    Person { name: crate::entities::FullName { initials: v.clone(), ..p.name }, ..p }
                },
                PersonCorrection::LastName(v) => {
                    Person { name: crate::entities::FullName { last_name: v.clone(), ..p.name }, ..p }
                },
                PersonCorrection::DateOfBirth(v) => Person {
                    personal_data: crate::pg_data::PersonalData { date_of_birth: Some(v.clone()), ..p.personal_data },
                    ..p
                },
                PersonCorrection::PlaceOfResidence(v) => Person {
                    personal_data: crate::pg_data::PersonalData {
                        place_of_residence: Some(v.clone()),
                        ..p.personal_data
                    },
                    ..p
                },
            };
            i = i + 1;
        }
        assert(self@.take(self@.len() as int) =~= self@);
        p
    }
}

/// Keeping a subsequence keeps the fields apart.
proof fn lemma_filter_keeps_one_per_field(cs: Seq<PersonCorrection>, c: PersonCorrection)
    requires
        one_per_field(cs),
    ensures
        one_per_field(cs.filter_map(other_field(c))),
    decreases cs.len(),
{
    if cs.len() > 0 {
        let rest = cs.drop_last();
        assert forall|i: int, j: int| 0 <= i < j < rest.len() implies field_of(#[trigger] rest[i]) != field_of(
            #[trigger] rest[j],
        ) by {
            assert(rest[i] == cs[i] && rest[j] == cs[j]);
        }
        lemma_filter_keeps_one_per_field(rest, c);
        let f = cs.filter_map(other_field(c));
        let fr = rest.filter_map(other_field(c));
        if field_of(cs.last()) != field_of(c) {
            assert(f == fr + seq![cs.last()]);
            assert forall|i: int, j: int| 0 <= i < j < f.len() implies field_of(#[trigger] f[i]) != field_of(
                #[trigger] f[j],
            ) by {
                if j == f.len() - 1 {
                    assert(fr.contains(f[i]));
                    rest.lemma_filter_map_contains(other_field(c), f[i]);
                    let t = choose|t: PersonCorrection| #[trigger] rest.contains(t) && other_field(c)(t) == Some(f[i]);
                    let k = choose|k: int| 0 <= k < rest.len() && rest[k] == t;
                    assert(cs[k] == t);
                    assert(field_of(cs[k]) != field_of(cs[cs.len() - 1]));
                } else {
                    assert(f[i] == fr[i] && f[j] == fr[j]);
                }
            }
        }
    }
}

/// Actions of the central electoral committee on a political group's
/// imported stream.
pub enum CsbAction {
    /// Import a submitted candidate-list package, identified by the chain hash
    /// of the event it was produced from, with the snapshot of the source
    /// projection at that event.
    Import { hash: EventHash, source_stream_id: StreamId, snapshot: Box<PgStoreData> },
    /// Create an empty store without importing anything.
    CreateEmpty,
    /// Delete the political group's stream.
    Delete,
    /// An event of the political group's own kind, applied to the
    /// paper-corrected projection.
    PaperCorrectedUpdate(Box<PgEvent>),
    SetFinished(bool),
    CreateOmission(Omission),
    UpdateOmission(Omission),
    DeleteOmission { omission_id: OmissionId },
    /// Whether an omission was recovered ("hersteld").
    SetOmissionStatus { omission_id: OmissionId, status: OmissionStatus },
    UpdateCorrection(Correction),
    /// No findings means checked, with the BRP agreeing on every field.
    BrpPersonChecked { person: PersonId, findings: Vec<BrpFinding> },
    SetBrpStatus(BrpStatus),
}

/// An event on an imported stream: the acting committee member and what
/// they did.
pub struct CsbEvent {
    /// The committee member that triggered the event.
    pub user: CsbUser,
    pub action: CsbAction,
}

impl CsbAction {
    /// Attach the acting committee member, producing the event to persist.
    pub fn by_user(self, user: CsbUser) -> (e: CsbEvent)
        ensures
            e == (CsbEvent { user, action: self }),
    {
        CsbEvent { user, action: self }
    }
}

/// The audit-log category of an action.
pub open spec fn csb_category(a: CsbAction) -> &'static str {
    match a {
        CsbAction::Import { .. } | CsbAction::CreateEmpty => "import",
        CsbAction::Delete => "delete",
        CsbAction::PaperCorrectedUpdate(_) => "paper_correction",
        CsbAction::SetFinished(_) => "set_finished",
        CsbAction::CreateOmission(_)
        | CsbAction::UpdateOmission(_)
        | CsbAction::DeleteOmission { .. }
        | CsbAction::SetOmissionStatus { .. } => "omission",
        CsbAction::UpdateCorrection(_) => "correction",
        CsbAction::BrpPersonChecked { .. } | CsbAction::SetBrpStatus(_) => "brp_validation",
    }
}

impl CsbEvent {
    /// The committee member that triggered the event.
    pub fn csb_user(&self) -> (r: &CsbUser)
        ensures
            *r == self.user,
    {
        &self.user
    }

    /// A stable category key for filtering in the audit log.
    pub fn category(&self) -> (r: &'static str)
        ensures
            r == csb_category(self.action),
    {
        match &self.action {
            CsbAction::Import { .. } | CsbAction::CreateEmpty => "import",
            CsbAction::Delete => "delete",
            CsbAction::PaperCorrectedUpdate(_) => "paper_correction",
            CsbAction::SetFinished(_) => "set_finished",
            CsbAction::CreateOmission(_)
            | CsbAction::UpdateOmission(_)
            | CsbAction::DeleteOmission { .. }
            | CsbAction::SetOmissionStatus { .. } => "omission",
            CsbAction::UpdateCorrection(_) => "correction",
            CsbAction::BrpPersonChecked { .. } | CsbAction::SetBrpStatus(_) => "brp_validation",
        }
    }
}

/// The candidate whose BRP-checked data an event of the political group's
/// kind changes. The correspondence address and the representative are not
/// compared with the BRP, so changing them names nobody.
pub open spec fn candidate_changed_by(e: PgEvent) -> Option<PersonId> {
    match e {
        PgEvent::CreatePerson(p) => Some(p.id),
        PgEvent::UpdatePerson(p) => Some(p.id),
        PgEvent::CreatePersonPersonalData { person_id, .. } => Some(person_id),
        PgEvent::UpdatePersonPersonalData { person_id, .. } => Some(person_id),
        PgEvent::DeletePerson { person_id } => Some(person_id),
        _ => None,
    }
}

fn changed_candidate(e: &PgEvent) -> (r: Option<PersonId>)
    ensures
        r == candidate_changed_by(*e),
{
    match e {
        PgEvent::CreatePerson(p) => Some(p.id),
        PgEvent::UpdatePerson(p) => Some(p.id),
        PgEvent::CreatePersonPersonalData { person_id, .. } => Some(*person_id),
        PgEvent::UpdatePersonPersonalData { person_id, .. } => Some(*person_id),
        PgEvent::DeletePerson { person_id } => Some(*person_id),
        _ => None,
    }
}

/// The omission with its last change at `at`.
pub open spec fn stamped(o: Omission, at: i64) -> Omission {
    Omission { updated_at: at, ..o }
}

/// What an action does to the omissions, at time `at`.
pub open spec fn omissions_applied(o: Map<OmissionId, Omission>, n: Map<OmissionId, Omission>, a: CsbAction, at: i64) -> bool {
    match a {
        CsbAction::CreateOmission(x) => put_at(o, n, x.id, |y: Omission| same_omission(y, stamped(x, at))),
        CsbAction::UpdateOmission(x) => changed_at(o, n, x.id, |p: Omission, y: Omission| same_omission(y, stamped(x, at))),
        CsbAction::DeleteOmission { omission_id } => n == o.remove(omission_id),
        CsbAction::SetOmissionStatus { omission_id, status } => changed_at(
            o,
            n,
            omission_id,
            |p: Omission, y: Omission| same_omission(y, Omission { status, updated_at: at, ..p }),
        ),
        _ => n == o,
    }
}

/// What the BRP findings are after an action: a check records them, and a
/// change to a candidate's checked data forgets theirs.
pub open spec fn findings_after(o: Map<PersonId, Seq<BrpFinding>>, a: CsbAction) -> Map<PersonId, Seq<BrpFinding>> {
    match a {
        CsbAction::BrpPersonChecked { person, findings } => o.insert(person, findings@),
        CsbAction::UpdateCorrection(Correction::Person(person, _)) => o.remove(person),
        CsbAction::PaperCorrectedUpdate(e) => match candidate_changed_by(*e) {
            Some(person) => o.remove(person),
            None => o,
        },
        _ => o,
    }
}

/// The committee's corrections of one candidate after correcting it with
/// `c` against the paper-corrected projection `paper`. A correction to the
/// value the candidate already has undoes the correction of that field; a
/// candidate left without corrections is dropped; an unknown candidate is
/// not corrected.
pub open spec fn person_corrections_after(
    o: Map<PersonId, Seq<PersonCorrection>>,
    paper: PgState,
    person: PersonId,
    c: PersonCorrection,
) -> Map<PersonId, Seq<PersonCorrection>> {
    if paper.person_map().contains_key(person) && changes(c, paper.person_map()[person]) {
        o.insert(
            person,
            with_correction(
                if o.contains_key(person) {
                    o[person]
                } else {
                    Seq::empty()
                },
                c,
            ),
        )
    } else if o.contains_key(person) {
        let rest = o[person].filter_map(other_field(c));
        if rest.len() == 0 {
            o.remove(person)
        } else {
            o.insert(person, rest)
        }
    } else {
        o
    }
}

/// The committee's corrections of candidates after an action.
pub open spec fn corrections_after(o: Map<PersonId, Seq<PersonCorrection>>, paper: PgState, a: CsbAction) -> Map<
    PersonId,
    Seq<PersonCorrection>,
> {
    match a {
        CsbAction::UpdateCorrection(Correction::Person(person, c)) => person_corrections_after(o, paper, person, c),
        _ => o,
    }
}

/// The committee's correction of the appellation after an action: none
/// when it corrects to the appellation the paper-corrected projection
/// already has.
pub open spec fn appellation_after(o: Option<String>, paper: PgState, a: CsbAction) -> Option<String> {
    match a {
        CsbAction::UpdateCorrection(Correction::Appellation(v)) => if holds(paper.group().appellation, v@) {
            None
        } else {
            Some(v)
        },
        _ => o,
    }
}

/// The import event that opens the paper-corrected projection's log.
pub open spec fn import_marker(e: StoreEvent<CsbEvent>, source: EventHash) -> StoreEvent<PgEvent> {
    StoreEvent { event_id: e.event_id, payload: PgEvent::Import { hash: source }, created_at: e.created_at, hash: e.hash }
}

/// What an event does to the imported and the paper-corrected projections.
/// An import replaces both with the snapshot, its event log included, the
/// corrected one's log then recording the import; a paper correction applies
/// its event to the corrected projection alone.
pub open spec fn projections_applied(
    imported: PgStoreData,
    paper: PgStoreData,
    new_imported: PgStoreData,
    new_paper: PgStoreData,
    e: StoreEvent<CsbEvent>,
) -> bool {
    match e.payload.action {
        CsbAction::Import { hash, snapshot, .. } => {
            &&& same_state(new_imported.state(), snapshot.state())
            &&& copied_log(snapshot.log(), new_imported.log())
            &&& same_state(new_paper.state(), snapshot.state())
            &&& new_paper.log().len() == snapshot.log().len() + 1
            &&& copied_log(snapshot.log(), new_paper.log().drop_last())
            &&& new_paper.log().last() == import_marker(e, hash)
        },
        CsbAction::PaperCorrectedUpdate(pe) => {
            &&& new_imported == imported
            &&& pg_applied(paper.state(), new_paper.state(), *pe, e.created_at)
            &&& new_paper.log().len() == paper.log().len() + 1
            &&& new_paper.log().drop_last() == paper.log()
            &&& new_paper.log().last().event_id == e.event_id
            &&& new_paper.log().last().created_at == e.created_at
            &&& new_paper.log().last().hash == e.hash
            &&& same_event(*pe, new_paper.log().last().payload)
        },
        _ => new_imported == imported && new_paper == paper,
    }
}

/// What the projection derives from its events.
struct CsbState {
    imported_data: PgStoreData,
    paper_corrected_data: PgStoreData,
    is_examination_finished: bool,
    is_deleted: bool,
    omissions: IdMap<Omission>,
    /// A checked candidate is present even with no findings.
    brp_findings: IdMap<Vec<BrpFinding>>,
    brp_validation_status: BrpStatus,
    csb_corrected_persons: IdMap<PersonCorrectionDelta>,
    csb_corrected_appellation: Option<String>,
}

/// The projection of one imported stream, as the committee examines it.
pub struct CsbStoreData {
    state: CsbState,
    events: Vec<StoreEvent<CsbEvent>>,
}

impl CsbState {
    spec fn wf(&self) -> bool {
        &&& self.omissions.wf()
        &&& keyed_by_id(self.omissions.map())
        &&& self.brp_findings.wf()
        &&& deltas_wf(self.csb_corrected_persons)
    }

    spec fn findings(&self) -> Map<PersonId, Seq<BrpFinding>> {
        findings_view(self.brp_findings.map())
    }

    spec fn corrections(&self) -> Map<PersonId, Seq<PersonCorrection>> {
        delta_view(self.csb_corrected_persons.map())
    }

    fn empty() -> (s: Self)
        ensures
            s.wf(),
            s.imported_data.log() == Seq::<StoreEvent<PgEvent>>::empty(),
            s.paper_corrected_data.log() == Seq::<StoreEvent<PgEvent>>::empty(),
            is_initial(s.imported_data.state()),
            is_initial(s.paper_corrected_data.state()),
            !s.is_examination_finished,
            !s.is_deleted,
            s.omissions.map() == Map::<OmissionId, Omission>::empty(),
            s.findings() == Map::<PersonId, Seq<BrpFinding>>::empty(),
            s.brp_validation_status == BrpStatus::NotStarted,
            s.corrections() == Map::<PersonId, Seq<PersonCorrection>>::empty(),
            s.csb_corrected_persons.keys() == Seq::<PersonId>::empty(),
            s.omissions.keys() == Seq::<OmissionId>::empty(),
            s.csb_corrected_appellation is None,
    {
        let s = CsbState {
            imported_data: PgStoreData::new(),
            paper_corrected_data: PgStoreData::new(),
            is_examination_finished: false,
            is_deleted: false,
            omissions: IdMap::new(),
            brp_findings: IdMap::new(),
            brp_validation_status: BrpStatus::NotStarted,
            csb_corrected_persons: IdMap::new(),
            csb_corrected_appellation: None,
        };
        assert(s.findings() =~= Map::<PersonId, Seq<BrpFinding>>::empty());
        assert(s.corrections() =~= Map::<PersonId, Seq<PersonCorrection>>::empty());
        s
    }
}

/// Whether the examination is finished after an action.
pub open spec fn finished_after(o: bool, a: CsbAction) -> bool {
    match a {
        CsbAction::SetFinished(v) => v,
        _ => o,
    }
}

/// Whether the stream is deleted after an action.
pub open spec fn deleted_after(o: bool, a: CsbAction) -> bool {
    o || a is Delete
}

/// How far the BRP sweep got after an action.
pub open spec fn status_after(o: BrpStatus, a: CsbAction) -> BrpStatus {
    match a {
        CsbAction::SetBrpStatus(v) => v,
        _ => o,
    }
}

/// The corrections of each candidate, by candidate.
pub open spec fn delta_view(m: Map<PersonId, PersonCorrectionDelta>) -> Map<PersonId, Seq<PersonCorrection>> {
    m.map_values(|d: PersonCorrectionDelta| d@)
}

/// The findings of each checked candidate, by candidate.
pub open spec fn findings_view(m: Map<PersonId, Vec<BrpFinding>>) -> Map<PersonId, Seq<BrpFinding>> {
    m.map_values(|v: Vec<BrpFinding>| v@)
}

/// Every candidate with corrections has at least one, and at most one per
/// field.
pub open spec fn deltas_wf(m: IdMap<PersonCorrectionDelta>) -> bool {
    &&& m.wf()
    &&& forall|k: PersonId| #[trigger] m.map().contains_key(k) ==> {
        &&& one_per_field(m.map()[k]@)
        &&& m.map()[k]@.len() > 0
    }
}

/// Recording a correction leaves at least one.
proof fn lemma_with_correction_nonempty(cs: Seq<PersonCorrection>, c: PersonCorrection)
    ensures
        with_correction(cs, c).len() > 0,
{
    if exists|i: int| 0 <= i < cs.len() && field_of(#[trigger] cs[i]) == field_of(c) {
        let i = choose|i: int| 0 <= i < cs.len() && field_of(#[trigger] cs[i]) == field_of(c);
        assert(cs.update(i, c).len() == cs.len());
    }
}

/// Each omission is kept under its own id.
pub open spec fn keyed_by_id(m: Map<OmissionId, Omission>) -> bool {
    forall|k: OmissionId| #[trigger] m.contains_key(k) ==> m[k].id == k
}

/// Forget what the BRP said about a candidate.
fn forget_brp_check(findings: &mut IdMap<Vec<BrpFinding>>, person: PersonId)
    requires
        old(findings).wf(),
    ensures
        final(findings).wf(),
        findings_view(final(findings).map()) == findings_view(old(findings).map()).remove(person),
{
    let _ = findings.remove(person);
    assert(findings_view(findings.map()) =~= findings_view(old(findings).map()).remove(person));
}

fn copy_findings(v: &Vec<BrpFinding>) -> (r: Vec<BrpFinding>)
    ensures
        r@ == v@,
{
    let mut r: Vec<BrpFinding> = Vec::new();
    let mut i: usize = 0;
    while i < v.len()
        invariant
            i <= v@.len(),
            r@ == v@.take(i as int),
        decreases v@.len() - i,
    {
        r.push(v[i].clone());
        assert(r@ =~= v@.take(i + 1));
        i = i + 1;
    }
    assert(v@.take(v@.len() as int) =~= v@);
    r
}

/// Record what the BRP said about a candidate.
fn record_brp_check(findings: &mut IdMap<Vec<BrpFinding>>, person: PersonId, found: &Vec<BrpFinding>)
    requires
        old(findings).wf(),
    ensures
        final(findings).wf(),
        findings_view(final(findings).map()) == findings_view(old(findings).map()).insert(person, found@),
{
    findings.insert(person, copy_findings(found));
    assert(findings_view(findings.map()) =~= findings_view(old(findings).map()).insert(person, found@));
}

/// Record an omission, stamped with `at`.
fn create_omission(omissions: &mut IdMap<Omission>, o: &Omission, at: i64)
    requires
        old(omissions).wf(),
        keyed_by_id(old(omissions).map()),
    ensures
        final(omissions).wf(),
        keyed_by_id(final(omissions).map()),
        put_at(old(omissions).map(), final(omissions).map(), o.id, |y: Omission| same_omission(y, stamped(*o, at))),
{
    let mut c = o.duplicate();
    c.updated_at = at;
    omissions.insert(c.id, c);
}

/// Replace a recorded omission, stamped with `at`; an unknown one is ignored.
fn update_omission(omissions: &mut IdMap<Omission>, o: &Omission, at: i64)
    requires
        old(omissions).wf(),
        keyed_by_id(old(omissions).map()),
    ensures
        final(omissions).wf(),
        keyed_by_id(final(omissions).map()),
        changed_at(
            old(omissions).map(),
            final(omissions).map(),
            o.id,
            |p: Omission, y: Omission| same_omission(y, stamped(*o, at)),
        ),
{
    if omissions.contains_key(o.id) {
        let mut c = o.duplicate();
        c.updated_at = at;
        omissions.insert(c.id, c);
        assert(omissions.map().dom() =~= old(omissions).map().dom());
    }
}

/// Record whether an omission was recovered, stamped with `at`; an unknown
/// one is ignored.
fn set_omission_status(omissions: &mut IdMap<Omission>, id: OmissionId, status: OmissionStatus, at: i64)
    requires
        old(omissions).wf(),
        keyed_by_id(old(omissions).map()),
    ensures
        final(omissions).wf(),
        keyed_by_id(final(omissions).map()),
        changed_at(
            old(omissions).map(),
            final(omissions).map(),
            id,
            |p: Omission, y: Omission| same_omission(y, Omission { status, updated_at: at, ..p }),
        ),
{
    let found = match omissions.get(id) {
        Some(x) => {
            let mut c = x.duplicate();
            c.status = status;
            c.updated_at = at;
            Some(c)
        },
        None => None,
    };
    match found {
        Some(c) => {
            omissions.insert(id, c);
            assert(omissions.map().dom() =~= old(omissions).map().dom());
        },
        None => {},
    }
}

/// Correct a candidate against the paper-corrected projection `paper`.
fn apply_person_correction(
    deltas: &mut IdMap<PersonCorrectionDelta>,
    paper: &PgStoreData,
    person: PersonId,
    c: &PersonCorrection,
)
    requires
        deltas_wf(*old(deltas)),
    ensures
        deltas_wf(*final(deltas)),
        delta_view(final(deltas).map()) == person_corrections_after(
            delta_view(old(deltas).map()),
            paper.state(),
            person,
            *c,
        ),
{
    let ghost o = delta_view(old(deltas).map());
    let changed = match paper.persons().get(person) {
        Some(p) => c.changes(p),
        None => false,
    };
    if changed {
        let removed = deltas.remove(person);
        let mut d = match removed {
            Some(d) => d,
            None => PersonCorrectionDelta::new(),
        };
        let ghost before = d@;
        assert(before == if o.contains_key(person) { o[person] } else { Seq::<PersonCorrection>::empty() });
        d.add_correction(c.clone());
        proof {
            lemma_with_correction_nonempty(before, *c);
        }
        deltas.insert(person, d);
        assert(delta_view(deltas.map()) =~= person_corrections_after(o, paper.state(), person, *c));
    } else {
        match deltas.remove(person) {
            Some(mut d) => {
                d.remove_correction(c);
                if d.get_corrections().len() > 0 {
                    deltas.insert(person, d);
                    assert(delta_view(deltas.map()) =~= person_corrections_after(o, paper.state(), person, *c));
                } else {
                    assert(delta_view(deltas.map()) =~= person_corrections_after(o, paper.state(), person, *c));
                }
            },
            None => {
                assert(delta_view(deltas.map()) =~= person_corrections_after(o, paper.state(), person, *c));
            },
        }
    }
}

impl CsbState {
    /// Apply an event's action.
    fn apply_action(&mut self, e: &StoreEvent<CsbEvent>)
        requires
            old(self).wf(),
        ensures
            final(self).wf(),
            projections_applied(
                old(self).imported_data,
                old(self).paper_corrected_data,
                final(self).imported_data,
                final(self).paper_corrected_data,
                *e,
            ),
            final(self).is_examination_finished == finished_after(old(self).is_examination_finished, e.payload.action),
            final(self).is_deleted == deleted_after(old(self).is_deleted, e.payload.action),
            omissions_applied(old(self).omissions.map(), final(self).omissions.map(), e.payload.action, e.created_at),
            final(self).findings() == findings_after(old(self).findings(), e.payload.action),
            final(self).brp_validation_status == status_after(old(self).brp_validation_status, e.payload.action),
            final(self).corrections() == corrections_after(
                old(self).corrections(),
                old(self).paper_corrected_data.state(),
                e.payload.action,
            ),
            final(self).csb_corrected_appellation == appellation_after(
                old(self).csb_corrected_appellation,
                old(self).paper_corrected_data.state(),
                e.payload.action,
            ),
    {
        match &e.payload.action {
            CsbAction::Import { hash, snapshot, .. } => {
                self.imported_data = snapshot.copy_with_log();
                let mut paper = snapshot.copy_with_log();
                let ghost before = paper.log();
                let marker = StoreEvent {
                    event_id: e.event_id,
                    payload: PgEvent::Import { hash: *hash },
                    created_at: e.created_at,
                    hash: e.hash,
                };
                paper.apply(marker);
                assert(paper.log().drop_last() =~= before);
                self.paper_corrected_data = paper;
            },
            CsbAction::CreateEmpty => {},
            CsbAction::Delete => {
                self.is_deleted = true;
            },
            CsbAction::PaperCorrectedUpdate(pe) => {
                match changed_candidate(pe) {
                    Some(person) => forget_brp_check(&mut self.brp_findings, person),
                    None => {},
                }
                let payload = pe.duplicate();
                let ghost before = self.paper_corrected_data;
                self.paper_corrected_data.apply(
                    StoreEvent { event_id: e.event_id, payload, created_at: e.created_at, hash: e.hash },
                );
                proof {
                    crate::pg_data::lemma_same_event_same_effect(
                        before.state(),
                        self.paper_corrected_data.state(),
                        **pe,
                        payload,
                        e.created_at,
                    );
                    assert(self.paper_corrected_data.log().drop_last() =~= before.log());
                }
            },
            CsbAction::SetFinished(v) => {
                self.is_examination_finished = *v;
            },
            CsbAction::CreateOmission(o) => create_omission(&mut self.omissions, o, e.created_at),
            CsbAction::UpdateOmission(o) => update_omission(&mut self.omissions, o, e.created_at),
            CsbAction::DeleteOmission { omission_id } => {
                let _ = self.omissions.remove(*omission_id);
            },
            CsbAction::SetOmissionStatus { omission_id, status } => set_omission_status(
                &mut self.omissions,
                *omission_id,
                *status,
                e.created_at,
            ),
            CsbAction::UpdateCorrection(c) => match c {
                Correction::Appellation(v) => {
                    let same = match &self.paper_corrected_data.political_group().appellation {
                        Some(t) => *t == *v,
                        None => false,
                    };
                    self.csb_corrected_appellation = if same {
                        None
                    } else {
                        Some(v.clone())
                    };
                },
                Correction::Person(person, pc) => {
                    forget_brp_check(&mut self.brp_findings, *person);
                    apply_person_correction(&mut self.csb_corrected_persons, &self.paper_corrected_data, *person, pc);
                },
            },
            CsbAction::BrpPersonChecked { person, findings } => {
                record_brp_check(&mut self.brp_findings, *person, findings);
            },
            CsbAction::SetBrpStatus(v) => {
                self.brp_validation_status = *v;
            },
        }
    }
}

/// What applying an event does to the projection (the event log aside).
pub open spec fn csb_applied(o: CsbStoreData, n: CsbStoreData, e: StoreEvent<CsbEvent>) -> bool {
    let a = e.payload.action;
    &&& projections_applied(o.imported(), o.paper(), n.imported(), n.paper(), e)
    &&& n.finished() == finished_after(o.finished(), a)
    &&& n.deleted() == deleted_after(o.deleted(), a)
    &&& omissions_applied(o.omission_map(), n.omission_map(), a, e.created_at)
    &&& n.findings() == findings_after(o.findings(), a)
    &&& n.brp_status() == status_after(o.brp_status(), a)
    &&& n.corrections() == corrections_after(o.corrections(), o.paper().state(), a)
    &&& n.corrected_appellation() == appellation_after(o.corrected_appellation(), o.paper().state(), a)
}

impl CsbStoreData {
    #[verifier::type_invariant]
    spec fn inv(self) -> bool {
        self.state.wf()
    }

    /// The projection as imported.
    pub closed spec fn imported(&self) -> PgStoreData {
        self.state.imported_data
    }

    /// The projection with the paper corrections applied.
    pub closed spec fn paper(&self) -> PgStoreData {
        self.state.paper_corrected_data
    }

    /// Whether the examination is finished.
    pub closed spec fn finished(&self) -> bool {
        self.state.is_examination_finished
    }

    /// Whether the stream was deleted.
    pub closed spec fn deleted(&self) -> bool {
        self.state.is_deleted
    }

    /// The omissions, by id.
    pub closed spec fn omission_map(&self) -> Map<OmissionId, Omission> {
        self.state.omissions.map()
    }

    /// What the BRP said about each checked candidate.
    pub closed spec fn findings(&self) -> Map<PersonId, Seq<BrpFinding>> {
        self.state.findings()
    }

    /// How far the BRP sweep got.
    pub closed spec fn brp_status(&self) -> BrpStatus {
        self.state.brp_validation_status
    }

    /// The committee's corrections of each corrected candidate.
    pub closed spec fn corrections(&self) -> Map<PersonId, Seq<PersonCorrection>> {
        self.state.corrections()
    }

    /// The committee's correction of the appellation.
    pub closed spec fn corrected_appellation(&self) -> Option<String> {
        self.state.csb_corrected_appellation
    }

    /// A projection before any event.
    pub fn new() -> (d: Self)
        ensures
            d.log() == Seq::<StoreEvent<CsbEvent>>::empty(),
            d.imported().log() == Seq::<StoreEvent<PgEvent>>::empty(),
            d.paper().log() == Seq::<StoreEvent<PgEvent>>::empty(),
            is_initial(d.imported().state()),
            is_initial(d.paper().state()),
            !d.finished(),
            !d.deleted(),
            d.omission_map() == Map::<OmissionId, Omission>::empty(),
            d.findings() == Map::<PersonId, Seq<BrpFinding>>::empty(),
            d.brp_status() == BrpStatus::NotStarted,
            d.corrections() == Map::<PersonId, Seq<PersonCorrection>>::empty(),
            d.corrected_ids() == Seq::<PersonId>::empty(),
            d.omission_ids() == Seq::<OmissionId>::empty(),
            d.corrected_appellation() is None,
    {
        let d = CsbStoreData { state: CsbState::empty(), events: Vec::new() };
        d
    }
}

impl StoreData for CsbStoreData {
    type Event = CsbEvent;

    closed spec fn log(&self) -> Seq<StoreEvent<CsbEvent>> {
        self.events@
    }

    fn apply(&mut self, event: StoreEvent<CsbEvent>)
        ensures
            csb_applied(*old(self), *final(self), event),
            forall|k: PersonId| #[trigger] final(self).corrections().contains_key(k) ==> {
                &&& one_per_field(final(self).corrections()[k])
                &&& final(self).corrections()[k].len() > 0
            },
            final(self).corrected_ids().no_duplicates(),
            final(self).corrected_ids().to_set() == final(self).corrections().dom(),
            final(self).omission_ids().no_duplicates(),
            final(self).omission_ids().to_set() == final(self).omission_map().dom(),
    {
        proof {
            use_type_invariant(&*self);
        }
        let mut state = CsbState::empty();
        std::mem::swap(&mut state, &mut self.state);
        state.apply_action(&event);
        self.state = state;
        let mut events: Vec<StoreEvent<CsbEvent>> = Vec::new();
        std::mem::swap(&mut events, &mut self.events);
        events.push(event);
        self.events = events;
        proof {
            use_type_invariant(&*self);
            self.state.csb_corrected_persons.lemma_wf();
            assert(self.corrected_ids().to_set() =~= self.corrections().dom());
            self.state.omissions.lemma_wf();
            assert(self.omission_ids().to_set() =~= self.omission_map().dom());
        }
    }

    fn events(&self) -> (r: &Vec<StoreEvent<CsbEvent>>) {
        &self.events
    }

    fn scope() -> (r: Scope)
        ensures
            r == Scope::ImportedByCsb,
    {
        Scope::ImportedByCsb
    }
}

/// Whether an action changes data of candidate `p` that the BRP check
/// compared.
pub open spec fn changes_checked_data(a: CsbAction, p: PersonId) -> bool {
    match a {
        CsbAction::UpdateCorrection(Correction::Person(person, _)) => person == p,
        CsbAction::PaperCorrectedUpdate(e) => candidate_changed_by(*e) == Some(p),
        _ => false,
    }
}

/// What the BRP said about a checked candidate is forgotten exactly when an
/// action changes the candidate's checked data (a committee correction of
/// the candidate, or a paper correction of their name or personal data);
/// otherwise it stands as it was.
pub proof fn lemma_brp_findings_forgotten_only_on_change(o: Map<PersonId, Seq<BrpFinding>>, a: CsbAction, p: PersonId)
    requires
        o.contains_key(p),
        !(a matches CsbAction::BrpPersonChecked { person, .. } && person == p),
    ensures
        findings_after(o, a).contains_key(p) <==> !changes_checked_data(a, p),
        findings_after(o, a).contains_key(p) ==> findings_after(o, a)[p] == o[p],
{
}

/// A paper correction that creates, replaces or deletes a candidate, or
/// changes their name or personal data, makes the committee's BRP findings
/// about that candidate stale: they are forgotten, and the candidate counts
/// as unchecked again. The findings about every other candidate stand.
pub proof fn lemma_paper_correction_of_a_candidate_forgets_their_findings(
    o: CsbStoreData,
    n: CsbStoreData,
    e: StoreEvent<CsbEvent>,
    pe: PgEvent,
    p: PersonId,
)
    requires
        csb_applied(o, n, e),
        e.payload.action matches CsbAction::PaperCorrectedUpdate(b) && *b == pe,
        ({
            ||| pe matches PgEvent::CreatePerson(x) && x.id == p
            ||| pe matches PgEvent::UpdatePerson(x) && x.id == p
            ||| pe matches PgEvent::CreatePersonPersonalData { person_id, .. } && person_id == p
            ||| pe matches PgEvent::UpdatePersonPersonalData { person_id, .. } && person_id == p
            ||| pe matches PgEvent::DeletePerson { person_id } && person_id == p
        }),
    ensures
        !n.findings().contains_key(p),
        n.findings() == o.findings().remove(p),
{
}

/// A paper correction that touches no candidate's name or personal data (an
/// address, a representative, a list, the group) leaves every BRP finding as
/// it was; a BRP check records exactly the findings it reports for the
/// checked candidate, leaving the others'.
pub proof fn lemma_findings_kept_unless_a_candidate_changes(
    o: CsbStoreData,
    n: CsbStoreData,
    e: StoreEvent<CsbEvent>,
)
    requires
        csb_applied(o, n, e),
    ensures
        e.payload.action matches CsbAction::PaperCorrectedUpdate(b) && !(*b is CreatePerson || *b is UpdatePerson
            || *b is CreatePersonPersonalData || *b is UpdatePersonPersonalData || *b is DeletePerson)
            ==> n.findings() == o.findings(),
        e.payload.action matches CsbAction::BrpPersonChecked { person, findings } ==> n.findings().contains_key(person)
            && n.findings()[person] == findings@ && n.findings().remove(person) == o.findings().remove(person),
{
    if let CsbAction::BrpPersonChecked { person, findings } = e.payload.action {
        assert(n.findings().remove(person) =~= o.findings().remove(person));
    }
}

/// Recording whether an omission nobody recorded was recovered changes
/// nothing.
pub proof fn lemma_status_of_unknown_omission_is_ignored(
    o: Map<OmissionId, Omission>,
    n: Map<OmissionId, Omission>,
    id: OmissionId,
    status: OmissionStatus,
    at: i64,
)
    requires
        omissions_applied(o, n, CsbAction::SetOmissionStatus { omission_id: id, status }, at),
        !o.contains_key(id),
    ensures
        n == o,
{
    assert(n =~= o);
}

/// Correcting the appellation to the one the paper-corrected projection
/// already holds leaves no correction; any other value becomes the
/// correction.
pub proof fn lemma_appellation_correction(o: Option<String>, paper: PgState, v: String)
    ensures
        holds(paper.group().appellation, v@) ==> appellation_after(
            o,
            paper,
            CsbAction::UpdateCorrection(Correction::Appellation(v)),
        ) is None,
        !holds(paper.group().appellation, v@) ==> appellation_after(
            o,
            paper,
            CsbAction::UpdateCorrection(Correction::Appellation(v)),
        ) == Some(v),
{
}

/// Dropping the corrections of one field keeps those of the others.
proof fn lemma_other_fields_kept(cs: Seq<PersonCorrection>, c: PersonCorrection, d: PersonCorrection)
    requires
        cs.contains(d),
        field_of(d) != field_of(c),
    ensures
        cs.filter_map(other_field(c)).contains(d),
    decreases cs.len(),
{
    let rest = cs.drop_last();
    assert(cs =~= rest.push(cs.last()));
    assert(cs.filter_map(other_field(c)) =~= rest.filter_map(other_field(c)) + (if field_of(cs.last()) != field_of(c) {
        seq![cs.last()]
    } else {
        Seq::<PersonCorrection>::empty()
    })) by {
        cs.lemma_filter_map_take_succ(other_field(c), cs.len() - 1);
        assert(cs.take(cs.len() - 1) =~= rest);
        assert(cs.take(cs.len() as int) =~= cs);
    }
    if cs.last() == d {
        assert(cs.filter_map(other_field(c)).last() == d);
    } else {
        let k = choose|k: int| 0 <= k < cs.len() && cs[k] == d;
        assert(k < rest.len());
        assert(rest[k] == d);
        lemma_other_fields_kept(rest, c, d);
        let f = rest.filter_map(other_field(c));
        let j = choose|j: int| 0 <= j < f.len() && f[j] == d;
        assert(cs.filter_map(other_field(c))[j] == d);
    }
}

/// Correcting a candidate back to the value the paper-corrected projection
/// already holds undoes the committee's correction of that field, keeps the
/// corrections of the other fields, and leaves the other candidates alone.
pub proof fn lemma_correcting_back_undoes(
    o: Map<PersonId, Seq<PersonCorrection>>,
    paper: PgState,
    person: PersonId,
    c: PersonCorrection,
)
    requires
        !(paper.person_map().contains_key(person) && changes(c, paper.person_map()[person])),
    ensures
        ({
            let n = person_corrections_after(o, paper, person, c);
            &&& n.contains_key(person) ==> forall|i: int|
                0 <= i < n[person].len() ==> field_of(#[trigger] n[person][i]) != field_of(c)
            &&& forall|d: PersonCorrection|
                o.contains_key(person) && #[trigger] o[person].contains(d) && field_of(d) != field_of(c) ==> n.contains_key(
                    person,
                ) && n[person].contains(d)
            &&& forall|k: PersonId| k != person ==> (#[trigger] n.contains_key(k) == o.contains_key(k) && (o.contains_key(k) ==> n[k] == o[k]))
        }),
{
    let n = person_corrections_after(o, paper, person, c);
    if o.contains_key(person) {
        let rest = o[person].filter_map(other_field(c));
        assert forall|i: int| 0 <= i < rest.len() implies field_of(#[trigger] rest[i]) != field_of(c) by {
            assert(rest.contains(rest[i]));
            o[person].lemma_filter_map_contains(other_field(c), rest[i]);
        }
        assert forall|d: PersonCorrection|
            #[trigger] o[person].contains(d) && field_of(d) != field_of(c) implies n.contains_key(person) && n[person].contains(d) by {
            lemma_other_fields_kept(o[person], c, d);
        }
    }
}

/// A correction to another value than the candidate's is recorded, and the
/// corrections of the other fields stay: the corrections accumulate, one per
/// field.
pub proof fn lemma_correction_is_recorded(
    o: Map<PersonId, Seq<PersonCorrection>>,
    paper: PgState,
    person: PersonId,
    c: PersonCorrection,
)
    requires
        paper.person_map().contains_key(person),
        changes(c, paper.person_map()[person]),
    ensures
        ({
            let n = person_corrections_after(o, paper, person, c);
            &&& n.contains_key(person)
            &&& n[person].contains(c)
            &&& forall|d: PersonCorrection|
                o.contains_key(person) && #[trigger] o[person].contains(d) && field_of(d) != field_of(c) ==> n[person].contains(d)
            &&& forall|k: PersonId| k != person ==> (#[trigger] n.contains_key(k) == o.contains_key(k) && (o.contains_key(k) ==> n[k] == o[k]))
        }),
{
    let n = person_corrections_after(o, paper, person, c);
    let cs = if o.contains_key(person) {
        o[person]
    } else {
        Seq::<PersonCorrection>::empty()
    };
    let w = with_correction(cs, c);
    if exists|i: int| 0 <= i < cs.len() && field_of(#[trigger] cs[i]) == field_of(c) {
        let i = choose|i: int| 0 <= i < cs.len() && field_of(#[trigger] cs[i]) == field_of(c);
        assert(w[i] == c);
        assert forall|d: PersonCorrection| #[trigger] cs.contains(d) && field_of(d) != field_of(c) implies w.contains(d) by {
            let j = choose|j: int| 0 <= j < cs.len() && cs[j] == d;
            assert(j != i);
            assert(w[j] == d);
        }
    } else {
        assert(w[w.len() - 1] == c);
        assert forall|d: PersonCorrection| #[trigger] cs.contains(d) && field_of(d) != field_of(c) implies w.contains(d) by {
            let j = choose|j: int| 0 <= j < cs.len() && cs[j] == d;
            assert(w[j] == d);
        }
    }
}

/// Which corrections a read sees.
#[derive(Clone, Copy, PartialEq, Eq, Debug, Structural)]
pub enum WithCorrections {
    /// Only the imported data.
    Imported,
    /// With the paper corrections.
    Paper,
    /// Also with the committee's own ("ambtshalve") corrections.
    All,
}

/// The projection a read with `c` starts from: the imported one, or the
/// paper-corrected one (the committee's corrections are laid on top by the
/// getters that read them).
pub open spec fn source(d: CsbStoreData, c: WithCorrections) -> PgStoreData {
    match c {
        WithCorrections::Imported => d.imported(),
        _ => d.paper(),
    }
}

/// The political group as read with `c`.
pub open spec fn political_group_as(d: CsbStoreData, c: WithCorrections) -> PoliticalGroup {
    let g = source(d, c).group();
    if c == WithCorrections::All && d.corrected_appellation() is Some {
        PoliticalGroup { appellation: d.corrected_appellation(), ..g }
    } else {
        g
    }
}

/// The candidate `p` as read with `c`.
pub open spec fn person_as(d: CsbStoreData, p: PersonId, c: WithCorrections) -> Option<Person> {
    if source(d, c).person_map().contains_key(p) {
        let person = source(d, c).person_map()[p];
        if c == WithCorrections::All && d.corrections().contains_key(p) {
            Some(corrected_by(person, d.corrections()[p]))
        } else {
            Some(person)
        }
    } else {
        None
    }
}

/// `p` is first at index `k` of `s`.
pub open spec fn first_at(s: Seq<PersonId>, p: PersonId, k: int) -> bool {
    0 <= k < s.len() && s[k] == p && forall|j: int| 0 <= j < k ==> #[trigger] s[j] != p
}

impl CsbStoreData {
    /// The projection a read with `corrections` starts from.
    pub fn read(&self, corrections: WithCorrections) -> (r: &PgStoreData)
        ensures
            *r == source(*self, corrections),
    {
        match corrections {
            WithCorrections::Imported => &self.state.imported_data,
            _ => &self.state.paper_corrected_data,
        }
    }

    /// Whether the examination is finished.
    pub fn is_examination_finished(&self) -> (r: bool)
        ensures
            r == self.finished(),
    {
        self.state.is_examination_finished
    }

    /// Whether the stream was deleted.
    pub fn is_deleted(&self) -> (r: bool)
        ensures
            r == self.deleted(),
    {
        self.state.is_deleted
    }

    /// Whether any paper correction was made.
    pub fn has_paper_corrections(&self) -> (r: bool)
        ensures
            r == exists|i: int| 0 <= i < self.log().len() && #[trigger] self.log()[i].payload.action is PaperCorrectedUpdate,
    {
        let mut i: usize = 0;
        while i < self.events.len()
            invariant
                i <= self.events@.len(),
                forall|j: int| 0 <= j < i ==> !(#[trigger] self.events@[j].payload.action is PaperCorrectedUpdate),
            decreases self.events@.len() - i,
        {
            if let CsbAction::PaperCorrectedUpdate(_) = &self.events[i].payload.action {
                assert(self.log()[i as int].payload.action is PaperCorrectedUpdate);
                return true;
            }
            i = i + 1;
        }
        false
    }

    /// The political group, with the corrections `corrections` asks for.
    pub fn get_political_group(&self, corrections: WithCorrections) -> (r: PoliticalGroup)
        ensures
            r == political_group_as(*self, corrections),
    {
        let mut pg = self.read(corrections).political_group().clone();
        if corrections == WithCorrections::All {
            match &self.state.csb_corrected_appellation {
                Some(a) => {
                    pg.appellation = Some(a.clone());
                },
                None => {},
            }
        }
        pg
    }

    /// The candidate list with this id, if any.
    pub fn get_candidate_list(&self, list_id: CandidateListId, corrections: WithCorrections) -> (r: Option<CandidateList>)
        ensures
            r is Some <==> source(*self, corrections).list_map().contains_key(list_id),
            r matches Some(l) ==> same_list(l, source(*self, corrections).list_map()[list_id]),
    {
        match self.read(corrections).candidate_lists().get(list_id) {
            Some(l) => Some(l.clone()),
            None => None,
        }
    }

    /// The candidate with this id, if any, with the corrections
    /// `corrections` asks for.
    pub fn get_person(&self, person_id: PersonId, corrections: WithCorrections) -> (r: Option<Person>)
        ensures
            r == person_as(*self, person_id, corrections),
    {
        proof {
            use_type_invariant(self);
        }
        let person = match self.read(corrections).persons().get(person_id) {
            Some(p) => p.clone(),
            None => {
                return None;
            },
        };
        if corrections == WithCorrections::All {
            match self.state.csb_corrected_persons.get(person_id) {
                Some(delta) => {
                    return Some(delta.apply(person));
                },
                None => {},
            }
        }
        Some(person)
    }

    /// One-based position of the candidate on the list.
    pub fn get_candidate_position(&self, list_id: CandidateListId, person_id: PersonId, corrections: WithCorrections) -> (r:
        Option<usize>)
        ensures
            ({
                let lists = source(*self, corrections).list_map();
                match r {
                    Some(n) => lists.contains_key(list_id) && first_at(lists[list_id].candidates@, person_id, n - 1),
                    None => !lists.contains_key(list_id) || !lists[list_id].candidates@.contains(person_id),
                }
            }),
    {
        let lists = self.read(corrections).candidate_lists();
        let list = match lists.get(list_id) {
            Some(l) => l,
            None => {
                return None;
            },
        };
        let mut i: usize = 0;
        while i < list.candidates.len()
            invariant
                i <= list.candidates@.len(),
                source(*self, corrections).list_map().contains_key(list_id),
                *list == source(*self, corrections).list_map()[list_id],
                forall|j: int| 0 <= j < i ==> #[trigger] list.candidates@[j] != person_id,
            decreases list.candidates@.len() - i,
        {
            if list.candidates[i] == person_id {
                assert(first_at(list.candidates@, person_id, i as int));
                return Some(i + 1);
            }
            i = i + 1;
        }
        None
    }

    /// The list submitter, with the paper corrections if asked for.
    pub fn get_list_submitter(&self, corrections: WithCorrections) -> (r: ListSubmitter)
        ensures
            r == source(*self, corrections).submitter(),
    {
        self.read(corrections).list_submitter().clone()
    }

    /// What the BRP said about the candidate; empty both when it found
    /// nothing and when the candidate was not checked.
    pub fn get_brp_findings_for_person(&self, person_id: PersonId) -> (r: Vec<BrpFinding>)
        ensures
            r@ == if self.findings().contains_key(person_id) {
                self.findings()[person_id]
            } else {
                Seq::empty()
            },
    {
        proof {
            use_type_invariant(self);
        }
        match self.state.brp_findings.get(person_id) {
            Some(v) => copy_findings(v),
            None => Vec::new(),
        }
    }

    /// Whether the candidate was checked against the BRP, findings or not.
    pub fn is_brp_checked(&self, person_id: PersonId) -> (r: bool)
        ensures
            r == self.findings().contains_key(person_id),
    {
        proof {
            use_type_invariant(self);
        }
        self.state.brp_findings.contains_key(person_id)
    }

    /// How far the BRP sweep got.
    pub fn get_brp_status(&self) -> (r: BrpStatus)
        ensures
            r == self.brp_status(),
    {
        self.state.brp_validation_status
    }

    /// Whether the committee corrected this candidate.
    pub fn has_candidate_csb_corrections(&self, person_id: PersonId) -> (r: bool)
        ensures
            r == self.corrections().contains_key(person_id),
    {
        proof {
            use_type_invariant(self);
        }
        self.state.csb_corrected_persons.contains_key(person_id)
    }

    /// The number of committee corrections of the political group: of its
    /// appellation, if any.
    pub fn get_political_group_csb_corrections_count(&self) -> (r: usize)
        ensures
            r == (if self.corrected_appellation() is Some { 1usize } else { 0usize }),
    {
        match &self.state.csb_corrected_appellation {
            Some(_) => 1,
            None => 0,
        }
    }
}

/// An omission about the political group.
pub open spec fn about_political_group(o: Omission) -> bool {
    o.category is PoliticalGroup
}

/// An omission about declarations of support.
pub open spec fn about_declarations(o: Omission) -> bool {
    o.category is DeclarationsOfSupport
}

/// An omission about candidate `p`.
pub open spec fn about_candidate(o: Omission, p: PersonId) -> bool {
    o.category matches OmissionCategory::Candidate { person, .. } && person == p
}

/// An omission about candidate `p` on list `l`.
pub open spec fn about_candidate_on(o: Omission, p: PersonId, l: CandidateListId) -> bool {
    o.category matches OmissionCategory::Candidate { person, lists } && person == p && lists@.contains(l)
}

/// An omission that references list `l`.
pub open spec fn about_list(o: Omission, l: CandidateListId) -> bool {
    o.category matches OmissionCategory::CandidateList(lists) && lists@.contains(l)
}

/// An omission the political group may repair.
pub open spec fn repairable(o: Omission) -> bool {
    o.recoverable
}

/// `r` lists, once each and as copies, the omissions of `m` that `pred`
/// selects.
pub open spec fn lists_omissions(r: Seq<Omission>, m: Map<OmissionId, Omission>, pred: spec_fn(Omission) -> bool) -> bool {
    &&& forall|i: int|
        0 <= i < r.len() ==> m.contains_key(#[trigger] r[i].id) && same_omission(r[i], m[r[i].id]) && pred(m[r[i].id])
    &&& forall|id: OmissionId| #[trigger] m.contains_key(id) && pred(m[id]) ==> exists|i: int| 0 <= i < r.len() && #[trigger] r[i].id == id
    &&& forall|i: int, j: int| 0 <= i < j < r.len() ==> #[trigger] r[i].id != #[trigger] r[j].id
}

/// Which omissions a listing selects.
enum OmissionFilter {
    PoliticalGroup,
    Declarations,
    Repairable,
    Candidate(PersonId),
    List(CandidateListId),
}

spec fn selects(f: OmissionFilter) -> spec_fn(Omission) -> bool {
    match f {
        OmissionFilter::PoliticalGroup => |o: Omission| about_political_group(o),
        OmissionFilter::Declarations => |o: Omission| about_declarations(o),
        OmissionFilter::Repairable => |o: Omission| repairable(o),
        OmissionFilter::Candidate(p) => |o: Omission| about_candidate(o, p),
        OmissionFilter::List(l) => |o: Omission| about_list(o, l),
    }
}

fn contains_id(v: &Vec<u128>, x: u128) -> (r: bool)
    ensures
        r == v@.contains(x),
{
    let mut i: usize = 0;
    while i < v.len()
        invariant
            i <= v@.len(),
            forall|j: int| 0 <= j < i ==> v@[j] != x,
        decreases v@.len() - i,
    {
        if v[i] == x {
            assert(v@[i as int] == x);
            return true;
        }
        i = i + 1;
    }
    false
}

fn filter_selects(f: &OmissionFilter, o: &Omission) -> (r: bool)
    ensures
        r == selects(*f)(*o),
{
    match f {
        OmissionFilter::PoliticalGroup => match &o.category {
            OmissionCategory::PoliticalGroup => true,
            _ => false,
        },
        OmissionFilter::Declarations => match &o.category {
            OmissionCategory::DeclarationsOfSupport(_) => true,
            _ => false,
        },
        OmissionFilter::Repairable => o.recoverable,
        OmissionFilter::Candidate(p) => match &o.category {
            OmissionCategory::Candidate { person, .. } => *person == *p,
            _ => false,
        },
        OmissionFilter::List(l) => match &o.category {
            OmissionCategory::CandidateList(lists) => contains_id(lists, *l),
            _ => false,
        },
    }
}

impl CsbStoreData {
    fn omissions_where(&self, f: OmissionFilter) -> (r: Vec<Omission>)
        ensures
            lists_omissions(r@, self.omission_map(), selects(f)),
    {
        proof {
            use_type_invariant(self);
            self.state.omissions.lemma_wf();
        }
        let m = &self.state.omissions;
        let ghost keys = m.keys();
        let ghost values = m.values();
        let ghost map = m.map();
        let mut r: Vec<Omission> = Vec::new();
        let mut i: usize = 0;
        while i < m.entries_len()
            invariant
                i <= keys.len(),
                keys == m.keys(),
                values == m.values(),
                map == m.map(),
                map == self.omission_map(),
                keys.len() == values.len(),
                keys.no_duplicates(),
                keyed_by_id(map),
                forall|k: u128| #[trigger] map.contains_key(k) <==> keys.contains(k),
                forall|j: int| 0 <= j < keys.len() ==> #[trigger] map[keys[j]] == values[j],
                forall|t: int|
                    #![trigger r@[t]]
                    0 <= t < r@.len() ==> exists|j: int| 0 <= j < i && #[trigger] keys[j] == r@[t].id,
                forall|t: int|
                    0 <= t < r@.len() ==> map.contains_key(#[trigger] r@[t].id) && same_omission(r@[t], map[r@[t].id])
                        && selects(f)(map[r@[t].id]),
                forall|j: int| 0 <= j < i && selects(f)(#[trigger] values[j]) ==> exists|t: int| 0 <= t < r@.len() && #[trigger] r@[t].id == keys[j],
                forall|a: int, b: int| 0 <= a < b < r@.len() ==> #[trigger] r@[a].id != #[trigger] r@[b].id,
            decreases keys.len() - i,
        {
            let o = m.value_at(i);
            let k = m.key_at(i);
            proof {
                assert(map[keys[i as int]] == values[i as int]);
                assert(keys.contains(k));
                assert(map.contains_key(k));
                assert(map[k].id == k);
                assert(o.id == k);
            }
            if filter_selects(&f, o) {
                let c = o.duplicate();
                let ghost before = r@;
                r.push(c);
                proof {
                    assert(r@[before.len() as int].id == k);
                    assert forall|a: int, b: int| 0 <= a < b < r@.len() implies #[trigger] r@[a].id != #[trigger] r@[b].id by {
                        if b == before.len() {
                            let j = choose|j: int| 0 <= j < i && #[trigger] keys[j] == r@[a].id;
                            assert(r@[a] == before[a]);
                            assert(keys[j] != keys[i as int]);
                        } else {
                            assert(r@[a] == before[a] && r@[b] == before[b]);
                        }
                    }
                    assert forall|t: int| #![trigger r@[t]] 0 <= t < r@.len() implies exists|j: int| 0 <= j < i + 1 && #[trigger] keys[j] == r@[t].id by {
                        if t < before.len() {
                            assert(r@[t] == before[t]);
                            let j = choose|j: int| 0 <= j < i && #[trigger] keys[j] == before[t].id;
                            assert(keys[j] == r@[t].id);
                        } else {
                            assert(keys[i as int] == r@[t].id);
                        }
                    }
                    assert forall|j: int| 0 <= j < i + 1 && selects(f)(#[trigger] values[j]) implies exists|t: int| 0 <= t < r@.len() && #[trigger] r@[t].id == keys[j] by {
                        if j < i {
                            let t = choose|t: int| 0 <= t < before.len() && #[trigger] before[t].id == keys[j];
                            assert(r@[t] == before[t]);
                        } else {
                            assert(r@[before.len() as int].id == keys[j]);
                        }
                    }
                }
            } else {
                proof {
                    assert forall|t: int| #![trigger r@[t]] 0 <= t < r@.len() implies exists|j: int| 0 <= j < i + 1 && #[trigger] keys[j] == r@[t].id by {
                        let j = choose|j: int| 0 <= j < i && #[trigger] keys[j] == r@[t].id;
                    }
                }
            }
            i = i + 1;
        }
        proof {
            assert forall|id: OmissionId| #[trigger] map.contains_key(id) && selects(f)(map[id]) implies exists|t: int| 0 <= t < r@.len() && #[trigger] r@[t].id == id by {
                let j = keys.index_of(id);
                assert(keys[j] == id);
                assert(selects(f)(values[j]));
            }
        }
        r
    }

    /// The omissions about the political group.
    pub fn get_political_group_omissions(&self) -> (r: Vec<Omission>)
        ensures
            lists_omissions(r@, self.omission_map(), |o: Omission| about_political_group(o)),
    {
        self.omissions_where(OmissionFilter::PoliticalGroup)
    }

    /// The omissions about declarations of support.
    pub fn get_all_declarations_of_support_omissions(&self) -> (r: Vec<Omission>)
        ensures
            lists_omissions(r@, self.omission_map(), |o: Omission| about_declarations(o)),
    {
        self.omissions_where(OmissionFilter::Declarations)
    }

    /// The omissions the political group may repair.
    pub fn get_recoverable_omissions(&self) -> (r: Vec<Omission>)
        ensures
            lists_omissions(r@, self.omission_map(), |o: Omission| repairable(o)),
    {
        self.omissions_where(OmissionFilter::Repairable)
    }

    /// The omissions about a candidate.
    pub fn get_candidate_omissions(&self, person_id: PersonId) -> (r: Vec<Omission>)
        ensures
            lists_omissions(r@, self.omission_map(), |o: Omission| about_candidate(o, person_id)),
    {
        self.omissions_where(OmissionFilter::Candidate(person_id))
    }

    /// The omissions that reference a candidate list; an error for a list
    /// the paper-corrected projection does not hold.
    pub fn get_candidate_list_omissions(&self, list_id: CandidateListId) -> (r: Result<Vec<Omission>, AppError>)
        ensures
            !self.paper().list_map().contains_key(list_id) <==> r == Err::<Vec<Omission>, AppError>(AppError::GenericNotFound),
            r matches Ok(v) ==> lists_omissions(v@, self.omission_map(), |o: Omission| about_list(o, list_id)),
    {
        if !self.state.paper_corrected_data.candidate_lists().contains_key(list_id) {
            return Err(AppError::GenericNotFound);
        }
        Ok(self.omissions_where(OmissionFilter::List(list_id)))
    }
}

/// Some omission of `m` satisfies `pred`.
pub open spec fn some_omission(m: Map<OmissionId, Omission>, pred: spec_fn(Omission) -> bool) -> bool {
    exists|id: OmissionId| #[trigger] m.contains_key(id) && pred(m[id])
}

/// Candidate `p` is scrapped from list `l`: an unresolved omission names
/// them on it.
pub open spec fn candidate_scrapped(m: Map<OmissionId, Omission>, p: PersonId, l: CandidateListId) -> bool {
    some_omission(m, |o: Omission| unresolved(o) && about_candidate_on(o, p, l))
}

/// District `d` is scrapped: an unresolved omission about declarations of
/// support names it, or names no district and so covers all.
pub open spec fn district_covered(m: Map<OmissionId, Omission>, d: ElectoralDistrict) -> bool {
    some_omission(
        m,
        |o: Omission|
            unresolved(o) && (o.category matches OmissionCategory::DeclarationsOfSupport(ds) && (ds@.len() == 0
                || ds@.contains(d))),
    )
}

/// Keeps the scrapped districts.
pub open spec fn scrapped_in(m: Map<OmissionId, Omission>) -> spec_fn(ElectoralDistrict) -> Option<ElectoralDistrict> {
    |d: ElectoralDistrict| if district_covered(m, d) { Some(d) } else { None }
}

/// Keeps the districts that are in `ds`.
pub open spec fn among(ds: Seq<ElectoralDistrict>) -> spec_fn(ElectoralDistrict) -> Option<ElectoralDistrict> {
    |d: ElectoralDistrict| if ds.contains(d) { Some(d) } else { None }
}

/// The number of candidates of `cs` not scrapped from list `l`.
pub open spec fn unscrapped_count(cs: Seq<PersonId>, m: Map<OmissionId, Omission>, l: CandidateListId) -> nat
    decreases cs.len(),
{
    if cs.len() == 0 {
        0
    } else {
        unscrapped_count(cs.drop_last(), m, l) + if candidate_scrapped(m, cs.last(), l) {
            0nat
        } else {
            1nat
        }
    }
}

/// The candidate's number in the recovery phase: the numbering runs over
/// the candidates of the list that are not scrapped. None for a scrapped
/// candidate and for one not on the list.
pub open spec fn recovery_position(d: CsbStoreData, l: CandidateListId, p: PersonId) -> Option<nat> {
    let lists = d.paper().list_map();
    if lists.contains_key(l) && lists[l].candidates@.contains(p) && !candidate_scrapped(d.omission_map(), p, l) {
        let cs = lists[l].candidates@;
        Some(unscrapped_count(cs.take(choose|k: int| first_at(cs, p, k)), d.omission_map(), l) + 1)
    } else {
        None
    }
}

/// The districts of list `l` (corrections applied); none for an unknown
/// list.
pub open spec fn list_districts_of(d: CsbStoreData, l: CandidateListId) -> Seq<ElectoralDistrict> {
    if d.paper().list_map().contains_key(l) {
        d.paper().list_map()[l].electoral_districts@
    } else {
        Seq::empty()
    }
}

/// What a test over the omissions asks.
enum OmissionTest {
    CandidateOn(PersonId, CandidateListId),
    ScrapsCandidate(PersonId, CandidateListId),
    List(CandidateListId),
    ScrapsList(CandidateListId),
    ScrapsDistrict(ElectoralDistrict),
}

spec fn tests(t: OmissionTest) -> spec_fn(Omission) -> bool {
    match t {
        OmissionTest::CandidateOn(p, l) => |o: Omission| about_candidate_on(o, p, l),
        OmissionTest::ScrapsCandidate(p, l) => |o: Omission| unresolved(o) && about_candidate_on(o, p, l),
        OmissionTest::List(l) => |o: Omission| about_list(o, l),
        OmissionTest::ScrapsList(l) => |o: Omission| unresolved(o) && about_list(o, l),
        OmissionTest::ScrapsDistrict(d) => |o: Omission|
            unresolved(o) && (o.category matches OmissionCategory::DeclarationsOfSupport(ds) && (ds@.len() == 0
                || ds@.contains(d))),
    }
}

fn contains_district(v: &Vec<ElectoralDistrict>, x: ElectoralDistrict) -> (r: bool)
    ensures
        r == v@.contains(x),
{
    let mut i: usize = 0;
    while i < v.len()
        invariant
            i <= v@.len(),
            forall|j: int| 0 <= j < i ==> v@[j] != x,
        decreases v@.len() - i,
    {
        if v[i] == x {
            assert(v@[i as int] == x);
            return true;
        }
        i = i + 1;
    }
    false
}

fn passes(t: &OmissionTest, o: &Omission) -> (r: bool)
    ensures
        r == tests(*t)(*o),
{
    match t {
        OmissionTest::CandidateOn(p, l) => match &o.category {
            OmissionCategory::Candidate { person, lists } => *person == *p && contains_id(lists, *l),
            _ => false,
        },
        OmissionTest::ScrapsCandidate(p, l) => o.is_unresolved() && match &o.category {
            OmissionCategory::Candidate { person, lists } => *person == *p && contains_id(lists, *l),
            _ => false,
        },
        OmissionTest::List(l) => match &o.category {
            OmissionCategory::CandidateList(lists) => contains_id(lists, *l),
            _ => false,
        },
        OmissionTest::ScrapsList(l) => o.is_unresolved() && match &o.category {
            OmissionCategory::CandidateList(lists) => contains_id(lists, *l),
            _ => false,
        },
        OmissionTest::ScrapsDistrict(d) => o.is_unresolved() && match &o.category {
            OmissionCategory::DeclarationsOfSupport(ds) => ds.len() == 0 || contains_district(ds, *d),
            _ => false,
        },
    }
}

impl CsbStoreData {
    fn some_omission_where(&self, t: OmissionTest) -> (r: bool)
        ensures
            r == some_omission(self.omission_map(), tests(t)),
    {
        proof {
            use_type_invariant(self);
            self.state.omissions.lemma_wf();
        }
        let m = &self.state.omissions;
        let mut i: usize = 0;
        while i < m.entries_len()
            invariant
                i <= m.keys().len(),
                m.wf(),
                m.map() == self.omission_map(),
                m.keys().len() == m.values().len(),
                forall|k: u128| #[trigger] m.map().contains_key(k) <==> m.keys().contains(k),
                forall|j: int| 0 <= j < m.keys().len() ==> #[trigger] m.map()[m.keys()[j]] == m.values()[j],
                forall|j: int| 0 <= j < i ==> !tests(t)(#[trigger] m.values()[j]),
            decreases m.keys().len() - i,
        {
            if passes(&t, m.value_at(i)) {
                proof {
                    let k = m.keys()[i as int];
                    assert(m.keys().contains(k));
                    assert(m.map().contains_key(k));
                }
                return true;
            }
            i = i + 1;
        }
        proof {
            assert forall|id: OmissionId| #[trigger] m.map().contains_key(id) implies !tests(t)(m.map()[id]) by {
                let j = m.keys().index_of(id);
                assert(m.keys()[j] == id);
            }
        }
        false
    }

    /// The omission with this id.
    pub fn get_omission(&self, omission_id: OmissionId) -> (r: Result<Omission, AppError>)
        ensures
            match r {
                Ok(o) => self.omission_map().contains_key(omission_id) && same_omission(o, self.omission_map()[omission_id]),
                Err(e) => !self.omission_map().contains_key(omission_id) && e == AppError::GenericNotFound,
            },
    {
        proof {
            use_type_invariant(self);
        }
        match self.state.omissions.get(omission_id) {
            Some(o) => Ok(o.duplicate()),
            None => Err(AppError::GenericNotFound),
        }
    }

    /// The number of omissions.
    pub fn get_omission_count(&self) -> (r: usize)
        ensures
            r == self.omission_map().dom().len(),
    {
        proof {
            use_type_invariant(self);
        }
        self.state.omissions.len()
    }

    /// Whether the candidate has omissions about them on this list.
    pub fn has_candidate_omissions(&self, person_id: PersonId, list_id: CandidateListId) -> (r: bool)
        ensures
            r == some_omission(self.omission_map(), |o: Omission| about_candidate_on(o, person_id, list_id)),
    {
        let r = self.some_omission_where(OmissionTest::CandidateOn(person_id, list_id));
        assert(tests(OmissionTest::CandidateOn(person_id, list_id)) =~= (|o: Omission| about_candidate_on(o, person_id, list_id)));
        r
    }

    /// Whether the candidate is scrapped from this list: an unresolved
    /// omission (irreparable, or marked not recovered) names them on it.
    /// Omissions about the group do not cascade down to candidates.
    pub fn is_candidate_scrapped(&self, person_id: PersonId, list_id: CandidateListId) -> (r: bool)
        ensures
            r == candidate_scrapped(self.omission_map(), person_id, list_id),
    {
        let r = self.some_omission_where(OmissionTest::ScrapsCandidate(person_id, list_id));
        assert(tests(OmissionTest::ScrapsCandidate(person_id, list_id)) =~= (|o: Omission|
            unresolved(o) && about_candidate_on(o, person_id, list_id)));
        r
    }

    /// Whether district `d` is scrapped.
    fn is_district_scrapped(&self, d: ElectoralDistrict) -> (r: bool)
        ensures
            r == district_covered(self.omission_map(), d),
    {
        let r = self.some_omission_where(OmissionTest::ScrapsDistrict(d));
        assert(tests(OmissionTest::ScrapsDistrict(d)) =~= (|o: Omission|
            unresolved(o) && (o.category matches OmissionCategory::DeclarationsOfSupport(ds) && (ds@.len() == 0
                || ds@.contains(d)))));
        r
    }

    /// The scrapped districts, in the election's district order.
    pub fn get_scrapped_districts(&self, election_districts: &Vec<ElectoralDistrict>) -> (r: Vec<ElectoralDistrict>)
        ensures
            r@ == election_districts@.filter_map(scrapped_in(self.omission_map())),
    {
        let ghost f = scrapped_in(self.omission_map());
        let mut r: Vec<ElectoralDistrict> = Vec::new();
        let mut i: usize = 0;
        while i < election_districts.len()
            invariant
                i <= election_districts@.len(),
                f == scrapped_in(self.omission_map()),
                r@ == election_districts@.take(i as int).filter_map(f),
            decreases election_districts@.len() - i,
        {
            proof {
                election_districts@.lemma_filter_map_take_succ(f, i as int);
            }
            if self.is_district_scrapped(election_districts[i]) {
                r.push(election_districts[i]);
            }
            i = i + 1;
        }
        assert(election_districts@.take(election_districts@.len() as int) =~= election_districts@);
        r
    }

    /// The list's districts (corrections applied), empty for an unknown list.
    fn get_candidate_list_districts(&self, list_id: CandidateListId) -> (r: &[ElectoralDistrict])
        ensures
            r@ == list_districts_of(*self, list_id),
    {
        match self.state.paper_corrected_data.candidate_lists().get(list_id) {
            Some(l) => l.electoral_districts.as_slice(),
            None => &[],
        }
    }

    /// The scrapped districts of a list, in the list's own district order.
    pub fn get_candidate_list_scrapped_districts(
        &self,
        list_id: CandidateListId,
        election_districts: &Vec<ElectoralDistrict>,
    ) -> (r: Vec<ElectoralDistrict>)
        ensures
            r@ == list_districts_of(*self, list_id).filter_map(
                among(election_districts@.filter_map(scrapped_in(self.omission_map()))),
            ),
    {
        let scrapped = self.get_scrapped_districts(election_districts);
        let ds = self.get_candidate_list_districts(list_id);
        let ghost f = among(scrapped@);
        let mut r: Vec<ElectoralDistrict> = Vec::new();
        let mut i: usize = 0;
        while i < ds.len()
            invariant
                i <= ds@.len(),
                f == among(scrapped@),
                r@ == ds@.take(i as int).filter_map(f),
            decreases ds@.len() - i,
        {
            proof {
                ds@.lemma_filter_map_take_succ(f, i as int);
            }
            if contains_district(&scrapped, ds[i]) {
                r.push(ds[i]);
            }
            i = i + 1;
        }
        assert(ds@.take(ds@.len() as int) =~= ds@);
        r
    }

    /// Whether the whole list is scrapped: an unresolved omission references
    /// it, or every district it was submitted in is scrapped. An error for
    /// a list the paper-corrected projection does not hold.
    pub fn is_candidate_list_scrapped(&self, list_id: CandidateListId, election_districts: &Vec<ElectoralDistrict>) -> (r:
        Result<bool, AppError>)
        ensures
            !self.paper().list_map().contains_key(list_id) <==> r == Err::<bool, AppError>(AppError::GenericNotFound),
            r matches Ok(b) ==> b == (some_omission(self.omission_map(), |o: Omission| unresolved(o) && about_list(o, list_id))
                || (list_districts_of(*self, list_id).len() > 0 && list_districts_of(*self, list_id).filter_map(
                among(election_districts@.filter_map(scrapped_in(self.omission_map()))),
            ).len() == list_districts_of(*self, list_id).len())),
    {
        if !self.state.paper_corrected_data.candidate_lists().contains_key(list_id) {
            return Err(AppError::GenericNotFound);
        }
        assert(tests(OmissionTest::ScrapsList(list_id)) =~= (|o: Omission| unresolved(o) && about_list(o, list_id)));
        if self.some_omission_where(OmissionTest::ScrapsList(list_id)) {
            return Ok(true);
        }
        let ds = self.get_candidate_list_districts(list_id);
        let scrapped = self.get_candidate_list_scrapped_districts(list_id, election_districts);
        Ok(ds.len() > 0 && ds.len() == scrapped.len())
    }

    /// The candidate's number in the recovery ("Herstelde lijsten") phase: a
    /// scrapped candidate keeps its place but loses its number, so the ones
    /// below move up.
    pub fn get_recovery_position(&self, list_id: CandidateListId, person_id: PersonId) -> (r: Option<usize>)
        ensures
            match r {
                Some(n) => recovery_position(*self, list_id, person_id) == Some(n as nat),
                None => recovery_position(*self, list_id, person_id) is None,
            },
    {
        let lists = self.state.paper_corrected_data.candidate_lists();
        let list = match lists.get(list_id) {
            Some(l) => l,
            None => {
                return None;
            },
        };
        let ghost cs = list.candidates@;
        let ghost m = self.omission_map();
        let mut position: usize = 0;
        let mut i: usize = 0;
        while i < list.candidates.len()
            invariant
                i <= cs.len(),
                cs == list.candidates@,
                m == self.omission_map(),
                self.paper().list_map().contains_key(list_id),
                *list == self.paper().list_map()[list_id],
                position == unscrapped_count(cs.take(i as int), m, list_id),
                position <= i,
                forall|j: int| 0 <= j < i ==> #[trigger] cs[j] != person_id,
            decreases cs.len() - i,
        {
            let c = list.candidates[i];
            assert(cs.take(i + 1).drop_last() =~= cs.take(i as int));
            if self.is_candidate_scrapped(c, list_id) {
                if c == person_id {
                    proof {
                        assert(cs.contains(person_id));
                    }
                    return None;
                }
            } else {
                position = position + 1;
                if c == person_id {
                    proof {
                        assert(cs.contains(person_id));
                        assert(first_at(cs, person_id, i as int));
                        let k = choose|k: int| first_at(cs, person_id, k);
                        assert(k == i) by {
                            if k < i {
                                assert(cs[k] != person_id);
                            } else if k > i {
                                assert(cs[i as int] != person_id);
                            }
                        }
                    }
                    return Some(position);
                }
            }
            i = i + 1;
        }
        proof {
            assert(!cs.contains(person_id));
        }
        None
    }
}

/// The number of corrections of the candidates `ids`.
pub open spec fn total_corrections(ids: Seq<PersonId>, m: Map<PersonId, Seq<PersonCorrection>>) -> nat
    decreases ids.len(),
{
    if ids.len() == 0 {
        0
    } else {
        total_corrections(ids.drop_last(), m) + m[ids.last()].len()
    }
}

impl CsbStoreData {
    /// The corrected candidates, in the order they were first corrected.
    pub closed spec fn corrected_ids(&self) -> Seq<PersonId> {
        self.state.csb_corrected_persons.keys()
    }

    /// Every candidate the committee corrected, each once.
    pub fn get_all_csb_corrected_persons(&self) -> (r: Vec<PersonId>)
        ensures
            r@.no_duplicates(),
            r@.to_set() == self.corrections().dom(),
    {
        proof {
            use_type_invariant(self);
            self.state.csb_corrected_persons.lemma_wf();
        }
        let m = &self.state.csb_corrected_persons;
        let mut r: Vec<PersonId> = Vec::new();
        let mut i: usize = 0;
        while i < m.entries_len()
            invariant
                i <= m.keys().len(),
                m.wf(),
                m.keys().no_duplicates(),
                forall|k: u128| #[trigger] m.map().contains_key(k) <==> m.keys().contains(k),
                r@ == m.keys().take(i as int),
            decreases m.keys().len() - i,
        {
            r.push(m.key_at(i));
            assert(r@ =~= m.keys().take(i + 1));
            i = i + 1;
        }
        assert(r@ =~= m.keys());
        assert(r@.to_set() =~= self.corrections().dom());
        r
    }

    /// The number of the committee's corrections: of candidates' fields and
    /// of the appellation (saturating at the largest `usize`).
    pub fn get_correction_count(&self) -> (r: usize)
        ensures
            r == if total_corrections(self.corrected_ids(), self.corrections()) + (if self.corrected_appellation() is Some {
                1nat
            } else {
                0nat
            }) <= usize::MAX {
                total_corrections(self.corrected_ids(), self.corrections()) + (if self.corrected_appellation() is Some {
                    1nat
                } else {
                    0nat
                })
            } else {
                usize::MAX as nat
            },
    {
        proof {
            use_type_invariant(self);
            self.state.csb_corrected_persons.lemma_wf();
        }
        let m = &self.state.csb_corrected_persons;
        let ghost ids = self.corrected_ids();
        let ghost cm = self.corrections();
        let mut total: usize = 0;
        let mut i: usize = 0;
        while i < m.entries_len()
            invariant
                i <= ids.len(),
                ids == m.keys(),
                cm == self.corrections(),
                cm == delta_view(m.map()),
                ids.len() == m.values().len(),
                forall|j: int| 0 <= j < ids.len() ==> #[trigger] m.map()[m.keys()[j]] == m.values()[j],
                forall|k: u128| #[trigger] m.map().contains_key(k) <==> m.keys().contains(k),
                total == if total_corrections(ids.take(i as int), cm) <= usize::MAX {
                    total_corrections(ids.take(i as int), cm)
                } else {
                    usize::MAX as nat
                },
            decreases ids.len() - i,
        {
            assert(ids.take(i + 1).drop_last() =~= ids.take(i as int));
            proof {
                let k = ids[i as int];
                assert(m.keys().contains(k));
                assert(m.map()[m.keys()[i as int]] == m.values()[i as int]);
                assert(cm[k] == m.values()[i as int]@);
            }
            let n = m.value_at(i).get_corrections().len();
            total = total.saturating_add(n);
            i = i + 1;
        }
        assert(ids.take(ids.len() as int) =~= ids);
        match &self.state.csb_corrected_appellation {
            Some(_) => total.saturating_add(1),
            None => total,
        }
    }

    /// The number of omissions and corrections together (saturating).
    pub fn get_restoration_count(&self) -> (r: usize)
        ensures
            ({
                let corrections = total_corrections(self.corrected_ids(), self.corrections()) + (if self.corrected_appellation() is Some {
                    1nat
                } else {
                    0nat
                });
                let capped = if corrections <= usize::MAX { corrections } else { usize::MAX as nat };
                r == if self.omission_map().dom().len() + capped <= usize::MAX {
                    self.omission_map().dom().len() + capped
                } else {
                    usize::MAX as nat
                }
            }),
    {
        self.get_omission_count().saturating_add(self.get_correction_count())
    }

    /// Whether the list or one of its candidates has omissions; an error for
    /// a list the paper-corrected projection does not hold.
    pub fn has_candidate_list_omissions(&self, list_id: CandidateListId) -> (r: Result<bool, AppError>)
        ensures
            !self.paper().list_map().contains_key(list_id) <==> r == Err::<bool, AppError>(AppError::GenericNotFound),
            r matches Ok(b) ==> b == (some_omission(self.omission_map(), |o: Omission| about_list(o, list_id)) || exists|j: int|
                0 <= j < self.paper().list_map()[list_id].candidates@.len() && some_omission(
                    self.omission_map(),
                    |o: Omission| about_candidate_on(o, #[trigger] self.paper().list_map()[list_id].candidates@[j], list_id),
                )),
    {
        let list = match self.state.paper_corrected_data.candidate_lists().get(list_id) {
            Some(l) => l,
            None => {
                return Err(AppError::GenericNotFound);
            },
        };
        assert(tests(OmissionTest::List(list_id)) =~= (|o: Omission| about_list(o, list_id)));
        if self.some_omission_where(OmissionTest::List(list_id)) {
            return Ok(true);
        }
        let ghost cs = list.candidates@;
        let mut i: usize = 0;
        while i < list.candidates.len()
            invariant
                i <= cs.len(),
                cs == list.candidates@,
                self.paper().list_map().contains_key(list_id),
                *list == self.paper().list_map()[list_id],
                forall|j: int|
                    0 <= j < i ==> !some_omission(
                        self.omission_map(),
                        |o: Omission| about_candidate_on(o, #[trigger] cs[j], list_id),
                    ),
            decreases cs.len() - i,
        {
            if self.has_candidate_omissions(list.candidates[i], list_id) {
                return Ok(true);
            }
            i = i + 1;
        }
        Ok(false)
    }

    /// Whether a candidate on the list was corrected by the committee; an
    /// error for a list the paper-corrected projection does not hold.
    pub fn has_candidate_list_csb_corrections(&self, list_id: CandidateListId) -> (r: Result<bool, AppError>)
        ensures
            !self.paper().list_map().contains_key(list_id) <==> r == Err::<bool, AppError>(AppError::GenericNotFound),
            r matches Ok(b) ==> b == exists|j: int|
                0 <= j < self.paper().list_map()[list_id].candidates@.len() && self.corrections().contains_key(
                    #[trigger] self.paper().list_map()[list_id].candidates@[j],
                ),
    {
        let list = match self.state.paper_corrected_data.candidate_lists().get(list_id) {
            Some(l) => l,
            None => {
                return Err(AppError::GenericNotFound);
            },
        };
        let ghost cs = list.candidates@;
        let mut i: usize = 0;
        while i < list.candidates.len()
            invariant
                i <= cs.len(),
                cs == list.candidates@,
                self.paper().list_map().contains_key(list_id),
                *list == self.paper().list_map()[list_id],
                forall|j: int| 0 <= j < i ==> !self.corrections().contains_key(#[trigger] cs[j]),
            decreases cs.len() - i,
        {
            if self.has_candidate_csb_corrections(list.candidates[i]) {
                return Ok(true);
            }
            i = i + 1;
        }
        Ok(false)
    }
}

/// Awaits the decision whether it was recovered: repairable and pending.
pub open spec fn pending(o: Omission) -> bool {
    o.recoverable && o.status == OmissionStatus::Pending
}

/// Selects the pending omissions.
pub open spec fn is_pending() -> spec_fn(Omission) -> bool {
    |o: Omission| pending(o)
}

/// Selects the repairable omissions.
pub open spec fn is_repairable() -> spec_fn(Omission) -> bool {
    |o: Omission| repairable(o)
}

/// The number of the omissions `ids` of `m` that `pred` selects.
pub open spec fn count_where(ids: Seq<OmissionId>, m: Map<OmissionId, Omission>, pred: spec_fn(Omission) -> bool) -> nat
    decreases ids.len(),
{
    if ids.len() == 0 {
        0
    } else {
        count_where(ids.drop_last(), m, pred) + if pred(m[ids.last()]) {
            1nat
        } else {
            0nat
        }
    }
}

impl CsbStoreData {
    /// The omissions' ids, in the order they were first recorded.
    pub closed spec fn omission_ids(&self) -> Seq<OmissionId> {
        self.state.omissions.keys()
    }

    fn count_omissions(&self, pending_only: bool) -> (r: usize)
        ensures
            r == count_where(
                self.omission_ids(),
                self.omission_map(),
                if pending_only { is_pending() } else { is_repairable() },
            ),
    {
        proof {
            use_type_invariant(self);
            self.state.omissions.lemma_wf();
        }
        let ghost pred = if pending_only { is_pending() } else { is_repairable() };
        let m = &self.state.omissions;
        let ghost ids = self.omission_ids();
        let mut count: usize = 0;
        let mut i: usize = 0;
        while i < m.entries_len()
            invariant
                i <= ids.len(),
                ids == m.keys(),
                ids.len() == m.values().len(),
                pred == (if pending_only { is_pending() } else { is_repairable() }),
                forall|j: int| 0 <= j < ids.len() ==> #[trigger] m.map()[m.keys()[j]] == m.values()[j],
                m.map() == self.omission_map(),
                count == count_where(ids.take(i as int), m.map(), pred),
                count <= i,
            decreases ids.len() - i,
        {
            assert(ids.take(i + 1).drop_last() =~= ids.take(i as int));
            assert(m.map()[m.keys()[i as int]] == m.values()[i as int]);
            let o = m.value_at(i);
            if o.recoverable && (!pending_only || o.status == OmissionStatus::Pending) {
                count = count + 1;
            }
            i = i + 1;
        }
        assert(ids.take(ids.len() as int) =~= ids);
        count
    }

    /// The number of omissions that still await the decision whether they
    /// were recovered.
    pub fn get_pending_omission_count(&self) -> (r: usize)
        ensures
            r == count_where(self.omission_ids(), self.omission_map(), is_pending()),
    {
        self.count_omissions(true)
    }

    /// The number of omissions that can be assessed in the recovery phase:
    /// the repairable ones.
    pub fn get_actionable_omission_count(&self) -> (r: usize)
        ensures
            r == count_where(self.omission_ids(), self.omission_map(), is_repairable()),
    {
        self.count_omissions(false)
    }
}

impl CsbStoreData {
    /// The candidate lists, in the order they were created.
    pub fn get_candidate_lists(&self, corrections: WithCorrections) -> (r: Vec<CandidateList>)
        ensures
            r@.len() == source(*self, corrections).list_values().len(),
            forall|i: int| 0 <= i < r@.len() ==> same_list(#[trigger] r@[i], source(*self, corrections).list_values()[i]),
    {
        let lists = self.read(corrections).candidate_lists();
        let mut r: Vec<CandidateList> = Vec::new();
        let mut i: usize = 0;
        while i < lists.entries_len()
            invariant
                i <= lists.values().len(),
                lists.values() == source(*self, corrections).list_values(),
                r@.len() == i,
                forall|j: int| 0 <= j < i ==> same_list(#[trigger] r@[j], lists.values()[j]),
            decreases lists.values().len() - i,
        {
            r.push(lists.value_at(i).clone());
            i = i + 1;
        }
        r
    }

    /// The name authorisations, in the order they were created.
    pub fn get_name_authorisations(&self, corrections: WithCorrections) -> (r: Vec<NameAuthorisation>)
        ensures
            r@ == source(*self, corrections).authorisation_values(),
    {
        let auths = self.read(corrections).name_authorisations();
        let mut r: Vec<NameAuthorisation> = Vec::new();
        let mut i: usize = 0;
        while i < auths.entries_len()
            invariant
                i <= auths.values().len(),
                r@ == auths.values().take(i as int),
            decreases auths.values().len() - i,
        {
            r.push(auths.value_at(i).clone());
            assert(r@ =~= auths.values().take(i + 1));
            i = i + 1;
        }
        assert(auths.values().take(auths.values().len() as int) =~= auths.values());
        r
    }

    /// Every candidate, in the order they were created, with the
    /// corrections `corrections` asks for.
    pub fn get_persons(&self, corrections: WithCorrections) -> (r: Vec<Person>)
        ensures
            r@.len() == source(*self, corrections).person_ids().len(),
            forall|i: int|
                0 <= i < r@.len() ==> person_as(*self, source(*self, corrections).person_ids()[i], corrections) == Some(
                    #[trigger] r@[i],
                ),
    {
        let persons = self.read(corrections).persons();
        proof {
            persons.lemma_wf();
        }
        let mut r: Vec<Person> = Vec::new();
        let mut i: usize = 0;
        while i < persons.entries_len()
            invariant
                i <= persons.keys().len(),
                persons.wf(),
                persons.keys() == source(*self, corrections).person_ids(),
                persons.map() == source(*self, corrections).person_map(),
                forall|k: u128| #[trigger] persons.map().contains_key(k) <==> persons.keys().contains(k),
                r@.len() == i,
                forall|j: int|
                    0 <= j < i ==> person_as(*self, persons.keys()[j], corrections) == Some(#[trigger] r@[j]),
            decreases persons.keys().len() - i,
        {
            let id = persons.key_at(i);
            proof {
                assert(persons.keys().contains(id));
            }
            if let Some(p) = self.get_person(id, corrections) {
                r.push(p);
            }
            i = i + 1;
        }
        r
    }
}

/// Only an import changes the imported projection; only an import or a
/// paper correction changes the paper-corrected one.
pub proof fn lemma_only_import_changes_the_imported_projection(o: CsbStoreData, n: CsbStoreData, e: StoreEvent<CsbEvent>)
    requires
        csb_applied(o, n, e),
    ensures
        !(e.payload.action is Import) ==> n.imported() == o.imported(),
        !(e.payload.action is Import) && !(e.payload.action is PaperCorrectedUpdate) ==> n.paper() == o.paper(),
{
}

/// An import seeds the paper-corrected projection with what it imports:
/// right after it, both derive the same.
pub proof fn lemma_import_seeds_the_paper_corrections(o: CsbStoreData, n: CsbStoreData, e: StoreEvent<CsbEvent>)
    requires
        csb_applied(o, n, e),
        e.payload.action is Import,
    ensures
        same_state(n.paper().state(), n.imported().state()),
{
    let p = n.paper().state();
    let i = n.imported().state();
    assert(lists_alike(p.list_map(), i.list_map())) by {
        assert(p.list_map().dom() =~= i.list_map().dom());
        assert forall|k: u128| #[trigger] p.list_map().contains_key(k) implies same_list(p.list_map()[k], i.list_map()[k]) by {
            match e.payload.action {
                CsbAction::Import { snapshot, .. } => {
                    assert(snapshot.state().list_map().contains_key(k));
                },
                _ => {},
            }
        }
    }
}

/// List `i` of `ls` has candidates and none with candidates was created
/// before it: its first candidate comes first when the lists are ordered by
/// creation time.
pub open spec fn leads(ls: Seq<CandidateList>, i: int) -> bool {
    &&& 0 <= i < ls.len()
    &&& ls[i].candidates@.len() > 0
    &&& forall|j: int| 0 <= j < ls.len() && (#[trigger] ls[j]).candidates@.len() > 0 ==> ls[i].created_at <= ls[j].created_at
}

impl CsbStoreData {
    /// The name of the first candidate across all candidate lists, the lists
    /// taken in order of creation; none when no list has candidates (or the
    /// first candidate is unknown).
    pub fn get_first_candidate_name(&self, corrections: WithCorrections) -> (r: Option<FullName>)
        ensures
            ({
                let ls = source(*self, corrections).list_values();
                &&& r is None <== forall|j: int| 0 <= j < ls.len() ==> (#[trigger] ls[j]).candidates@.len() == 0
                &&& (exists|j: int| 0 <= j < ls.len() && (#[trigger] ls[j]).candidates@.len() > 0) ==> exists|i: int|
                    #[trigger] leads(ls, i) && r == match person_as(*self, ls[i].candidates@[0], corrections) {
                        Some(p) => Some(p.name),
                        None => None::<FullName>,
                    }
            }),
    {
        let lists = self.read(corrections).candidate_lists();
        let ghost ls = lists.values();
        let mut best: Option<usize> = None;
        let mut i: usize = 0;
        while i < lists.entries_len()
            invariant
                i <= ls.len(),
                ls == lists.values(),
                ls == source(*self, corrections).list_values(),
                match best {
                    Some(b) => b < i && ls[b as int].candidates@.len() > 0 && forall|j: int|
                        0 <= j < i && (#[trigger] ls[j]).candidates@.len() > 0 ==> ls[b as int].created_at <= ls[j].created_at,
                    None => forall|j: int| 0 <= j < i ==> (#[trigger] ls[j]).candidates@.len() == 0,
                },
            decreases ls.len() - i,
        {
            let l = lists.value_at(i);
            if l.candidates.len() > 0 {
                match best {
                    Some(b) => {
                        if l.created_at < lists.value_at(b).created_at {
                            best = Some(i);
                        }
                    },
                    None => {
                        best = Some(i);
                    },
                }
            }
            i = i + 1;
        }
        match best {
            None => None,
            Some(b) => {
                let l = lists.value_at(b);
                let first = l.candidates[0];
                proof {
                    assert(leads(ls, b as int));
                }
                match self.get_person(first, corrections) {
                    Some(p) => Some(p.name),
                    None => None,
                }
            },
        }
    }
}

} // verus!
