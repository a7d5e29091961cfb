//! What the unresolved omissions scrap ("schrappen"): the appellation,
//! districts, lists and candidates, derived once per event so every page
//! reads the same outcome.

use vstd::prelude::*;

use crate::entities::{CandidateList, CandidateListId, ElectoralDistrict, PersonId};
use crate::id_map::{lemma_take_succ_contains, IdMap};
use crate::pg_data::{ListDesignation, PgStoreData, PoliticalGroup};

verus! {

pub type OmissionId = u128;

/// What an omission is about.
#[derive(Debug)]
pub enum OmissionCategory {
    Appellation,
    PoliticalGroup,
    /// Declarations of support for these districts; none listed covers all.
    DeclarationsOfSupport(Vec<ElectoralDistrict>),
    CandidateList(Vec<CandidateListId>),
    Candidate { person: PersonId, lists: Vec<CandidateListId> },
}

#[derive(Clone, Copy, PartialEq, Eq, Debug, Structural)]
pub enum OmissionStatus {
    Pending,
    Recovered,
    NotRecovered,
}

/// A shortcoming the committee found in the submitted documents.
#[derive(Debug)]
pub struct Omission {
    pub id: OmissionId,
    pub category: OmissionCategory,
    /// Whether the political group may repair it.
    pub recoverable: bool,
    pub status: OmissionStatus,
    /// What the committee wrote down about it.
    pub description: String,
    /// When it was last changed, microseconds since the Unix epoch.
    pub updated_at: i64,
}

/// Two categories name the same things.
pub open spec fn same_category(a: OmissionCategory, b: OmissionCategory) -> bool {
    match a {
        OmissionCategory::Appellation => b is Appellation,
        OmissionCategory::PoliticalGroup => b is PoliticalGroup,
        OmissionCategory::DeclarationsOfSupport(ds) => b matches OmissionCategory::DeclarationsOfSupport(d2) && d2@ == ds@,
        OmissionCategory::CandidateList(ls) => b matches OmissionCategory::CandidateList(l2) && l2@ == ls@,
        OmissionCategory::Candidate { person, lists } => b matches OmissionCategory::Candidate { person: p2, lists: l2 }
            && p2 == person && l2@ == lists@,
    }
}

/// Two omissions hold the same values.
pub open spec fn same_omission(a: Omission, b: Omission) -> bool {
    &&& a.id == b.id
    &&& same_category(a.category, b.category)
    &&& a.recoverable == b.recoverable
    &&& a.status == b.status
    &&& a.description == b.description
    &&& a.updated_at == b.updated_at
}

fn copy_u128s(v: &Vec<u128>) -> (r: Vec<u128>)
    ensures
        r@ == v@,
{
    let mut r: Vec<u128> = Vec::new();
    let mut i: usize = 0;
    while i < v.len()
        invariant
            i <= v@.len(),
            r@ == v@.take(i as int),
        decreases v@.len() - i,
    {
        r.push(v[i]);
        assert(r@ =~= v@.take(i + 1));
        i = i + 1;
    }
    assert(v@.take(v@.len() as int) =~= v@);
    r
}

fn copy_districts(v: &Vec<ElectoralDistrict>) -> (r: Vec<ElectoralDistrict>)
    ensures
        r@ == v@,
{
    let mut r: Vec<ElectoralDistrict> = Vec::new();
    let mut i: usize = 0;
    while i < v.len()
        invariant
            i <= v@.len(),
            r@ == v@.take(i as int),
        decreases v@.len() - i,
    {
        r.push(v[i]);
        assert(r@ =~= v@.take(i + 1));
        i = i + 1;
    }
    assert(v@.take(v@.len() as int) =~= v@);
    r
}

impl OmissionCategory {
    /// A copy of this category.
    pub fn duplicate(&self) -> (r: Self)
        ensures
            same_category(*self, r),
    {
        match self {
            OmissionCategory::Appellation => OmissionCategory::Appellation,
            OmissionCategory::PoliticalGroup => OmissionCategory::PoliticalGroup,
            OmissionCategory::DeclarationsOfSupport(ds) => OmissionCategory::DeclarationsOfSupport(copy_districts(ds)),
            OmissionCategory::CandidateList(ls) => OmissionCategory::CandidateList(copy_u128s(ls)),
            OmissionCategory::Candidate { person, lists } => OmissionCategory::Candidate {
                person: *person,
                lists: copy_u128s(lists),
            },
        }
    }
}

impl Omission {
    /// A copy of this omission.
    pub fn duplicate(&self) -> (r: Self)
        ensures
            same_omission(*self, r),
    {
        Omission {
            id: self.id,
            category: self.category.duplicate(),
            recoverable: self.recoverable,
            status: self.status,
            description: self.description.clone(),
            updated_at: self.updated_at,
        }
    }
}

/// Unresolved: irreparable, or marked as not recovered.
pub open spec fn unresolved(o: Omission) -> bool {
    !o.recoverable || o.status == OmissionStatus::NotRecovered
}

impl Omission {
    /// Whether this omission stands: irreparable, or marked not recovered.
    pub fn is_unresolved(&self) -> (r: bool)
        ensures
            r == unresolved(*self),
    {
        !self.recoverable || self.status == OmissionStatus::NotRecovered
    }
}

/// How much of one candidate list is scrapped.
pub struct ScrappedList {
    /// A list omission scraps the list as a whole.
    pub whole: bool,
    /// The list's districts that are scrapped, in the list's district order.
    pub districts: Vec<ElectoralDistrict>,
    /// Whether every district the list was submitted in is scrapped.
    pub all_districts: bool,
}

impl ScrappedList {
    /// Scrapped by a list omission, or because all its districts are.
    pub fn is_scrapped(&self) -> (r: bool)
        ensures
            r == (self.whole || self.all_districts),
    {
        self.whole || self.all_districts
    }
}

/// The appellation, districts, lists and candidates scrapped by the
/// unresolved omissions.
pub struct Scrapped {
    omissions: Vec<OmissionId>,
    appellation: Vec<OmissionId>,
    districts: Vec<ElectoralDistrict>,
    all_districts: bool,
    lists: IdMap<ScrappedList>,
    candidates: Vec<(CandidateListId, PersonId)>,
}

/// Whether the political group submitted a blank list.
pub open spec fn is_blank(g: PoliticalGroup) -> bool {
    g.list_designation == Some(ListDesignation::Blank)
}

/// Everything the omissions of `os` contribute, each by `f`.
pub open spec fn gathered<T>(os: Seq<Omission>, f: spec_fn(Omission) -> Set<T>) -> Set<T> {
    Set::new(|x: T| exists|k: int| 0 <= k < os.len() && f(#[trigger] os[k]).contains(x))
}

/// Whether omission `o` scraps something; `blank` says the political group
/// has a blank list, which has no appellation to scrap.
pub open spec fn scraps(o: Omission, blank: bool) -> bool {
    unresolved(o) && match o.category {
        OmissionCategory::Appellation => !blank,
        OmissionCategory::PoliticalGroup => false,
        _ => true,
    }
}

/// The districts of a declarations-of-support omission.
pub open spec fn dos_districts(o: Omission) -> Option<Seq<ElectoralDistrict>> {
    match o.category {
        OmissionCategory::DeclarationsOfSupport(ds) => Some(ds@),
        _ => None,
    }
}

/// The lists of a list omission.
pub open spec fn list_refs(o: Omission) -> Option<Seq<CandidateListId>> {
    match o.category {
        OmissionCategory::CandidateList(ls) => Some(ls@),
        _ => None,
    }
}

/// The candidate and lists of a candidate omission.
pub open spec fn candidate_ref(o: Omission) -> Option<(PersonId, Seq<CandidateListId>)> {
    match o.category {
        OmissionCategory::Candidate { person, lists } => Some((person, lists@)),
        _ => None,
    }
}

/// The id of an omission that scraps something.
pub open spec fn causes_of(blank: bool) -> spec_fn(Omission) -> Set<OmissionId> {
    |o: Omission| if scraps(o, blank) { set![o.id] } else { Set::empty() }
}

/// The id of an unresolved appellation omission, unless the list is blank.
pub open spec fn appellation_of(blank: bool) -> spec_fn(Omission) -> Set<OmissionId> {
    |o: Omission|
        if unresolved(o) && !blank && o.category is Appellation {
            set![o.id]
        } else {
            Set::empty()
        }
}

/// The districts named by an unresolved declarations-of-support omission.
pub open spec fn districts_of() -> spec_fn(Omission) -> Set<ElectoralDistrict> {
    |o: Omission|
        if unresolved(o) && dos_districts(o) is Some {
            dos_districts(o).unwrap().to_set()
        } else {
            Set::empty()
        }
}

/// The lists named by an unresolved list omission.
pub open spec fn lists_of() -> spec_fn(Omission) -> Set<CandidateListId> {
    |o: Omission|
        if unresolved(o) && list_refs(o) is Some {
            list_refs(o).unwrap().to_set()
        } else {
            Set::empty()
        }
}

/// The (list, candidate) pairs named by an unresolved candidate omission.
pub open spec fn candidates_of() -> spec_fn(Omission) -> Set<(CandidateListId, PersonId)> {
    |o: Omission|
        if unresolved(o) && candidate_ref(o) is Some {
            Set::new(
                |p: (CandidateListId, PersonId)|
                    p.1 == candidate_ref(o).unwrap().0 && candidate_ref(o).unwrap().1.contains(p.0),
            )
        } else {
            Set::empty()
        }
}

/// The omissions that scrap something.
pub open spec fn causing(os: Seq<Omission>, blank: bool) -> Set<OmissionId> {
    gathered(os, causes_of(blank))
}

/// The omissions that scrap the appellation.
pub open spec fn appellation_causes(os: Seq<Omission>, blank: bool) -> Set<OmissionId> {
    gathered(os, appellation_of(blank))
}

/// Whether an unresolved declarations-of-support omission without districts,
/// which covers all of them, exists.
pub open spec fn covers_all_districts(os: Seq<Omission>) -> bool {
    exists|k: int| 0 <= k < os.len() && #[trigger] empty_dos(os[k])
}

/// An unresolved declarations-of-support omission without districts.
pub open spec fn empty_dos(o: Omission) -> bool {
    unresolved(o) && dos_districts(o) is Some && dos_districts(o).unwrap().len() == 0
}

/// The districts named by unresolved declarations-of-support omissions.
pub open spec fn named_districts(os: Seq<Omission>) -> Set<ElectoralDistrict> {
    gathered(os, districts_of())
}

/// The lists named by unresolved list omissions.
pub open spec fn whole_lists(os: Seq<Omission>) -> Set<CandidateListId> {
    gathered(os, lists_of())
}

/// The (list, candidate) pairs named by unresolved candidate omissions.
pub open spec fn scrapped_candidates(os: Seq<Omission>) -> Set<(CandidateListId, PersonId)> {
    gathered(os, candidates_of())
}

/// Whether a district is scrapped, given the derived district facts.
pub open spec fn district_scrapped(all: bool, named: Set<ElectoralDistrict>, d: ElectoralDistrict) -> bool {
    all || named.contains(d)
}

/// The scrapped districts among `ds`, in their order.
pub open spec fn list_scrapped_districts(all: bool, named: Set<ElectoralDistrict>, ds: Seq<ElectoralDistrict>) -> Seq<ElectoralDistrict> {
    ds.filter_map(in_scrapped(all, named))
}

/// Keeps the scrapped districts.
pub open spec fn in_scrapped(all: bool, named: Set<ElectoralDistrict>) -> spec_fn(ElectoralDistrict) -> Option<ElectoralDistrict> {
    |d: ElectoralDistrict| if district_scrapped(all, named, d) { Some(d) } else { None }
}

/// The facts of one list entry: whole, scrapped districts, all districts.
pub open spec fn entry_of(e: ScrappedList) -> (bool, Seq<ElectoralDistrict>, bool) {
    (e.whole, e.districts@, e.all_districts)
}

/// The entry derived for list `l`: every list of the data has one, and so
/// has every list named by an unresolved list omission.
pub open spec fn expected_list(os: Seq<Omission>, data: Map<CandidateListId, CandidateList>, l: CandidateListId) -> Option<(bool, Seq<ElectoralDistrict>, bool)> {
    if data.contains_key(l) {
        let own = data[l].electoral_districts@;
        let ds = list_scrapped_districts(covers_all_districts(os), named_districts(os), own);
        Some((whole_lists(os).contains(l), ds, ds.len() > 0 && ds.len() == own.len()))
    } else if whole_lists(os).contains(l) {
        Some((true, Seq::empty(), false))
    } else {
        None
    }
}

/// Gathering over one more omission adds what it contributes.
pub proof fn lemma_gathered_step<T>(os: Seq<Omission>, i: int, f: spec_fn(Omission) -> Set<T>)
    requires
        0 <= i < os.len(),
    ensures
        gathered(os.take(i + 1), f) == gathered(os.take(i), f).union(f(os[i])),
{
    let a = os.take(i + 1);
    let b = os.take(i);
    assert forall|x: T| gathered(a, f).contains(x) <==> #[trigger] gathered(b, f).union(f(os[i])).contains(x) by {
        if gathered(a, f).contains(x) {
            let k = choose|k: int| 0 <= k < a.len() && f(#[trigger] a[k]).contains(x);
            if k < i {
                assert(b[k] == a[k]);
            }
        }
        if gathered(b, f).contains(x) {
            let k = choose|k: int| 0 <= k < b.len() && f(#[trigger] b[k]).contains(x);
            assert(a[k] == b[k]);
        }
        if f(os[i]).contains(x) {
            assert(a[i] == os[i]);
        }
    }
    assert(gathered(a, f) =~= gathered(b, f).union(f(os[i])));
}

/// Nothing is gathered from no omissions.
pub proof fn lemma_gathered_empty<T>(os: Seq<Omission>, f: spec_fn(Omission) -> Set<T>)
    ensures
        gathered(os.take(0), f) == Set::<T>::empty(),
{
    assert(gathered(os.take(0), f) =~= Set::<T>::empty());
}

impl Scrapped {
    #[verifier::type_invariant]
    spec fn inv(self) -> bool {
        &&& self.lists.wf()
        &&& ascending(self.appellation@)
    }

    /// The omissions that scrap something.
    pub closed spec fn omission_set(&self) -> Set<OmissionId> {
        self.omissions@.to_set()
    }

    /// The omissions that scrap the appellation.
    pub closed spec fn appellation_set(&self) -> Set<OmissionId> {
        self.appellation@.to_set()
    }

    /// Whether every district is scrapped.
    pub closed spec fn all_districts_spec(&self) -> bool {
        self.all_districts
    }

    /// The districts named as scrapped.
    pub closed spec fn district_set(&self) -> Set<ElectoralDistrict> {
        self.districts@.to_set()
    }

    /// The scrapped (list, candidate) pairs.
    pub closed spec fn candidate_set(&self) -> Set<(CandidateListId, PersonId)> {
        self.candidates@.to_set()
    }

    /// The entry of list `l`, if it has one.
    pub closed spec fn list_entry(&self, l: CandidateListId) -> Option<(bool, Seq<ElectoralDistrict>, bool)> {
        if self.lists.map().contains_key(l) {
            Some(entry_of(self.lists.map()[l]))
        } else {
            None
        }
    }

    /// Derive from the corrected data and the omissions. Candidate omissions
    /// scrap only the candidate, list omissions the list, and declarations of
    /// support the district; a list is also gone once all of its districts
    /// are. A blank list has no appellation to scrap.
    pub fn derive(data: &PgStoreData, omissions: &IdMap<Omission>) -> (r: Scrapped)
        ensures
            r.omission_set() == causing(omissions.values(), is_blank(data.group())),
            r.appellation_set() == appellation_causes(omissions.values(), is_blank(data.group())),
            r.all_districts_spec() == covers_all_districts(omissions.values()),
            r.district_set() == named_districts(omissions.values()),
            r.candidate_set() == scrapped_candidates(omissions.values()),
            forall|l: CandidateListId| #[trigger] r.list_entry(l) == expected_list(omissions.values(), data.list_map(), l),
    {
        let blank = match data.political_group().list_designation {
            Some(ListDesignation::Blank) => true,
            _ => false,
        };
        Self::derive_parts(blank, data.candidate_lists(), omissions)
    }

    /// [`Scrapped::derive`] from its parts: whether the list is blank, the
    /// candidate lists and the omissions.
    fn derive_parts(is_blank: bool, candidate_lists: &IdMap<CandidateList>, omissions: &IdMap<Omission>) -> (r: Scrapped)
        requires
            candidate_lists.wf(),
        ensures
            r.omission_set() == causing(omissions.values(), is_blank),
            r.appellation_set() == appellation_causes(omissions.values(), is_blank),
            r.all_districts_spec() == covers_all_districts(omissions.values()),
            r.district_set() == named_districts(omissions.values()),
            r.candidate_set() == scrapped_candidates(omissions.values()),
            forall|l: CandidateListId| #[trigger] r.list_entry(l) == expected_list(omissions.values(), candidate_lists.map(), l),
    {
        let ghost os = omissions.values();
        let mut causes: Vec<OmissionId> = Vec::new();
        let mut appellation: Vec<OmissionId> = Vec::new();
        let mut districts: Vec<ElectoralDistrict> = Vec::new();
        let mut all_districts = false;
        let mut lists: IdMap<ScrappedList> = IdMap::new();
        let mut candidates: Vec<(CandidateListId, PersonId)> = Vec::new();
        proof {
            lemma_gathered_empty(os, causes_of(is_blank));
            lemma_gathered_empty(os, appellation_of(is_blank));
            lemma_gathered_empty(os, districts_of());
            lemma_gathered_empty(os, lists_of());
            lemma_gathered_empty(os, candidates_of());
            assert(causes@.to_set() =~= Set::<OmissionId>::empty());
            assert(appellation@.to_set() =~= Set::<OmissionId>::empty());
            assert(districts@.to_set() =~= Set::<ElectoralDistrict>::empty());
            assert(candidates@.to_set() =~= Set::<(CandidateListId, PersonId)>::empty());
        }
        let n = omissions.entries_len();
        let mut i: usize = 0;
        while i < n
            invariant
                n == os.len(),
                os == omissions.values(),
                i <= n,
                causes@.to_set() == causing(os.take(i as int), is_blank),
                appellation@.to_set() == appellation_causes(os.take(i as int), is_blank),
                ascending(appellation@),
                all_districts == covers_all_districts(os.take(i as int)),
                districts@.to_set() == named_districts(os.take(i as int)),
                candidates@.to_set() == scrapped_candidates(os.take(i as int)),
                lists.wf(),
                forall|l: CandidateListId| #[trigger] lists.map().contains_key(l) == whole_lists(os.take(i as int)).contains(l),
                forall|l: CandidateListId| #[trigger] lists.map().contains_key(l) ==> entry_of(lists.map()[l]) == (true, Seq::<ElectoralDistrict>::empty(), false),
            decreases n - i,
        {
            let o = omissions.value_at(i);
            let ghost before = os.take(i as int);
            let ghost after = os.take(i + 1);
            proof {
                lemma_gathered_step(os, i as int, causes_of(is_blank));
                lemma_gathered_step(os, i as int, appellation_of(is_blank));
                lemma_gathered_step(os, i as int, districts_of());
                lemma_gathered_step(os, i as int, lists_of());
                lemma_gathered_step(os, i as int, candidates_of());
                assert(after[i as int] == os[i as int]);
                assert(covers_all_districts(after) == (covers_all_districts(before) || empty_dos(os[i as int]))) by {
                    if covers_all_districts(after) && !empty_dos(os[i as int]) {
                        let k = choose|k: int| 0 <= k < after.len() && #[trigger] empty_dos(after[k]);
                        assert(before[k] == after[k]);
                    }
                    if covers_all_districts(before) {
                        let k = choose|k: int| 0 <= k < before.len() && #[trigger] empty_dos(before[k]);
                        assert(after[k] == before[k]);
                    }
                }
            }
            if o.is_unresolved() {
                match &o.category {
                    OmissionCategory::Appellation => {
                        if !is_blank {
                            sorted_insert_id(&mut appellation, o.id);
                            set_insert_id(&mut causes, o.id);
                        }
                    },
                    OmissionCategory::PoliticalGroup => {},
                    OmissionCategory::DeclarationsOfSupport(ds) => {
                        if ds.len() == 0 {
                            all_districts = true;
                        } else {
                            set_extend_districts(&mut districts, ds);
                        }
                        set_insert_id(&mut causes, o.id);
                    },
                    OmissionCategory::CandidateList(ls) => {
                        mark_whole_lists(&mut lists, ls);
                        set_insert_id(&mut causes, o.id);
                    },
                    OmissionCategory::Candidate { person, lists: ls } => {
                        insert_candidate_pairs(&mut candidates, ls, *person);
                        set_insert_id(&mut causes, o.id);
                    },
                }
            }
            proof {
                assert(causes@.to_set() =~= causing(after, is_blank));
                assert(appellation@.to_set() =~= appellation_causes(after, is_blank));
                assert(districts@.to_set() =~= named_districts(after));
                assert(candidates@.to_set() =~= scrapped_candidates(after));
                assert forall|l: CandidateListId| #[trigger] lists.map().contains_key(l) == whole_lists(after).contains(l) by {}
            }
            i = i + 1;
        }
        proof {
            assert(os.take(n as int) =~= os);
            candidate_lists.lemma_wf();
        }
        let ghost data = candidate_lists.map();
        let ghost keys = candidate_lists.keys();
        let m = candidate_lists.entries_len();
        let mut j: usize = 0;
        while j < m
            invariant
                m == keys.len(),
                m == candidate_lists.values().len(),
                keys == candidate_lists.keys(),
                data == candidate_lists.map(),
                candidate_lists.wf(),
                all_districts == covers_all_districts(os),
                districts@.to_set() == named_districts(os),
                j <= m,
                lists.wf(),
                forall|l: CandidateListId| #[trigger] lists.map().contains_key(l) == (whole_lists(os).contains(l) || keys.take(j as int).contains(l)),
                forall|l: CandidateListId|
                    lists.map().contains_key(l) && !keys.take(j as int).contains(l) ==> entry_of(#[trigger] lists.map()[l]) == (true, Seq::<ElectoralDistrict>::empty(), false),
                forall|l: CandidateListId|
                    #[trigger] keys.take(j as int).contains(l) ==> lists.map().contains_key(l) && Some(entry_of(lists.map()[l])) == expected_list(os, data, l),
            decreases m - j,
        {
            let k = candidate_lists.key_at(j);
            let cl = candidate_lists.value_at(j);
            proof {
                candidate_lists.lemma_wf();
                assert(data[k] == *cl);
                assert(data.contains_key(k));
                assert(!keys.take(j as int).contains(k)) by {
                    if keys.take(j as int).contains(k) {
                        let x = choose|x: int| 0 <= x < j && #[trigger] keys.take(j as int)[x] == k;
                        assert(keys[x] == keys[j as int]);
                    }
                }
                lemma_take_succ_contains(keys, j as int);
            }
            let ds = scrapped_among(all_districts, &districts, &cl.electoral_districts);
            let whole = match lists.get(k) {
                Some(e) => e.whole,
                None => false,
            };
            let every = ds.len() > 0 && ds.len() == cl.electoral_districts.len();
            lists.insert(k, ScrappedList { whole, districts: ds, all_districts: every });
            proof {
                assert(Some(entry_of(lists.map()[k])) == expected_list(os, data, k));
                assert forall|l: CandidateListId| #[trigger] keys.take(j + 1).contains(l) implies lists.map().contains_key(l)
                    && Some(entry_of(lists.map()[l])) == expected_list(os, data, l) by {
                    if l != k {
                        assert(keys.take(j as int).contains(l));
                    }
                }
                assert forall|l: CandidateListId|
                    lists.map().contains_key(l) && !keys.take(j + 1).contains(l) implies entry_of(#[trigger] lists.map()[l]) == (true, Seq::<ElectoralDistrict>::empty(), false) by {
                    assert(l != k);
                }
            }
            j = j + 1;
        }
        proof {
            assert(keys.take(m as int) =~= keys);
            assert forall|l: CandidateListId| #[trigger] expected_list(os, data, l) == (if lists.map().contains_key(l) {
                Some(entry_of(lists.map()[l]))
            } else {
                None::<(bool, Seq<ElectoralDistrict>, bool)>
            }) by {
                if keys.contains(l) {
                    assert(keys.take(m as int).contains(l));
                }
            }
        }
        Scrapped {
            omissions: causes,
            appellation,
            districts,
            all_districts,
            lists,
            candidates,
        }
    }
}


impl Scrapped {
    /// Whether this omission scraps something.
    pub fn is_caused_by(&self, omission: OmissionId) -> (r: bool)
        ensures
            r == self.omission_set().contains(omission),
    {
        contains_u128(&self.omissions, omission)
    }

    /// The omissions scrapping the appellation.
    pub fn appellation_omissions(&self) -> (r: &Vec<OmissionId>)
        ensures
            r@.to_set() == self.appellation_set(),
            ascending(r@),
            r@.no_duplicates(),
    {
        proof {
            use_type_invariant(self);
            assert forall|i: int, j: int| 0 <= i < self.appellation@.len() && 0 <= j < self.appellation@.len() && i != j
                implies self.appellation@[i] != self.appellation@[j] by {
                if i < j {
                    assert(self.appellation@[i] < self.appellation@[j]);
                } else {
                    assert(self.appellation@[j] < self.appellation@[i]);
                }
            }
        }
        &self.appellation
    }

    /// Whether some omission scraps the appellation.
    pub fn is_appellation_scrapped(&self) -> (r: bool)
        ensures
            r == !self.appellation_set().is_empty(),
    {
        if self.appellation.len() == 0 {
            assert(self.appellation@.to_set() =~= Set::<OmissionId>::empty());
            false
        } else {
            assert(self.appellation@.to_set().contains(self.appellation@[0]));
            true
        }
    }

    /// Whether the district is scrapped: named by a declarations-of-support
    /// omission, or all districts are.
    pub fn is_district_scrapped(&self, district: ElectoralDistrict) -> (r: bool)
        ensures
            r == district_scrapped(self.all_districts_spec(), self.district_set(), district),
    {
        self.all_districts || contains_district(&self.districts, district)
    }

    /// The scrapped districts in the election's district order, given as
    /// `election_districts`.
    pub fn districts(&self, election_districts: &Vec<ElectoralDistrict>) -> (r: Vec<ElectoralDistrict>)
        ensures
            r@ == list_scrapped_districts(self.all_districts_spec(), self.district_set(), election_districts@),
    {
        scrapped_among(self.all_districts, &self.districts, election_districts)
    }

    /// Whether the whole list is scrapped: by a list omission, or because
    /// every district it was submitted in is. An unknown list is not.
    pub fn is_list_scrapped(&self, list: CandidateListId) -> (r: bool)
        ensures
            r == match self.list_entry(list) {
                Some(e) => e.0 || e.2,
                None => false,
            },
    {
        proof {
            use_type_invariant(self);
        }
        match self.lists.get(list) {
            Some(e) => e.is_scrapped(),
            None => false,
        }
    }

    /// The scrapped districts of one list, in the list's district order.
    pub fn list_districts(&self, list: CandidateListId) -> (r: &[ElectoralDistrict])
        ensures
            r@ == match self.list_entry(list) {
                Some(e) => e.1,
                None => Seq::<ElectoralDistrict>::empty(),
            },
    {
        proof {
            use_type_invariant(self);
        }
        match self.lists.get(list) {
            Some(e) => e.districts.as_slice(),
            None => &[],
        }
    }

    /// Whether every district the list was submitted in is scrapped.
    pub fn all_list_districts_scrapped(&self, list: CandidateListId) -> (r: bool)
        ensures
            r == match self.list_entry(list) {
                Some(e) => e.2,
                None => false,
            },
    {
        proof {
            use_type_invariant(self);
        }
        match self.lists.get(list) {
            Some(e) => e.all_districts,
            None => false,
        }
    }

    /// Whether a candidate omission scraps this candidate from this list.
    /// Group and list omissions do not cascade down to the candidates.
    pub fn is_candidate_scrapped(&self, list: CandidateListId, person: PersonId) -> (r: bool)
        ensures
            r == self.candidate_set().contains((list, person)),
    {
        let mut i: usize = 0;
        while i < self.candidates.len()
            invariant
                i <= self.candidates@.len(),
                forall|j: int| 0 <= j < i ==> self.candidates@[j] != (list, person),
            decreases self.candidates@.len() - i,
        {
            if self.candidates[i].0 == list && self.candidates[i].1 == person {
                assert(self.candidates@[i as int] == (list, person));
                assert(self.candidates@.contains((list, person)));
                return true;
            }
            i = i + 1;
        }
        false
    }
}

/// Without scrapped districts, a list keeps none.
proof fn lemma_none_scrapped(ds: Seq<ElectoralDistrict>)
    ensures
        list_scrapped_districts(false, Set::empty(), ds) == Seq::<ElectoralDistrict>::empty(),
    decreases ds.len(),
{
    if ds.len() > 0 {
        lemma_none_scrapped(ds.drop_last());
    }
}

/// When every district of `ds` is scrapped, all of them are kept.
proof fn lemma_all_scrapped(all: bool, named: Set<ElectoralDistrict>, ds: Seq<ElectoralDistrict>)
    requires
        forall|k: int| 0 <= k < ds.len() ==> district_scrapped(all, named, #[trigger] ds[k]),
    ensures
        list_scrapped_districts(all, named, ds) == ds,
    decreases ds.len(),
{
    if ds.len() > 0 {
        let rest = ds.drop_last();
        assert forall|k: int| 0 <= k < rest.len() implies district_scrapped(all, named, #[trigger] rest[k]) by {
            assert(rest[k] == ds[k]);
        }
        lemma_all_scrapped(all, named, rest);
        assert(district_scrapped(all, named, ds[ds.len() - 1]));
        assert(rest + seq![ds.last()] =~= ds);
    }
}

/// Pending and recovered omissions scrap nothing: where no omission is
/// unresolved, no omission causes anything, and no appellation, district,
/// list or candidate is scrapped.
pub proof fn lemma_resolved_omissions_scrap_nothing(
    os: Seq<Omission>,
    blank: bool,
    data: Map<CandidateListId, CandidateList>,
    l: CandidateListId,
)
    requires
        forall|k: int| 0 <= k < os.len() ==> !unresolved(#[trigger] os[k]),
    ensures
        causing(os, blank) == Set::<OmissionId>::empty(),
        appellation_causes(os, blank) == Set::<OmissionId>::empty(),
        !covers_all_districts(os),
        named_districts(os) == Set::<ElectoralDistrict>::empty(),
        whole_lists(os) == Set::<CandidateListId>::empty(),
        scrapped_candidates(os) == Set::<(CandidateListId, PersonId)>::empty(),
        match expected_list(os, data, l) {
            Some(e) => !e.0 && e.1.len() == 0 && !e.2,
            None => true,
        },
{
    assert(causing(os, blank) =~= Set::<OmissionId>::empty());
    assert(appellation_causes(os, blank) =~= Set::<OmissionId>::empty());
    assert(named_districts(os) =~= Set::<ElectoralDistrict>::empty());
    assert(whole_lists(os) =~= Set::<CandidateListId>::empty());
    assert(scrapped_candidates(os) =~= Set::<(CandidateListId, PersonId)>::empty());
    if data.contains_key(l) {
        lemma_none_scrapped(data[l].electoral_districts@);
    }
}

/// Each omission scraps only its own kind of thing: only declarations of
/// support scrap districts, only list omissions lists, only candidate
/// omissions candidates, only appellation omissions the appellation; a
/// political-group omission has no consequences of its own.
pub proof fn lemma_omission_scraps_only_its_own(os: Seq<Omission>, o: Omission, blank: bool)
    ensures
        !(o.category is DeclarationsOfSupport) ==> named_districts(os.push(o)) == named_districts(os)
            && covers_all_districts(os.push(o)) == covers_all_districts(os),
        !(o.category is CandidateList) ==> whole_lists(os.push(o)) == whole_lists(os),
        !(o.category is Candidate) ==> scrapped_candidates(os.push(o)) == scrapped_candidates(os),
        !(o.category is Appellation) ==> appellation_causes(os.push(o), blank) == appellation_causes(os, blank),
        o.category is PoliticalGroup ==> causing(os.push(o), blank) == causing(os, blank),
{
    let p = os.push(o);
    let n = os.len() as int;
    assert(p.take(n) =~= os);
    assert(p.take(n + 1) =~= p);
    assert(p[n] == o);
    lemma_gathered_step(p, n, districts_of());
    lemma_gathered_step(p, n, lists_of());
    lemma_gathered_step(p, n, candidates_of());
    lemma_gathered_step(p, n, appellation_of(blank));
    lemma_gathered_step(p, n, causes_of(blank));
    if !(o.category is DeclarationsOfSupport) {
        assert(named_districts(p) =~= named_districts(os));
        if covers_all_districts(p) {
            let k = choose|k: int| 0 <= k < p.len() && #[trigger] empty_dos(p[k]);
            assert(k < n);
            assert(os[k] == p[k]);
        }
        if covers_all_districts(os) {
            let k = choose|k: int| 0 <= k < os.len() && #[trigger] empty_dos(os[k]);
            assert(p[k] == os[k]);
        }
    }
    if !(o.category is CandidateList) {
        assert(whole_lists(p) =~= whole_lists(os));
    }
    if !(o.category is Candidate) {
        assert(scrapped_candidates(p) =~= scrapped_candidates(os));
    }
    if !(o.category is Appellation) {
        assert(appellation_causes(p, blank) =~= appellation_causes(os, blank));
    }
    if o.category is PoliticalGroup {
        assert(causing(p, blank) =~= causing(os, blank));
    }
}

/// A blank list has no appellation to scrap.
pub proof fn lemma_blank_list_has_no_appellation_to_scrap(os: Seq<Omission>)
    ensures
        appellation_causes(os, true) == Set::<OmissionId>::empty(),
{
    assert(appellation_causes(os, true) =~= Set::<OmissionId>::empty());
}

/// A list is gone once every district it was submitted in is scrapped.
pub proof fn lemma_list_gone_once_all_districts_are(
    os: Seq<Omission>,
    data: Map<CandidateListId, CandidateList>,
    l: CandidateListId,
)
    requires
        data.contains_key(l),
        data[l].electoral_districts@.len() > 0,
        forall|k: int|
            0 <= k < data[l].electoral_districts@.len() ==> district_scrapped(
                covers_all_districts(os),
                named_districts(os),
                #[trigger] data[l].electoral_districts@[k],
            ),
    ensures
        expected_list(os, data, l) matches Some(e) && e.2 && e.1 == data[l].electoral_districts@,
{
    lemma_all_scrapped(covers_all_districts(os), named_districts(os), data[l].electoral_districts@);
}

/// An unresolved declarations-of-support omission that names `d`, or names
/// no district and so covers all.
pub open spec fn dos_covers(o: Omission, d: ElectoralDistrict) -> bool {
    unresolved(o) && dos_districts(o) is Some && (dos_districts(o).unwrap().len() == 0
        || dos_districts(o).unwrap().contains(d))
}

/// An unresolved list omission that names list `l`.
pub open spec fn names_list(o: Omission, l: CandidateListId) -> bool {
    unresolved(o) && list_refs(o) is Some && list_refs(o).unwrap().contains(l)
}

/// Scrapping keeps at most the districts it is given, and fewer when one of
/// them is not scrapped.
proof fn lemma_scrapped_len(all: bool, named: Set<ElectoralDistrict>, ds: Seq<ElectoralDistrict>)
    ensures
        list_scrapped_districts(all, named, ds).len() <= ds.len(),
        (exists|k: int| 0 <= k < ds.len() && !district_scrapped(all, named, #[trigger] ds[k]))
            ==> list_scrapped_districts(all, named, ds).len() < ds.len(),
    decreases ds.len(),
{
    if ds.len() > 0 {
        let rest = ds.drop_last();
        lemma_scrapped_len(all, named, rest);
        assert(ds =~= rest.push(ds.last()));
        ds.lemma_filter_map_take_succ(in_scrapped(all, named), ds.len() - 1);
        assert(ds.take(ds.len() - 1) =~= rest);
        assert(ds.take(ds.len() as int) =~= ds);
        if exists|k: int| 0 <= k < ds.len() && !district_scrapped(all, named, #[trigger] ds[k]) {
            let k = choose|k: int| 0 <= k < ds.len() && !district_scrapped(all, named, #[trigger] ds[k]);
            if k < ds.len() - 1 {
                assert(rest[k] == ds[k]);
            }
        }
    }
}

/// A district is scrapped exactly when an unresolved declarations-of-support
/// omission names it or names no district (which covers all); a list of the
/// data is scrapped exactly when an unresolved list omission names it, or it
/// was submitted in at least one district and every one of them is scrapped.
pub proof fn lemma_scrapped_districts_and_lists(os: Seq<Omission>, data: Map<CandidateListId, CandidateList>)
    ensures
        forall|d: ElectoralDistrict|
            #[trigger] district_scrapped(covers_all_districts(os), named_districts(os), d) <==> exists|k: int|
                0 <= k < os.len() && #[trigger] dos_covers(os[k], d),
        forall|l: CandidateListId|
            #![trigger expected_list(os, data, l)]
            data.contains_key(l) ==> (expected_list(os, data, l) matches Some(e) && (e.0 || e.2) <==> (
            (exists|k: int| 0 <= k < os.len() && #[trigger] names_list(os[k], l)) || (
            data[l].electoral_districts@.len() > 0 && forall|i: int|
                0 <= i < data[l].electoral_districts@.len() ==> district_scrapped(
                    covers_all_districts(os),
                    named_districts(os),
                    #[trigger] data[l].electoral_districts@[i],
                )))),
{
    let all = covers_all_districts(os);
    let named = named_districts(os);
    assert forall|d: ElectoralDistrict|
        #[trigger] district_scrapped(all, named, d) <==> exists|k: int| 0 <= k < os.len() && #[trigger] dos_covers(os[k], d) by {
        if district_scrapped(all, named, d) {
            if all {
                let k = choose|k: int| 0 <= k < os.len() && #[trigger] empty_dos(os[k]);
                assert(dos_covers(os[k], d));
            } else {
                let k = choose|k: int| 0 <= k < os.len() && districts_of()(#[trigger] os[k]).contains(d);
                assert(dos_districts(os[k]).unwrap().contains(d));
                assert(dos_covers(os[k], d));
            }
        }
        if exists|k: int| 0 <= k < os.len() && #[trigger] dos_covers(os[k], d) {
            let k = choose|k: int| 0 <= k < os.len() && #[trigger] dos_covers(os[k], d);
            if dos_districts(os[k]).unwrap().len() == 0 {
                assert(empty_dos(os[k]));
            } else {
                assert(dos_districts(os[k]).unwrap().to_set().contains(d));
                assert(districts_of()(os[k]).contains(d));
                assert(named.contains(d));
            }
        }
    }
    assert forall|l: CandidateListId|
        #![trigger expected_list(os, data, l)]
        data.contains_key(l) implies (expected_list(os, data, l) matches Some(e) && (e.0 || e.2) <==> (
        (exists|k: int| 0 <= k < os.len() && #[trigger] names_list(os[k], l)) || (
        data[l].electoral_districts@.len() > 0 && forall|i: int|
            0 <= i < data[l].electoral_districts@.len() ==> district_scrapped(
                all,
                named,
                #[trigger] data[l].electoral_districts@[i],
            )))) by {
        let own = data[l].electoral_districts@;
        let ds = list_scrapped_districts(all, named, own);
        lemma_scrapped_len(all, named, own);
        if forall|i: int| 0 <= i < own.len() ==> district_scrapped(all, named, #[trigger] own[i]) {
            lemma_all_scrapped(all, named, own);
        }
        if whole_lists(os).contains(l) {
            let k = choose|k: int| 0 <= k < os.len() && lists_of()(#[trigger] os[k]).contains(l);
            assert(names_list(os[k], l));
        }
        if exists|k: int| 0 <= k < os.len() && #[trigger] names_list(os[k], l) {
            let k = choose|k: int| 0 <= k < os.len() && #[trigger] names_list(os[k], l);
            assert(list_refs(os[k]).unwrap().to_set().contains(l));
            assert(lists_of()(os[k]).contains(l));
            assert(whole_lists(os).contains(l));
        }
    }
}

/// The scrapped districts among `ds`, in their order.
fn scrapped_among(all: bool, named: &Vec<ElectoralDistrict>, ds: &Vec<ElectoralDistrict>) -> (r: Vec<ElectoralDistrict>)
    ensures
        r@ == list_scrapped_districts(all, named@.to_set(), ds@),
{
    let mut kept: Vec<ElectoralDistrict> = Vec::new();
    let mut i: usize = 0;
    while i < ds.len()
        invariant
            i <= ds@.len(),
            kept@ == list_scrapped_districts(all, named@.to_set(), ds@.take(i as int)),
        decreases ds@.len() - i,
    {
        proof {
            ds@.lemma_filter_map_take_succ(in_scrapped(all, named@.to_set()), i as int);
        }
        if all || contains_district(named, ds[i]) {
            kept.push(ds[i]);
        }
        i = i + 1;
    }
    assert(ds@.take(ds@.len() as int) =~= ds@);
    kept
}

fn contains_district(v: &Vec<ElectoralDistrict>, x: ElectoralDistrict) -> (r: bool)
    ensures
        r == v@.to_set().contains(x),
{
    let mut i: usize = 0;
    while i < v.len()
        invariant
            i <= v@.len(),
            forall|j: int| 0 <= j < i ==> v@[j] != x,
        decreases v@.len() - i,
    {
        if v[i] == x {
            assert(v@.contains(x));
            return true;
        }
        i = i + 1;
    }
    false
}

/// Mark each list of `ls` as scrapped whole.
fn mark_whole_lists(lists: &mut IdMap<ScrappedList>, ls: &Vec<CandidateListId>)
    requires
        old(lists).wf(),
        forall|l: CandidateListId| #[trigger] old(lists).map().contains_key(l) ==> entry_of(old(lists).map()[l]) == (true, Seq::<ElectoralDistrict>::empty(), false),
    ensures
        final(lists).wf(),
        forall|l: CandidateListId| #[trigger] final(lists).map().contains_key(l) == (old(lists).map().contains_key(l) || ls@.contains(l)),
        forall|l: CandidateListId| #[trigger] final(lists).map().contains_key(l) ==> entry_of(final(lists).map()[l]) == (true, Seq::<ElectoralDistrict>::empty(), false),
{
    let mut j: usize = 0;
    while j < ls.len()
        invariant
            j <= ls@.len(),
            lists.wf(),
            forall|l: CandidateListId| #[trigger] lists.map().contains_key(l) == (old(lists).map().contains_key(l) || ls@.take(j as int).contains(l)),
            forall|l: CandidateListId| #[trigger] lists.map().contains_key(l) ==> entry_of(lists.map()[l]) == (true, Seq::<ElectoralDistrict>::empty(), false),
        decreases ls@.len() - j,
    {
        let l = ls[j];
        lists.insert(l, ScrappedList { whole: true, districts: Vec::new(), all_districts: false });
        proof {
            lemma_take_succ_contains(ls@, j as int);
        }
        j = j + 1;
    }
    assert(ls@.take(ls@.len() as int) =~= ls@);
}

/// Add `(l, person)` for each list `l` of `ls` to the set held in `v`.
fn insert_candidate_pairs(v: &mut Vec<(CandidateListId, PersonId)>, ls: &Vec<CandidateListId>, person: PersonId)
    ensures
        final(v)@.to_set() == old(v)@.to_set().union(
            Set::new(|p: (CandidateListId, PersonId)| p.1 == person && ls@.contains(p.0)),
        ),
{
    let mut j: usize = 0;
    while j < ls.len()
        invariant
            j <= ls@.len(),
            v@.to_set() == old(v)@.to_set().union(
                Set::new(|p: (CandidateListId, PersonId)| p.1 == person && ls@.take(j as int).contains(p.0)),
            ),
        decreases ls@.len() - j,
    {
        let l = ls[j];
        set_insert_pair(v, (l, person));
        proof {
            lemma_take_succ_contains(ls@, j as int);
            assert(v@.to_set() =~= old(v)@.to_set().union(
                Set::new(|p: (CandidateListId, PersonId)| p.1 == person && ls@.take(j + 1).contains(p.0)),
            ));
        }
        j = j + 1;
    }
    assert(ls@.take(ls@.len() as int) =~= ls@);
}

fn contains_u128(v: &Vec<u128>, x: u128) -> (r: bool)
    ensures
        r == v@.to_set().contains(x),
        r == v@.contains(x),
{
    let mut i: usize = 0;
    while i < v.len()
        invariant
            i <= v@.len(),
            forall|j: int| 0 <= j < i ==> v@[j] != x,
        decreases v@.len() - i,
    {
        if v[i] == x {
            assert(v@.contains(x));
            return true;
        }
        i = i + 1;
    }
    false
}

/// Strictly ascending: sorted, each id once.
pub open spec fn ascending(v: Seq<u128>) -> bool {
    forall|i: int, j: int| 0 <= i < j < v.len() ==> #[trigger] v[i] < #[trigger] v[j]
}

/// Add `x` to the ascending set held in `v`, keeping it ascending.
fn sorted_insert_id(v: &mut Vec<u128>, x: u128)
    requires
        ascending(old(v)@),
    ensures
        ascending(final(v)@),
        final(v)@.to_set() == old(v)@.to_set().insert(x),
{
    let mut i: usize = 0;
    while i < v.len() && v[i] < x
        invariant
            i <= v@.len(),
            v@ == old(v)@,
            forall|j: int| 0 <= j < i ==> v@[j] < x,
        decreases v@.len() - i,
    {
        i = i + 1;
    }
    if i < v.len() && v[i] == x {
        assert(v@.to_set() =~= v@.to_set().insert(x)) by {
            assert(v@.contains(x));
        }
        return;
    }
    let ghost o = v@;
    v.insert(i, x);
    assert(v@ == o.insert(i as int, x));
    assert forall|a: int, b: int| 0 <= a < b < v@.len() implies #[trigger] v@[a] < #[trigger] v@[b] by {
        if a < i && b == i {
        } else if a < i && b > i {
            assert(v@[b] == o[b - 1]);
            assert(o[a] < o[b - 1]);
        } else if a == i {
            assert(v@[b] == o[b - 1]);
            assert(o[b - 1] >= x);
            assert(o[b - 1] != x);
        } else if a > i {
            assert(v@[a] == o[a - 1] && v@[b] == o[b - 1]);
        } else {
            assert(v@[a] == o[a] && v@[b] == o[b]);
        }
    }
    assert(v@.to_set() =~= o.to_set().insert(x)) by {
        assert forall|y: u128| #[trigger] v@.to_set().contains(y) <==> o.to_set().insert(x).contains(y) by {
            if v@.contains(y) && y != x {
                let k = choose|k: int| 0 <= k < v@.len() && v@[k] == y;
                if k < i {
                    assert(o[k] == y);
                } else {
                    assert(o[k - 1] == y);
                }
            }
            if o.contains(y) {
                let k = choose|k: int| 0 <= k < o.len() && o[k] == y;
                if k < i {
                    assert(v@[k] == y);
                } else {
                    assert(v@[k + 1] == y);
                }
            }
            if y == x {
                assert(v@[i as int] == x);
            }
        }
    }
}

/// Add `x` to the set held in `v`.
fn set_insert_id(v: &mut Vec<u128>, x: u128)
    ensures
        final(v)@.to_set() == old(v)@.to_set().insert(x),
{
    let mut i: usize = 0;
    while i < v.len()
        invariant
            i <= v@.len(),
            v@ == old(v)@,
            forall|j: int| 0 <= j < i ==> v@[j] != x,
        decreases v@.len() - i,
    {
        if v[i] == x {
            assert(v@.to_set() =~= v@.to_set().insert(x)) by {
                assert(v@.contains(x));
            }
            return;
        }
        i = i + 1;
    }
    v.push(x);
    assert(v@.to_set() =~= old(v)@.to_set().insert(x)) by {
        assert forall|y: u128| v@.contains(y) <==> old(v)@.contains(y) || y == x by {
            if v@.contains(y) && y != x {
                let k = choose|k: int| 0 <= k < v@.len() && v@[k] == y;
                assert(old(v)@[k] == y);
            }
            if old(v)@.contains(y) {
                let k = choose|k: int| 0 <= k < old(v)@.len() && old(v)@[k] == y;
                assert(v@[k] == y);
            }
            if y == x {
                assert(v@[v@.len() - 1] == x);
            }
        }
    }
}

/// Add `x` to the set held in `v`.
fn set_insert_district(v: &mut Vec<ElectoralDistrict>, x: ElectoralDistrict)
    ensures
        final(v)@.to_set() == old(v)@.to_set().insert(x),
{
    let mut i: usize = 0;
    while i < v.len()
        invariant
            i <= v@.len(),
            v@ == old(v)@,
            forall|j: int| 0 <= j < i ==> v@[j] != x,
        decreases v@.len() - i,
    {
        if v[i] == x {
            assert(v@.to_set() =~= v@.to_set().insert(x)) by {
                assert(v@.contains(x));
            }
            return;
        }
        i = i + 1;
    }
    v.push(x);
    assert(v@.to_set() =~= old(v)@.to_set().insert(x)) by {
        assert forall|y: ElectoralDistrict| v@.contains(y) <==> old(v)@.contains(y) || y == x by {
            if v@.contains(y) && y != x {
                let k = choose|k: int| 0 <= k < v@.len() && v@[k] == y;
                assert(old(v)@[k] == y);
            }
            if old(v)@.contains(y) {
                let k = choose|k: int| 0 <= k < old(v)@.len() && old(v)@[k] == y;
                assert(v@[k] == y);
            }
            if y == x {
                assert(v@[v@.len() - 1] == x);
            }
        }
    }
}

/// Add `x` to the set held in `v`.
fn set_insert_pair(v: &mut Vec<(CandidateListId, PersonId)>, x: (CandidateListId, PersonId))
    ensures
        final(v)@.to_set() == old(v)@.to_set().insert(x),
{
    let mut i: usize = 0;
    while i < v.len()
        invariant
            i <= v@.len(),
            v@ == old(v)@,
            forall|j: int| 0 <= j < i ==> v@[j] != x,
        decreases v@.len() - i,
    {
        if v[i].0 == x.0 && v[i].1 == x.1 {
            assert(v@.to_set() =~= v@.to_set().insert(x)) by {
                assert(v@[i as int] == x);
                assert(v@.contains(x));
            }
            return;
        }
        i = i + 1;
    }
    v.push(x);
    assert(v@.to_set() =~= old(v)@.to_set().insert(x)) by {
        assert forall|y: (CandidateListId, PersonId)| v@.contains(y) <==> old(v)@.contains(y) || y == x by {
            if v@.contains(y) && y != x {
                let k = choose|k: int| 0 <= k < v@.len() && v@[k] == y;
                assert(old(v)@[k] == y);
            }
            if old(v)@.contains(y) {
                let k = choose|k: int| 0 <= k < old(v)@.len() && old(v)@[k] == y;
                assert(v@[k] == y);
            }
            if y == x {
                assert(v@[v@.len() - 1] == x);
            }
        }
    }
}

/// Add every element of `xs` to the set held in `v`.
fn set_extend_districts(v: &mut Vec<ElectoralDistrict>, xs: &Vec<ElectoralDistrict>)
    ensures
        final(v)@.to_set() == old(v)@.to_set().union(xs@.to_set()),
{
    let mut i: usize = 0;
    while i < xs.len()
        invariant
            i <= xs@.len(),
            v@.to_set() == old(v)@.to_set().union(xs@.take(i as int).to_set()),
        decreases xs@.len() - i,
    {
        set_insert_district(v, xs[i]);
        proof {
            lemma_take_succ_contains(xs@, i as int);
        }
        assert(xs@.take(i + 1).to_set() =~= xs@.take(i as int).to_set().insert(xs@[i as int]));
        assert(v@.to_set() =~= old(v)@.to_set().union(xs@.take(i + 1).to_set()));
        i = i + 1;
    }
    assert(xs@.take(xs@.len() as int) =~= xs@);
}

} // verus!
