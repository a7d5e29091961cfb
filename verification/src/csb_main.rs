//! The global committee stream: who logged in, the registered political
//! groups with their previous results, and the order of the lists.

use vstd::prelude::*;

use crate::entities::push_all;
use crate::error::AppError;
use crate::event::StoreEvent;
use crate::event_hash_prefix::string_push;
use crate::store::StoreData;
use crate::stream::{uuid_text, Scope, StreamId};
use crate::text::{decimal, push_decimal};

verus! {

pub type RegisteredPoliticalGroupId = u128;

/// A committee member, by account id.
#[derive(Clone, Copy, Debug, PartialEq, Eq, Structural)]
pub struct CsbUser {
    pub id: u128,
}

/// A political group's registered appellation and previous election result,
/// recorded for the numbering of the candidate lists.
#[derive(Debug, PartialEq, Eq)]
pub struct RegisteredPoliticalGroup {
    pub id: RegisteredPoliticalGroupId,
    pub appellation: String,
    pub previous_votes: u64,
    pub previous_seats: u64,
}

impl Clone for RegisteredPoliticalGroup {
    fn clone(&self) -> (r: Self)
        ensures
            r == *self,
    {
        RegisteredPoliticalGroup {
            id: self.id,
            appellation: self.appellation.clone(),
            previous_votes: self.previous_votes,
            previous_seats: self.previous_seats,
        }
    }
}

/// Actions on the global committee stream.
#[derive(Debug)]
pub enum CsbMainAction {
    /// A committee member logged in.
    Login,
    /// A committee member signed out.
    Logout,
    CreateRegisteredPoliticalGroup(RegisteredPoliticalGroup),
    UpdateRegisteredPoliticalGroup(RegisteredPoliticalGroup),
    DeleteRegisteredPoliticalGroup(RegisteredPoliticalGroupId),
    UpdateListOrder(Vec<StreamId>),
}

/// An event on the global committee stream: the acting member and what they
/// did.
#[derive(Debug)]
pub struct CsbMainEvent {
    /// The committee member that triggered the event.
    pub user: CsbUser,
    pub action: CsbMainAction,
}

impl CsbMainAction {
    /// Attach the acting committee member, producing the event to persist.
    pub fn by_user(self, user: CsbUser) -> (e: CsbMainEvent)
        ensures
            e == (CsbMainEvent { user, action: self }),
    {
        CsbMainEvent { user, action: self }
    }
}

/// The audit-log category of an action.
pub open spec fn main_category(a: CsbMainAction) -> &'static str {
    match a {
        CsbMainAction::Login | CsbMainAction::Logout => "system",
        CsbMainAction::CreateRegisteredPoliticalGroup(_)
        | CsbMainAction::UpdateRegisteredPoliticalGroup(_)
        | CsbMainAction::DeleteRegisteredPoliticalGroup(_) => "registered_political_group",
        CsbMainAction::UpdateListOrder(_) => "numbering",
    }
}

/// The audit-log key of an action.
pub open spec fn main_key(a: CsbMainAction) -> &'static str {
    match a {
        CsbMainAction::Login => "login",
        CsbMainAction::Logout => "logout",
        CsbMainAction::CreateRegisteredPoliticalGroup(_) => "create_registered_political_group",
        CsbMainAction::UpdateRegisteredPoliticalGroup(_) => "update_registered_political_group",
        CsbMainAction::DeleteRegisteredPoliticalGroup(_) => "delete_registered_political_group",
        CsbMainAction::UpdateListOrder(_) => "update_list_order",
    }
}

/// `appellation: <votes> votes, <seats> seats`.
pub open spec fn group_details(g: RegisteredPoliticalGroup) -> Seq<char> {
    g.appellation@ + seq![':', ' '] + decimal(g.previous_votes as nat) + seq![' ', 'v', 'o', 't', 'e', 's', ',', ' ']
        + decimal(g.previous_seats as nat) + seq![' ', 's', 'e', 'a', 't', 's']
}

/// The stream ids spelled out and joined by `", "`.
pub open spec fn joined_ids(ids: Seq<StreamId>) -> Seq<char>
    decreases ids.len(),
{
    if ids.len() == 0 {
        Seq::empty()
    } else if ids.len() == 1 {
        uuid_text(ids[0].0)
    } else {
        joined_ids(ids.drop_last()) + seq![',', ' '] + uuid_text(ids.last().0)
    }
}

/// The listing-row details of an action.
pub open spec fn main_details(a: CsbMainAction) -> Seq<char> {
    match a {
        CsbMainAction::Login | CsbMainAction::Logout => Seq::empty(),
        CsbMainAction::CreateRegisteredPoliticalGroup(g) | CsbMainAction::UpdateRegisteredPoliticalGroup(g) => group_details(g),
        CsbMainAction::DeleteRegisteredPoliticalGroup(id) => uuid_text(id),
        CsbMainAction::UpdateListOrder(order) => joined_ids(order@),
    }
}

impl CsbMainEvent {
    /// The committee member that triggered the event.
    pub fn csb_user(&self) -> (r: &CsbUser)
        ensures
            *r == self.user,
    {
        &self.user
    }

    /// A stable category key for filtering in the audit log.
    pub fn category(&self) -> (r: &'static str)
        ensures
            r == main_category(self.action),
    {
        match self.action {
            CsbMainAction::Login | CsbMainAction::Logout => "system",
            CsbMainAction::CreateRegisteredPoliticalGroup(_)
            | CsbMainAction::UpdateRegisteredPoliticalGroup(_)
            | CsbMainAction::DeleteRegisteredPoliticalGroup(_) => "registered_political_group",
            CsbMainAction::UpdateListOrder(_) => "numbering",
        }
    }

    /// A stable snake_case key identifying the action.
    pub fn key(&self) -> (r: &'static str)
        ensures
            r == main_key(self.action),
    {
        match self.action {
            CsbMainAction::Login => "login",
            CsbMainAction::Logout => "logout",
            CsbMainAction::CreateRegisteredPoliticalGroup(_) => "create_registered_political_group",
            CsbMainAction::UpdateRegisteredPoliticalGroup(_) => "update_registered_political_group",
            CsbMainAction::DeleteRegisteredPoliticalGroup(_) => "delete_registered_political_group",
            CsbMainAction::UpdateListOrder(_) => "update_list_order",
        }
    }

    /// Short human-readable details for a listing row.
    pub fn details(&self) -> (r: String)
        ensures
            r@ == main_details(self.action),
    {
        match &self.action {
            CsbMainAction::Login | CsbMainAction::Logout => String::new(),
            CsbMainAction::CreateRegisteredPoliticalGroup(group) | CsbMainAction::UpdateRegisteredPoliticalGroup(group) => {
                let mut s = String::new();
                push_all(&mut s, group.appellation.as_str());
                string_push(&mut s, ':');
                string_push(&mut s, ' ');
                push_decimal(&mut s, group.previous_votes);
                string_push(&mut s, ' ');
                string_push(&mut s, 'v');
                string_push(&mut s, 'o');
                string_push(&mut s, 't');
                string_push(&mut s, 'e');
                string_push(&mut s, 's');
                string_push(&mut s, ',');
                string_push(&mut s, ' ');
                push_decimal(&mut s, group.previous_seats);
                string_push(&mut s, ' ');
                string_push(&mut s, 's');
                string_push(&mut s, 'e');
                string_push(&mut s, 'a');
                string_push(&mut s, 't');
                string_push(&mut s, 's');
                assert(s@ =~= group_details(*group));
                s
            },
            CsbMainAction::DeleteRegisteredPoliticalGroup(id) => StreamId(*id).to_string(),
            CsbMainAction::UpdateListOrder(order) => {
                let mut s = String::new();
                let mut i: usize = 0;
                while i < order.len()
                    invariant
                        i <= order@.len(),
                        s@ == joined_ids(order@.take(i as int)),
                    decreases order@.len() - i,
                {
                    if i > 0 {
                        string_push(&mut s, ',');
                        string_push(&mut s, ' ');
                    }
                    let t = order[i].to_string();
                    push_all(&mut s, t.as_str());
                    proof {
                        let next = order@.take(i + 1);
                        assert(next.drop_last() =~= order@.take(i as int));
                        assert(next.last() == order@[i as int]);
                        if i == 0 {
                            assert(s@ =~= joined_ids(next));
                        } else {
                            assert(s@ =~= joined_ids(next));
                        }
                    }
                    i = i + 1;
                }
                assert(order@.take(order@.len() as int) =~= order@);
                s
            },
        }
    }
}


/// Whether `k` is the first position of `gs` holding group `id`.
pub open spec fn first_with_id(gs: Seq<RegisteredPoliticalGroup>, id: RegisteredPoliticalGroupId, k: int) -> bool {
    0 <= k < gs.len() && gs[k].id == id && forall|j: int| 0 <= j < k ==> #[trigger] gs[j].id != id
}

/// The first group of `gs` with id `id`, if any.
pub open spec fn find_group(gs: Seq<RegisteredPoliticalGroup>, id: RegisteredPoliticalGroupId) -> Option<RegisteredPoliticalGroup> {
    if exists|k: int| first_with_id(gs, id, k) {
        Some(gs[choose|k: int| first_with_id(gs, id, k)])
    } else {
        None
    }
}

/// `gs` with the first group carrying `g`'s id replaced by `g`; unchanged
/// when there is none.
pub open spec fn replace_first(gs: Seq<RegisteredPoliticalGroup>, g: RegisteredPoliticalGroup) -> Seq<RegisteredPoliticalGroup> {
    if exists|k: int| first_with_id(gs, g.id, k) {
        gs.update(choose|k: int| first_with_id(gs, g.id, k), g)
    } else {
        gs
    }
}

/// Keeps the groups other than `id`.
pub open spec fn other_group(id: RegisteredPoliticalGroupId) -> spec_fn(RegisteredPoliticalGroup) -> Option<RegisteredPoliticalGroup> {
    |g: RegisteredPoliticalGroup| if g.id != id { Some(g) } else { None }
}

/// `gs` without the groups with id `id`.
pub open spec fn without_group(gs: Seq<RegisteredPoliticalGroup>, id: RegisteredPoliticalGroupId) -> Seq<RegisteredPoliticalGroup> {
    gs.filter_map(other_group(id))
}

/// The registered groups after an action.
pub open spec fn groups_after(gs: Seq<RegisteredPoliticalGroup>, a: CsbMainAction) -> Seq<RegisteredPoliticalGroup> {
    match a {
        CsbMainAction::CreateRegisteredPoliticalGroup(g) => gs.push(g),
        CsbMainAction::UpdateRegisteredPoliticalGroup(g) => replace_first(gs, g),
        CsbMainAction::DeleteRegisteredPoliticalGroup(id) => without_group(gs, id),
        _ => gs,
    }
}

/// The list order after an action.
pub open spec fn order_after(order: Seq<StreamId>, a: CsbMainAction) -> Seq<StreamId> {
    match a {
        CsbMainAction::UpdateListOrder(o) => o@,
        _ => order,
    }
}

/// The lowercase form of `text`, as `str::to_lowercase` computes it.
pub uninterp spec fn lowercase(text: Seq<char>) -> Seq<char>;

/// Calls `str::to_lowercase`. Trusted: the result is what `lowercase` names
/// for the text.
#[verifier::external_body]
fn to_lowercase(text: &str) -> (r: String)
    ensures
        r@ == lowercase(text@),
{
    text.to_lowercase()
}

/// Global committee state: the events, the registered political groups and
/// the order of the lists.
pub struct CsbMainStoreData {
    events: Vec<StoreEvent<CsbMainEvent>>,
    registered_political_groups: Vec<RegisteredPoliticalGroup>,
    list_order: Vec<StreamId>,
}

impl CsbMainStoreData {
    /// The registered political groups, in registration order.
    pub closed spec fn groups(&self) -> Seq<RegisteredPoliticalGroup> {
        self.registered_political_groups@
    }

    /// The order of the lists.
    pub closed spec fn order(&self) -> Seq<StreamId> {
        self.list_order@
    }

    /// The state before any event.
    pub fn new() -> (d: Self)
        ensures
            d.log() == Seq::<StoreEvent<CsbMainEvent>>::empty(),
            d.groups() == Seq::<RegisteredPoliticalGroup>::empty(),
            d.order() == Seq::<StreamId>::empty(),
    {
        CsbMainStoreData { events: Vec::new(), registered_political_groups: Vec::new(), list_order: Vec::new() }
    }

    /// The registered group with this id.
    pub fn get_registered_political_group(&self, id: RegisteredPoliticalGroupId) -> (r: Result<RegisteredPoliticalGroup, AppError>)
        ensures
            r == match find_group(self.groups(), id) {
                Some(g) => Ok(g),
                None => Err(AppError::GenericNotFound),
            },
    {
        match position_of_group(&self.registered_political_groups, id) {
            Some(i) => Ok(self.registered_political_groups[i].clone()),
            None => Err(AppError::GenericNotFound),
        }
    }

    /// The registered political groups, in registration order.
    pub fn registered_groups(&self) -> (r: &Vec<RegisteredPoliticalGroup>)
        ensures
            r@ == self.groups(),
    {
        &self.registered_political_groups
    }

    /// The order of the lists.
    pub fn list_order(&self) -> (r: &Vec<StreamId>)
        ensures
            r@ == self.order(),
    {
        &self.list_order
    }

    /// Whether a registered group other than `except` already carries
    /// `appellation`, ignoring case.
    pub fn has_registered_appellation(&self, appellation: &str, except: Option<RegisteredPoliticalGroupId>) -> (r: bool)
        ensures
            r == exists|i: int|
                0 <= i < self.groups().len() && Some(#[trigger] self.groups()[i].id) != except
                    && lowercase(self.groups()[i].appellation@) == lowercase(appellation@),
    {
        let wanted = to_lowercase(appellation);
        let gs = &self.registered_political_groups;
        let mut i: usize = 0;
        while i < gs.len()
            invariant
                i <= gs@.len(),
                gs@ == self.groups(),
                wanted@ == lowercase(appellation@),
                forall|j: int|
                    0 <= j < i ==> !(Some(#[trigger] gs@[j].id) != except && lowercase(gs@[j].appellation@) == lowercase(appellation@)),
            decreases gs@.len() - i,
        {
            let other = match except {
                Some(e) => gs[i].id != e,
                None => true,
            };
            if other {
                let name = to_lowercase(gs[i].appellation.as_str());
                if name == wanted {
                    assert(Some(gs@[i as int].id) != except);
                    return true;
                }
            }
            i = i + 1;
        }
        false
    }
}

/// The first position of group `id` in `gs`.
fn position_of_group(gs: &Vec<RegisteredPoliticalGroup>, id: RegisteredPoliticalGroupId) -> (r: Option<usize>)
    ensures
        match r {
            Some(i) => first_with_id(gs@, id, i as int) && find_group(gs@, id) == Some(gs@[i as int]),
            None => !(exists|k: int| first_with_id(gs@, id, k)) && find_group(gs@, id) is None,
        },
{
    let mut i: usize = 0;
    while i < gs.len()
        invariant
            i <= gs@.len(),
            forall|j: int| 0 <= j < i ==> #[trigger] gs@[j].id != id,
        decreases gs@.len() - i,
    {
        if gs[i].id == id {
            proof {
                assert(first_with_id(gs@, id, i as int));
                let k = choose|k: int| first_with_id(gs@, id, k);
                if k < i {
                    assert(gs@[k].id != id);
                }
                if k > i {
                    assert(gs@[i as int].id != id);
                }
            }
            return Some(i);
        }
        i = i + 1;
    }
    None
}

impl StoreData for CsbMainStoreData {
    type Event = CsbMainEvent;

    closed spec fn log(&self) -> Seq<StoreEvent<CsbMainEvent>> {
        self.events@
    }

    fn apply(&mut self, event: StoreEvent<CsbMainEvent>)
        ensures
            final(self).groups() == groups_after(old(self).groups(), event.payload.action),
            final(self).order() == order_after(old(self).order(), event.payload.action),
    {
        match &event.payload.action {
            CsbMainAction::Login | CsbMainAction::Logout => {},
            CsbMainAction::CreateRegisteredPoliticalGroup(group) => {
                self.registered_political_groups.push(group.clone());
            },
            CsbMainAction::UpdateRegisteredPoliticalGroup(group) => {
                match position_of_group(&self.registered_political_groups, group.id) {
                    Some(i) => {
                        proof {
                            let k = choose|k: int| first_with_id(self.registered_political_groups@, group.id, k);
                            assert(first_with_id(self.registered_political_groups@, group.id, k));
                            if k < i {
                                assert(self.registered_political_groups@[k].id != group.id);
                            }
                            if k > i {
                                assert(self.registered_political_groups@[i as int].id != group.id);
                            }
                        }
                        self.registered_political_groups.set(i, group.clone());
                    },
                    None => {},
                }
            },
            CsbMainAction::DeleteRegisteredPoliticalGroup(id) => {
                let ghost before = self.registered_political_groups@;
                let mut kept: Vec<RegisteredPoliticalGroup> = Vec::new();
                let mut i: usize = 0;
                while i < self.registered_political_groups.len()
                    invariant
                        i <= before.len(),
                        self.registered_political_groups@ == before,
                        kept@ == without_group(before.take(i as int), *id),
                    decreases before.len() - i,
                {
                    proof {
                        before.lemma_filter_map_take_succ(other_group(*id), i as int);
                    }
                    if self.registered_political_groups[i].id != *id {
                        kept.push(self.registered_political_groups[i].clone());
                    }
                    i = i + 1;
                }
                assert(before.take(before.len() as int) =~= before);
                self.registered_political_groups = kept;
            },
            CsbMainAction::UpdateListOrder(order) => {
                let mut copy: Vec<StreamId> = Vec::new();
                let mut i: usize = 0;
                while i < order.len()
                    invariant
                        i <= order@.len(),
                        copy@ == order@.take(i as int),
                    decreases order@.len() - i,
                {
                    copy.push(order[i]);
                    assert(copy@ =~= order@.take(i + 1));
                    i = i + 1;
                }
                assert(copy@ =~= order@);
                self.list_order = copy;
            },
        }
        self.events.push(event);
    }

    fn events(&self) -> (r: &Vec<StoreEvent<CsbMainEvent>>) {
        &self.events
    }

    fn scope() -> (r: Scope)
        ensures
            r == Scope::CentralElectoralCommittee,
    {
        Scope::CentralElectoralCommittee
    }
}

/// Updating a group nobody registered is ignored.
pub proof fn lemma_update_of_unknown_group_is_ignored(gs: Seq<RegisteredPoliticalGroup>, g: RegisteredPoliticalGroup)
    requires
        forall|i: int| 0 <= i < gs.len() ==> #[trigger] gs[i].id != g.id,
    ensures
        groups_after(gs, CsbMainAction::UpdateRegisteredPoliticalGroup(g)) == gs,
{
}

/// An update replaces the registered group: afterwards its id finds the
/// new value.
pub proof fn lemma_update_replaces_the_group(gs: Seq<RegisteredPoliticalGroup>, g: RegisteredPoliticalGroup)
    requires
        exists|i: int| 0 <= i < gs.len() && #[trigger] gs[i].id == g.id,
    ensures
        find_group(groups_after(gs, CsbMainAction::UpdateRegisteredPoliticalGroup(g)), g.id) == Some(g),
{
    let i = choose|i: int| 0 <= i < gs.len() && #[trigger] gs[i].id == g.id;
    lemma_first_exists(gs, g.id, i);
    let k = choose|k: int| first_with_id(gs, g.id, k);
    let after = gs.update(k, g);
    assert(first_with_id(after, g.id, k));
    let k2 = choose|k2: int| first_with_id(after, g.id, k2);
    if k2 < k {
        assert(after[k2] == gs[k2]);
    }
    if k2 > k {
        assert(after[k].id == g.id);
    }
}

/// Where some group has `id`, a first one does.
proof fn lemma_first_exists(gs: Seq<RegisteredPoliticalGroup>, id: RegisteredPoliticalGroupId, i: int)
    requires
        0 <= i < gs.len(),
        gs[i].id == id,
    ensures
        exists|k: int| first_with_id(gs, id, k),
    decreases i,
{
    if forall|j: int| 0 <= j < i ==> #[trigger] gs[j].id != id {
        assert(first_with_id(gs, id, i));
    } else {
        let j = choose|j: int| 0 <= j < i && #[trigger] gs[j].id == id;
        lemma_first_exists(gs, id, j);
    }
}

/// A deleted group is gone: no registered group keeps its id.
pub proof fn lemma_delete_removes_the_group(gs: Seq<RegisteredPoliticalGroup>, id: RegisteredPoliticalGroupId)
    ensures
        find_group(groups_after(gs, CsbMainAction::DeleteRegisteredPoliticalGroup(id)), id) is None,
{
    let after = without_group(gs, id);
    if exists|k: int| first_with_id(after, id, k) {
        let k = choose|k: int| first_with_id(after, id, k);
        assert(after.contains(after[k]));
        gs.lemma_filter_map_contains(other_group(id), after[k]);
    }
}

} // verus!
