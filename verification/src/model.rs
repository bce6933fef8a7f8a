//! The entities of the store and their mathematical views.

use crate::annotations::Annotations;
use crate::ids::{ascending, contains_id, insert_id, is_ascending, same_ids, with_id};
use crate::names::{
    clone_names, contains_name, insert_name, inserted, is_strictly_sorted, same_names,
    strictly_sorted, views,
};
use crate::text::{ascii_lowercase, str_eq, to_ascii_lowercase};
use vstd::prelude::*;

verus! {

/// The views of a list of values.
pub open spec fn views_of<T: View>(s: Seq<T>) -> Seq<T::V> {
    Seq::new(s.len(), |i: int| s[i]@)
}

/// Where an operation stands in its life.
#[derive(Clone, Copy, Debug, PartialEq, Eq, Structural)]
pub enum OperationState {
    /// The operation is planned but not started yet.
    Planned,
    /// The operation is in progress.
    InProgress,
    /// The operation is paused.
    Paused,
    /// The operation was finished successfully.
    Completed,
    /// The operation was finished unsuccessfully.
    Aborted,
    /// The operation was canceled before starting.
    Canceled,
}

/// The legal changes of status: staying in a status, and the moves
/// Planned to InProgress or Canceled, Paused to InProgress, and InProgress to
/// Paused, Completed or Aborted.
pub open spec fn can_transition(from: OperationState, to: OperationState) -> bool {
    from == to || match (from, to) {
        (OperationState::Planned, OperationState::InProgress) => true,
        (OperationState::Planned, OperationState::Canceled) => true,
        (OperationState::Paused, OperationState::InProgress) => true,
        (OperationState::InProgress, OperationState::Paused) => true,
        (OperationState::InProgress, OperationState::Completed) => true,
        (OperationState::InProgress, OperationState::Aborted) => true,
        _ => false,
    }
}

/// The name of a status as it is written and read.
pub open spec fn state_name(state: OperationState) -> Seq<char> {
    match state {
        OperationState::Planned => "planned"@,
        OperationState::InProgress => "in_progress"@,
        OperationState::Paused => "paused"@,
        OperationState::Completed => "completed"@,
        OperationState::Aborted => "aborted"@,
        OperationState::Canceled => "canceled"@,
    }
}

/// The status that a text names, whatever the case of its ASCII letters.
pub open spec fn parsed_state(s: Seq<char>) -> Option<OperationState> {
    let l = ascii_lowercase(s);
    if l == "planned"@ {
        Some(OperationState::Planned)
    } else if l == "in_progress"@ {
        Some(OperationState::InProgress)
    } else if l == "paused"@ {
        Some(OperationState::Paused)
    } else if l == "completed"@ {
        Some(OperationState::Completed)
    } else if l == "aborted"@ {
        Some(OperationState::Aborted)
    } else if l == "canceled"@ {
        Some(OperationState::Canceled)
    } else {
        None
    }
}

/// The name of every status is read as that status.
pub proof fn lemma_state_names_read(state: OperationState)
    ensures
        parsed_state(state_name(state)) == Some(state),
{
    reveal_strlit("planned");
    reveal_strlit("in_progress");
    reveal_strlit("paused");
    reveal_strlit("completed");
    reveal_strlit("aborted");
    reveal_strlit("canceled");
    let name = state_name(state);
    assert(ascii_lowercase(name) =~= name);
    assert("planned"@.len() == 7 && "planned"@[0] == 'p');
    assert("in_progress"@.len() == 11);
    assert("paused"@.len() == 6);
    assert("completed"@.len() == 9);
    assert("aborted"@.len() == 7 && "aborted"@[0] == 'a');
    assert("canceled"@.len() == 8);
}

impl OperationState {
    /// Whether an operation in this status may be given the status `new`.
    pub fn can_transition_to(self, new: Self) -> (r: bool)
        ensures
            r == can_transition(self, new),
    {
        if self == new {
            return true;
        }
        match (self, new) {
            (OperationState::Planned, OperationState::InProgress) => true,
            (OperationState::Paused, OperationState::InProgress) => true,
            (OperationState::InProgress, OperationState::Paused) => true,
            (OperationState::InProgress, OperationState::Completed) => true,
            (OperationState::InProgress, OperationState::Aborted) => true,
            (OperationState::Planned, OperationState::Canceled) => true,
            _ => false,
        }
    }

    /// Whether an operation in this status is under way: in progress or
    /// paused.
    pub open spec fn active(self) -> bool {
        self == OperationState::InProgress || self == OperationState::Paused
    }

    /// Whether an operation in this status is under way.
    pub fn is_active(self) -> (r: bool)
        ensures
            r == self.active(),
    {
        match self {
            OperationState::InProgress => true,
            OperationState::Paused => true,
            _ => false,
        }
    }

    /// The name of the status.
    pub fn as_str(self) -> (r: &'static str)
        ensures
            r@ == state_name(self),
    {
        match self {
            OperationState::Planned => "planned",
            OperationState::InProgress => "in_progress",
            OperationState::Paused => "paused",
            OperationState::Completed => "completed",
            OperationState::Aborted => "aborted",
            OperationState::Canceled => "canceled",
        }
    }

    /// Reads the name of a status, whatever the case of its letters; the
    /// error says which text was not understood.
    pub fn parse(s: &str) -> (r: Result<OperationState, String>)
        ensures
            match r {
                Ok(state) => parsed_state(s@) == Some(state),
                Err(message) => parsed_state(s@) is None && message@
                    == "unknown operation state: "@ + s@,
            },
    {
        let lower = to_ascii_lowercase(s);
        let l = lower.as_str();
        if str_eq(l, "planned") {
            Ok(OperationState::Planned)
        } else if str_eq(l, "in_progress") {
            Ok(OperationState::InProgress)
        } else if str_eq(l, "paused") {
            Ok(OperationState::Paused)
        } else if str_eq(l, "completed") {
            Ok(OperationState::Completed)
        } else if str_eq(l, "aborted") {
            Ok(OperationState::Aborted)
        } else if str_eq(l, "canceled") {
            Ok(OperationState::Canceled)
        } else {
            let mut message = String::from_str("unknown operation state: ");
            message.append(s);
            Err(message)
        }
    }
}

impl std::str::FromStr for OperationState {
    type Err = String;

    /// Reads the name of a status as `parse` does.
    fn from_str(s: &str) -> (r: Result<Self, String>)
        ensures
            match r {
                Ok(state) => parsed_state(s@) == Some(state),
                Err(message) => parsed_state(s@) is None && message@
                    == "unknown operation state: "@ + s@,
            },
    {
        OperationState::parse(s)
    }
}

/// What a token says of its bearer.
#[derive(Debug)]
pub struct Claims {
    pub exp: u64,
    pub username: String,
}

/// A named shared resource.
#[derive(Debug, PartialEq, Eq)]
pub struct Component {
    pub name: String,
    pub description: String,
    pub owners: Vec<String>,
}

/// A component as plain values.
pub struct ComponentView {
    pub name: Seq<char>,
    pub description: Seq<char>,
    pub owners: Seq<Seq<char>>,
}

impl View for Component {
    type V = ComponentView;

    open spec fn view(&self) -> ComponentView {
        ComponentView {
            name: self.name@,
            description: self.description@,
            owners: views(self.owners@),
        }
    }
}

impl Clone for Component {
    fn clone(&self) -> (r: Self)
        ensures
            r@ == self@,
    {
        Component {
            name: self.name.clone(),
            description: self.description.clone(),
            owners: clone_names(&self.owners),
        }
    }
}

impl Component {
    /// Whether two components hold the same values.
    pub fn same(&self, other: &Component) -> (r: bool)
        ensures
            r == (self@ == other@),
    {
        str_eq(self.name.as_str(), other.name.as_str()) && str_eq(
            self.description.as_str(),
            other.description.as_str(),
        ) && same_names(&self.owners, &other.owners)
    }
}

/// A label for operations.
#[derive(Debug, PartialEq, Eq)]
pub struct Tag {
    pub name: String,
    pub description: String,
}

/// A tag as plain values.
pub struct TagView {
    pub name: Seq<char>,
    pub description: Seq<char>,
}

impl View for Tag {
    type V = TagView;

    open spec fn view(&self) -> TagView {
        TagView { name: self.name@, description: self.description@ }
    }
}

impl Clone for Tag {
    fn clone(&self) -> (r: Self)
        ensures
            r@ == self@,
    {
        Tag { name: self.name.clone(), description: self.description.clone() }
    }
}

impl Tag {
    /// Whether two tags hold the same values.
    pub fn same(&self, other: &Tag) -> (r: bool)
        ensures
            r == (self@ == other@),
    {
        str_eq(self.name.as_str(), other.name.as_str()) && str_eq(
            self.description.as_str(),
            other.description.as_str(),
        )
    }
}

/// A tracked unit of change work.
#[derive(Debug)]
pub struct Operation {
    pub id: u64,
    pub title: String,
    pub purpose: String,
    pub url: String,
    pub components: Vec<String>,
    pub locks: Vec<String>,
    pub tags: Vec<String>,
    pub depends_on: Vec<u64>,
    pub operators: Vec<String>,
    pub status: OperationState,
    pub annotations: Annotations,
}

/// An operation as plain values.
pub struct OperationView {
    pub id: u64,
    pub title: Seq<char>,
    pub purpose: Seq<char>,
    pub url: Seq<char>,
    pub components: Seq<Seq<char>>,
    pub locks: Seq<Seq<char>>,
    pub tags: Seq<Seq<char>>,
    pub depends_on: Seq<u64>,
    pub operators: Seq<Seq<char>>,
    pub status: OperationState,
    pub annotations: Map<Seq<char>, Seq<char>>,
}

impl View for Operation {
    type V = OperationView;

    open spec fn view(&self) -> OperationView {
        OperationView {
            id: self.id,
            title: self.title@,
            purpose: self.purpose@,
            url: self.url@,
            components: views(self.components@),
            locks: views(self.locks@),
            tags: views(self.tags@),
            depends_on: self.depends_on@,
            operators: views(self.operators@),
            status: self.status,
            annotations: self.annotations@,
        }
    }
}

impl Clone for Operation {
    fn clone(&self) -> (r: Self)
        ensures
            r@ == self@,
    {
        Operation {
            id: self.id,
            title: self.title.clone(),
            purpose: self.purpose.clone(),
            url: self.url.clone(),
            components: clone_names(&self.components),
            locks: clone_names(&self.locks),
            tags: clone_names(&self.tags),
            depends_on: self.depends_on.clone(),
            operators: clone_names(&self.operators),
            status: self.status,
            annotations: self.annotations.clone(),
        }
    }
}

impl Operation {
    /// Whether two operations hold the same values.
    pub fn same(&self, other: &Operation) -> (r: bool)
        ensures
            r == (self@ == other@),
    {
        self.id == other.id && str_eq(self.title.as_str(), other.title.as_str()) && str_eq(
            self.purpose.as_str(),
            other.purpose.as_str(),
        ) && str_eq(self.url.as_str(), other.url.as_str()) && same_names(
            &self.components,
            &other.components,
        ) && same_names(&self.locks, &other.locks) && same_names(&self.tags, &other.tags)
            && same_ids(&self.depends_on, &other.depends_on) && same_names(
            &self.operators,
            &other.operators,
        ) && self.status == other.status && self.annotations.same(&other.annotations)
    }
}

impl PartialEq for Operation {
    fn eq(&self, other: &Operation) -> (r: bool) {
        self.same(other)
    }
}

impl vstd::std_specs::cmp::PartialEqSpecImpl for Operation {
    open spec fn obeys_eq_spec() -> bool {
        true
    }

    open spec fn eq_spec(&self, other: &Operation) -> bool {
        self@ == other@
    }
}

/// What a user wants to hear of: operations by id, components and tags by
/// name. Each list is kept in ascending order with nothing twice.
#[derive(Debug, PartialEq, Eq)]
pub struct SubscriptionSet {
    pub operations: Vec<u64>,
    pub components: Vec<String>,
    pub tags: Vec<String>,
}

/// A subscription set as plain values.
pub struct SubscriptionView {
    pub operations: Seq<u64>,
    pub components: Seq<Seq<char>>,
    pub tags: Seq<Seq<char>>,
}

/// Whether a subscription set asks for an operation: by its id, by one of its
/// components or by one of its tags.
pub open spec fn matches_operation(s: SubscriptionView, operation: OperationView) -> bool {
    ||| s.operations.contains(operation.id)
    ||| exists|i: int|
        0 <= i < operation.components.len() && s.components.contains(
            #[trigger] operation.components[i],
        )
    ||| exists|i: int|
        0 <= i < operation.tags.len() && s.tags.contains(#[trigger] operation.tags[i])
}

/// Whether two lists have a name in common.
fn share_name(a: &Vec<String>, b: &Vec<String>) -> (r: bool)
    ensures
        r == exists|i: int|
            0 <= i < views(a@).len() && views(b@).contains(#[trigger] views(a@)[i]),
{
    let mut i: usize = 0;
    while i < a.len()
        invariant
            i <= a.len(),
            forall|j: int| 0 <= j < i ==> !views(b@).contains(#[trigger] views(a@)[j]),
        decreases a.len() - i,
    {
        assert(views(a@)[i as int] == a[i as int]@);
        if contains_name(b, a[i].as_str()) {
            return true;
        }
        i += 1;
    }
    false
}

impl View for SubscriptionSet {
    type V = SubscriptionView;

    open spec fn view(&self) -> SubscriptionView {
        SubscriptionView {
            operations: self.operations@,
            components: views(self.components@),
            tags: views(self.tags@),
        }
    }
}

impl Clone for SubscriptionSet {
    fn clone(&self) -> (r: Self)
        ensures
            r@ == self@,
    {
        SubscriptionSet {
            operations: self.operations.clone(),
            components: clone_names(&self.components),
            tags: clone_names(&self.tags),
        }
    }
}

impl Default for SubscriptionSet {
    fn default() -> (r: Self)
        ensures
            r@.operations.len() == 0,
            r@.components.len() == 0,
            r@.tags.len() == 0,
            r.wf(),
    {
        SubscriptionSet { operations: Vec::new(), components: Vec::new(), tags: Vec::new() }
    }
}

/// Each of the three lists of a subscription set is in ascending order with
/// nothing twice.
pub open spec fn tidy(s: SubscriptionView) -> bool {
    &&& ascending(s.operations)
    &&& strictly_sorted(s.components)
    &&& strictly_sorted(s.tags)
}

impl SubscriptionSet {
    /// Each of the three lists is in ascending order with nothing twice.
    pub open spec fn wf(&self) -> bool {
        tidy(self@)
    }

    /// Whether each of the three lists is in ascending order with nothing
    /// twice.
    pub fn is_tidy(&self) -> (r: bool)
        ensures
            r == self.wf(),
    {
        is_ascending(&self.operations) && is_strictly_sorted(&self.components)
            && is_strictly_sorted(&self.tags)
    }

    /// Whether the set asks for `operation`.
    pub fn is_match(&self, operation: &Operation) -> (r: bool)
        ensures
            r == matches_operation(self@, operation@),
    {
        let by_id = contains_id(&self.operations, operation.id);
        let by_component = share_name(&operation.components, &self.components);
        let by_tag = share_name(&operation.tags, &self.tags);
        assert(by_id == self@.operations.contains(operation@.id));
        assert(by_component == exists|i: int|
            0 <= i < operation@.components.len() && self@.components.contains(
                #[trigger] operation@.components[i],
            ));
        assert(by_tag == exists|i: int|
            0 <= i < operation@.tags.len() && self@.tags.contains(#[trigger] operation@.tags[i]));
        by_id || by_component || by_tag
    }

    /// Asks for the operation `id`; nothing changes where it is asked for
    /// already.
    pub fn add_operation(&mut self, id: u64)
        requires
            old(self).wf(),
        ensures
            final(self).wf(),
            final(self)@ == (SubscriptionView {
                operations: with_id(old(self)@.operations, id),
                ..old(self)@
            }),
    {
        insert_id(&mut self.operations, id);
    }

    /// Asks for the operations on the component `name`.
    pub fn add_component(&mut self, name: String)
        requires
            old(self).wf(),
        ensures
            final(self).wf(),
            final(self)@ == (SubscriptionView {
                components: inserted(old(self)@.components, name@),
                ..old(self)@
            }),
    {
        insert_name(&mut self.components, name);
    }

    /// Asks for the operations under the tag `name`.
    pub fn add_tag(&mut self, name: String)
        requires
            old(self).wf(),
        ensures
            final(self).wf(),
            final(self)@ == (SubscriptionView { tags: inserted(old(self)@.tags, name@), ..old(self)@ }),
    {
        insert_name(&mut self.tags, name);
    }
}

/// Someone who runs operations and owns components.
#[derive(Debug, PartialEq, Eq)]
pub struct User {
    pub name: String,
    pub subscriptions: SubscriptionSet,
}

/// A user as plain values.
pub struct UserView {
    pub name: Seq<char>,
    pub subscriptions: SubscriptionView,
}

impl View for User {
    type V = UserView;

    open spec fn view(&self) -> UserView {
        UserView { name: self.name@, subscriptions: self.subscriptions@ }
    }
}

impl Clone for User {
    fn clone(&self) -> (r: Self)
        ensures
            r@ == self@,
    {
        User { name: self.name.clone(), subscriptions: self.subscriptions.clone() }
    }
}

} // verus!
