//! What callers send to the engine and get back from it.

use crate::annotations::Annotations;
use crate::model::{
    Component, ComponentView, Operation, OperationState, OperationView, Tag, TagView,
};
use crate::names::{contains_name, views};
use vstd::prelude::*;

verus! {

/// An answer: what was asked for, or a message that says why not.
#[derive(Debug)]
pub enum ApiResponse<T> {
    Success(T),
    Failure(String),
}

impl ApiResponse<()> {
    /// The answer that refuses with the message of `e`.
    pub fn err<E: core::fmt::Display>(e: E) -> (r: Self)
        ensures
            r matches ApiResponse::Failure(message) && vstd::string::to_string_from_display_ensures::<
                E,
            >(&e, message),
    {
        ApiResponse::Failure(e.to_string())
    }
}

impl<T> From<ApiResponse<T>> for Result<T, String> {
    fn from(val: ApiResponse<T>) -> (r: Self) {
        match val {
            ApiResponse::Success(v) => Ok(v),
            ApiResponse::Failure(e) => Err(e),
        }
    }
}

impl<T> vstd::std_specs::convert::FromSpecImpl<ApiResponse<T>> for Result<T, String> {
    open spec fn obeys_from_spec() -> bool {
        true
    }

    open spec fn from_spec(val: ApiResponse<T>) -> Result<T, String> {
        match val {
            ApiResponse::Success(v) => Ok(v),
            ApiResponse::Failure(e) => Err(e),
        }
    }
}

/// Asks for a token for a user.
#[derive(Debug)]
pub struct AuthRequest {
    pub username: String,
}

/// The token that was asked for.
#[derive(Debug)]
pub struct AuthResponse {
    pub token: String,
}

/// Asks for a new operation.
#[derive(Debug)]
pub struct CreateOperationRequest {
    pub title: String,
    pub purpose: String,
    pub url: String,
    pub components: Vec<String>,
    pub locks: Vec<String>,
    pub tags: Vec<String>,
    pub depends_on: Vec<u64>,
    pub operators: Vec<String>,
    pub annotations: Annotations,
}

/// The operation that a request asks for, before it is checked: planned,
/// under the id `id`, and run by `username` where the request names no
/// operator.
pub open spec fn requested(
    title: Seq<char>,
    purpose: Seq<char>,
    url: Seq<char>,
    components: Seq<Seq<char>>,
    locks: Seq<Seq<char>>,
    tags: Seq<Seq<char>>,
    depends_on: Seq<u64>,
    operators: Seq<Seq<char>>,
    annotations: Map<Seq<char>, Seq<char>>,
    id: u64,
    username: Seq<char>,
) -> OperationView {
    OperationView {
        id,
        title,
        purpose,
        url,
        components,
        locks,
        tags,
        depends_on,
        operators: if operators.len() == 0 {
            seq![username]
        } else {
            operators
        },
        status: OperationState::Planned,
        annotations,
    }
}

impl CreateOperationRequest {
    /// The operation that this request asks for, as `requested` says.
    pub open spec fn operation(&self, id: u64, username: Seq<char>) -> OperationView {
        requested(
            self.title@,
            self.purpose@,
            self.url@,
            views(self.components@),
            views(self.locks@),
            views(self.tags@),
            self.depends_on@,
            views(self.operators@),
            self.annotations@,
            id,
            username,
        )
    }

    /// The operation that this request asks for: planned, under the id
    /// `id`, and run by `username` where the request names no operator.
    pub fn into_operation(self, id: u64, username: &str) -> (r: Operation)
        ensures
            r@ == self.operation(id, username@),
    {
        let mut operators = self.operators;
        if operators.len() == 0 {
            operators.push(username.to_owned());
            assert(views(operators@) =~= seq![username@]);
        }
        Operation {
            id,
            title: self.title,
            purpose: self.purpose,
            url: self.url,
            components: self.components,
            locks: self.locks,
            tags: self.tags,
            depends_on: self.depends_on,
            operators,
            status: OperationState::Planned,
            annotations: self.annotations,
        }
    }
}

/// Which operations to list: those that have one of the components, one of
/// the tags, one of the operators and one of the statuses named; a list
/// that names nothing asks for nothing.
#[derive(Debug)]
pub struct ListOperationsQuery {
    pub components: Vec<String>,
    pub tags: Vec<String>,
    pub operators: Vec<String>,
    pub statuses: Vec<OperationState>,
}

/// A query as plain values.
pub struct QueryView {
    pub components: Seq<Seq<char>>,
    pub tags: Seq<Seq<char>>,
    pub operators: Seq<Seq<char>>,
    pub statuses: Seq<OperationState>,
}

/// Whether a list of wanted names lets a list of names pass: it is empty,
/// or one of the names is wanted.
pub open spec fn passes(wanted: Seq<Seq<char>>, names: Seq<Seq<char>>) -> bool {
    wanted.len() == 0 || exists|i: int| 0 <= i < names.len() && wanted.contains(#[trigger] names[i])
}

/// Whether a query asks for an operation.
pub open spec fn selects(query: QueryView, operation: OperationView) -> bool {
    &&& passes(query.components, operation.components)
    &&& passes(query.tags, operation.tags)
    &&& passes(query.operators, operation.operators)
    &&& (query.statuses.len() == 0 || query.statuses.contains(operation.status))
}

/// Whether a list of wanted names lets `names` pass.
fn lets_pass(wanted: &Vec<String>, names: &Vec<String>) -> (r: bool)
    ensures
        r == passes(views(wanted@), views(names@)),
{
    if wanted.len() == 0 {
        return true;
    }
    let mut i: usize = 0;
    while i < names.len()
        invariant
            i <= names.len(),
            wanted.len() > 0,
            forall|j: int| 0 <= j < i ==> !views(wanted@).contains(#[trigger] views(names@)[j]),
        decreases names.len() - i,
    {
        assert(views(names@)[i as int] == names[i as int]@);
        if contains_name(wanted, names[i].as_str()) {
            return true;
        }
        i += 1;
    }
    false
}

impl View for ListOperationsQuery {
    type V = QueryView;

    open spec fn view(&self) -> QueryView {
        QueryView {
            components: views(self.components@),
            tags: views(self.tags@),
            operators: views(self.operators@),
            statuses: self.statuses@,
        }
    }
}

impl ListOperationsQuery {
    /// Whether the query asks for `operation`.
    pub fn selects(&self, operation: &Operation) -> (r: bool)
        ensures
            r == selects(self@, operation@),
    {
        if !lets_pass(&self.components, &operation.components) {
            return false;
        }
        if !lets_pass(&self.tags, &operation.tags) {
            return false;
        }
        if !lets_pass(&self.operators, &operation.operators) {
            return false;
        }
        if self.statuses.len() == 0 {
            return true;
        }
        let mut i: usize = 0;
        while i < self.statuses.len()
            invariant
                i <= self.statuses.len(),
                passes(self@.components, operation@.components),
                passes(self@.tags, operation@.tags),
                passes(self@.operators, operation@.operators),
                forall|j: int| 0 <= j < i ==> self.statuses@[j] != operation.status,
            decreases self.statuses.len() - i,
        {
            if self.statuses[i] == operation.status {
                assert(self@.statuses[i as int] == operation@.status);
                return true;
            }
            i += 1;
        }
        false
    }
}

/// The operations that were asked for.
#[derive(Debug)]
pub struct ListOperationsResponse {
    pub operations: Vec<Operation>,
}

/// Asks for new values in an operation. What is not named stays; the
/// annotations named are added to those that the operation has.
#[derive(Debug)]
pub struct UpdateOperationRequest {
    pub title: Option<String>,
    pub purpose: Option<String>,
    pub url: Option<String>,
    pub components: Option<Vec<String>>,
    pub locks: Option<Vec<String>>,
    pub tags: Option<Vec<String>>,
    pub depends_on: Option<Vec<u64>>,
    pub operators: Option<Vec<String>>,
    pub status: Option<OperationState>,
    pub annotations: Annotations,
}

/// The new value, where one is named, and else the old one.
pub open spec fn text_or(new: Option<String>, old: Seq<char>) -> Seq<char> {
    match new {
        Some(s) => s@,
        None => old,
    }
}

/// The new list, where one is named, and else the old one.
pub open spec fn names_or(new: Option<Vec<String>>, old: Seq<Seq<char>>) -> Seq<Seq<char>> {
    match new {
        Some(v) => views(v@),
        None => old,
    }
}

impl Default for UpdateOperationRequest {
    /// The request that changes nothing.
    fn default() -> (r: Self)
        ensures
            r.title is None,
            r.purpose is None,
            r.url is None,
            r.components is None,
            r.locks is None,
            r.tags is None,
            r.depends_on is None,
            r.operators is None,
            r.status is None,
            r.annotations@ == Map::<Seq<char>, Seq<char>>::empty(),
    {
        UpdateOperationRequest {
            title: None,
            purpose: None,
            url: None,
            components: None,
            locks: None,
            tags: None,
            depends_on: None,
            operators: None,
            status: None,
            annotations: Annotations::new(),
        }
    }
}

impl UpdateOperationRequest {
    /// `operation` with the values that this request names.
    pub open spec fn patched(&self, operation: OperationView) -> OperationView {
        OperationView {
            id: operation.id,
            title: text_or(self.title, operation.title),
            purpose: text_or(self.purpose, operation.purpose),
            url: text_or(self.url, operation.url),
            components: names_or(self.components, operation.components),
            locks: names_or(self.locks, operation.locks),
            tags: names_or(self.tags, operation.tags),
            depends_on: match self.depends_on {
                Some(v) => v@,
                None => operation.depends_on,
            },
            operators: names_or(self.operators, operation.operators),
            status: match self.status {
                Some(status) => status,
                None => operation.status,
            },
            annotations: operation.annotations.union_prefer_right(self.annotations@),
        }
    }

    /// `operation` with the values that this request names.
    pub fn apply(self, operation: Operation) -> (r: Operation)
        ensures
            r@ == self.patched(operation@),
    {
        let mut operation = operation;
        if let Some(title) = self.title {
            operation.title = title;
        }
        if let Some(purpose) = self.purpose {
            operation.purpose = purpose;
        }
        if let Some(url) = self.url {
            operation.url = url;
        }
        if let Some(components) = self.components {
            operation.components = components;
        }
        if let Some(locks) = self.locks {
            operation.locks = locks;
        }
        if let Some(tags) = self.tags {
            operation.tags = tags;
        }
        if let Some(depends_on) = self.depends_on {
            operation.depends_on = depends_on;
        }
        if let Some(operators) = self.operators {
            operation.operators = operators;
        }
        if let Some(status) = self.status {
            operation.status = status;
        }
        operation.annotations.merge(&self.annotations);
        operation
    }
}

/// Asks for a new component.
#[derive(Debug)]
pub struct CreateComponentRequest {
    pub name: String,
    pub description: String,
    pub owners: Vec<String>,
}

impl CreateComponentRequest {
    /// The component that this request asks for, before it is checked.
    pub fn into_component(self) -> (r: Component)
        ensures
            r@ == (ComponentView {
                name: self.name@,
                description: self.description@,
                owners: views(self.owners@),
            }),
    {
        Component { name: self.name, description: self.description, owners: self.owners }
    }
}

/// The components that were asked for.
#[derive(Debug)]
pub struct ListComponentsResponse {
    pub components: Vec<Component>,
}

/// Asks for a new tag.
#[derive(Debug)]
pub struct CreateTagRequest {
    pub name: String,
    pub description: String,
}

impl CreateTagRequest {
    /// The tag that this request asks for, before it is checked.
    pub fn into_tag(self) -> (r: Tag)
        ensures
            r@ == (TagView { name: self.name@, description: self.description@ }),
    {
        Tag { name: self.name, description: self.description }
    }
}

/// The tags that were asked for.
#[derive(Debug)]
pub struct ListTagsResponse {
    pub tags: Vec<Tag>,
}

/// Asks to hear of an operation, of a component or of a tag.
#[derive(Debug)]
pub struct CreateSubscriptionRequest {
    pub operation: Option<u64>,
    pub component: Option<String>,
    pub tag: Option<String>,
}

/// What a user has subscribed to, each list in ascending order.
#[derive(Debug, PartialEq, Eq)]
pub struct ListSubscriptionResponse {
    pub operations: Vec<u64>,
    pub components: Vec<String>,
    pub tags: Vec<String>,
}

impl Default for ListSubscriptionResponse {
    fn default() -> (r: Self)
        ensures
            r.operations@.len() == 0,
            r.components@.len() == 0,
            r.tags@.len() == 0,
    {
        ListSubscriptionResponse {
            operations: Vec::new(),
            components: Vec::new(),
            tags: Vec::new(),
        }
    }
}

} // verus!
