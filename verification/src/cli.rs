//! What the commands of the command line ask of a server.

use crate::annotations::Annotations;
use crate::api::{
    CreateComponentRequest, CreateOperationRequest, CreateSubscriptionRequest, CreateTagRequest,
    UpdateOperationRequest,
};
use crate::model::{state_name, Operation, OperationState, OperationView};
use crate::names::views;
use vstd::prelude::*;

verus! {

/// The commands on components.
#[derive(Debug)]
pub enum ComponentCommand {
    /// Create a new component
    Create { name: String, description: String, owners: Vec<String> },
    /// Show a component
    Show { name: String },
    /// List components
    List,
}

/// What a command on components asks of the server: to create the
/// component of a request, to show the component at a path, or to list the
/// components at a path.
#[derive(Debug)]
pub enum ComponentCall {
    Create(CreateComponentRequest),
    Show(String),
    List(String),
}

/// The path of the component named `name`.
pub open spec fn component_path(name: Seq<char>) -> Seq<char> {
    "components/"@ + name
}

impl ComponentCommand {
    /// What this command asks of the server: `Create` sends its three
    /// values, `Show` looks at the path of the component, and `List` at the
    /// path of all components.
    pub fn call(self) -> (r: ComponentCall)
        ensures
            match self {
                ComponentCommand::Create { name, description, owners } => r matches ComponentCall::Create(
                    request,
                ) && request.name@ == name@ && request.description@ == description@ && views(
                    request.owners@,
                ) == views(owners@),
                ComponentCommand::Show { name } => r matches ComponentCall::Show(path) && path@
                    == component_path(name@),
                ComponentCommand::List => r matches ComponentCall::List(path) && path@
                    == "components"@,
            },
    {
        match self {
            ComponentCommand::Create { name, description, owners } => ComponentCall::Create(
                CreateComponentRequest { name, description, owners },
            ),
            ComponentCommand::Show { name } => {
                let mut path = String::from_str("components/");
                path.append(name.as_str());
                ComponentCall::Show(path)
            },
            ComponentCommand::List => ComponentCall::List(String::from_str("components")),
        }
    }
}

/// The commands on tags.
#[derive(Debug)]
pub enum TagCommand {
    /// Create a new tag
    Create { name: String, description: String },
    /// Show a tag
    Show { name: String },
    /// List tags
    List,
}

/// What a command on tags asks of the server: to create the tag of a
/// request, to show the tag at a path, or to list the tags at a path.
#[derive(Debug)]
pub enum TagCall {
    Create(CreateTagRequest),
    Show(String),
    List(String),
}

/// The path of the tag named `name`.
pub open spec fn tag_path(name: Seq<char>) -> Seq<char> {
    "tags/"@ + name
}

impl TagCommand {
    /// What this command asks of the server: `Create` sends its two values,
    /// `Show` looks at the path of the tag, and `List` at the path of all
    /// tags.
    pub fn call(self) -> (r: TagCall)
        ensures
            match self {
                TagCommand::Create { name, description } => r matches TagCall::Create(request)
                    && request.name@ == name@ && request.description@ == description@,
                TagCommand::Show { name } => r matches TagCall::Show(path) && path@ == tag_path(
                    name@,
                ),
                TagCommand::List => r matches TagCall::List(path) && path@ == "tags"@,
            },
    {
        match self {
            TagCommand::Create { name, description } => TagCall::Create(
                CreateTagRequest { name, description },
            ),
            TagCommand::Show { name } => {
                let mut path = String::from_str("tags/");
                path.append(name.as_str());
                TagCall::Show(path)
            },
            TagCommand::List => TagCall::List(String::from_str("tags")),
        }
    }
}

/// Which operations to list.
#[derive(Debug)]
pub struct ListArgs {
    pub components: Vec<String>,
    pub tags: Vec<String>,
    pub statuses: Vec<OperationState>,
    pub operators: Vec<String>,
}

/// Each of `values` under the key `key`.
pub open spec fn keyed_by(key: Seq<char>, values: Seq<Seq<char>>) -> Seq<(Seq<char>, Seq<char>)> {
    Seq::new(values.len(), |i: int| (key, values[i]))
}

/// The names of a list of statuses.
pub open spec fn state_names(statuses: Seq<OperationState>) -> Seq<Seq<char>> {
    Seq::new(statuses.len(), |i: int| state_name(statuses[i]))
}

/// The pairs of a query as texts.
pub open spec fn pair_views(pairs: Seq<(String, String)>) -> Seq<(Seq<char>, Seq<char>)> {
    Seq::new(pairs.len(), |i: int| (pairs[i].0@, pairs[i].1@))
}

/// Adds each of `values` under the key `key` to a query.
fn push_pairs(query: &mut Vec<(String, String)>, key: &str, values: &Vec<String>)
    ensures
        pair_views(final(query)@) == pair_views(old(query)@) + keyed_by(key@, views(values@)),
{
    let ghost before = pair_views(query@);
    let mut i: usize = 0;
    assert(pair_views(query@) =~= before + keyed_by(key@, views(values@).take(0)));
    while i < values.len()
        invariant
            i <= values.len(),
            pair_views(query@) == before + keyed_by(key@, views(values@).take(i as int)),
        decreases values.len() - i,
    {
        let ghost so_far = pair_views(query@);
        query.push((key.to_owned(), values[i].clone()));
        assert(pair_views(query@) =~= so_far.push((key@, values[i as int]@)));
        assert(pair_views(query@) =~= before + keyed_by(key@, views(values@).take(i + 1)));
        i += 1;
    }
    assert(views(values@).take(values.len() as int) =~= views(values@));
}

impl ListArgs {
    /// The query that asks for the operations: a pair for each component
    /// under `component`, then each tag under `tag`, each operator under
    /// `operator` and each status, by its name, under `status`.
    pub fn query(&self) -> (r: Vec<(String, String)>)
        ensures
            pair_views(r@) == keyed_by("component"@, views(self.components@)) + keyed_by(
                "tag"@,
                views(self.tags@),
            ) + keyed_by("operator"@, views(self.operators@)) + keyed_by(
                "status"@,
                state_names(self.statuses@),
            ),
    {
        let mut query: Vec<(String, String)> = Vec::new();
        assert(pair_views(query@) =~= Seq::empty());
        push_pairs(&mut query, "component", &self.components);
        push_pairs(&mut query, "tag", &self.tags);
        push_pairs(&mut query, "operator", &self.operators);
        let mut names: Vec<String> = Vec::new();
        let mut i: usize = 0;
        while i < self.statuses.len()
            invariant
                i <= self.statuses.len(),
                names.len() == i,
                forall|j: int| 0 <= j < i ==> (#[trigger] names[j])@ == state_name(self.statuses[j]),
            decreases self.statuses.len() - i,
        {
            names.push(String::from_str(self.statuses[i].as_str()));
            i += 1;
        }
        assert(views(names@) =~= state_names(self.statuses@));
        push_pairs(&mut query, "status", &names);
        query
    }
}

/// What to subscribe to, or that the subscriptions are to be listed.
#[derive(Debug)]
pub struct SubscribeArgs {
    /// List subscriptions
    pub list: bool,
    /// Operation ID to subscribe to
    pub operation: Option<u64>,
    /// Component name to subscribe to
    pub component: Option<String>,
    /// Tag name to subscribe to
    pub tag: Option<String>,
}

impl SubscribeArgs {
    /// The subscription to ask for; none where the subscriptions are to be
    /// listed.
    pub fn request(self) -> (r: Option<CreateSubscriptionRequest>)
        ensures
            self.list ==> r is None,
            !self.list ==> (r matches Some(request) && request.operation == self.operation
                && request.component == self.component && request.tag == self.tag),
    {
        if self.list {
            None
        } else {
            Some(
                CreateSubscriptionRequest {
                    operation: self.operation,
                    component: self.component,
                    tag: self.tag,
                },
            )
        }
    }
}

/// Where a description is read from.
#[derive(Debug)]
pub enum Input {
    Stdin,
    Path(String),
}

impl Input {
    /// Reads where to read from: `-` is the standard input, and every other
    /// text is a path.
    pub fn parse(s: &str) -> (r: Input)
        ensures
            s@ == "-"@ ==> r is Stdin,
            s@ != "-"@ ==> (r matches Input::Path(path) && path@ == s@),
    {
        if crate::text::str_eq(s, "-") {
            Input::Stdin
        } else {
            Input::Path(s.to_owned())
        }
    }
}

/// Where the description of a new operation comes from.
#[derive(Debug)]
pub struct SourceArgs {
    /// Read an operation description from a file. Use `-` to read from stdin.
    pub file: Option<Input>,
    pub importer: Option<String>,
    pub template: Option<String>,
    /// Parameters to provide to importers or templates
    pub parameters: Vec<(String, String)>,
}

/// How to create an operation.
#[derive(Debug)]
pub struct CreateArgs {
    pub source: SourceArgs,
    /// Open an editor to edit the operation description before submission.
    pub edit: bool,
    /// Do not open an editor to edit the operation description before
    /// submission.
    pub no_edit: bool,
}

/// The way in which the description of a new operation is made.
#[derive(Debug)]
pub enum Source {
    /// A skeleton to fill in.
    Skeleton,
    /// What a file or the standard input holds.
    Read(Input),
    /// What a template gives for the parameters.
    Template { template: String, parameters: Vec<(String, String)> },
    /// What the named importer, or the first importer that takes the
    /// request, gives for the parameters.
    Import { importer: Option<String>, parameters: Vec<(String, String)> },
}

/// How the description of a new operation is made, and whether an editor is
/// opened on it.
#[derive(Debug)]
pub struct Plan {
    pub source: Source,
    pub edit: bool,
}

impl SourceArgs {
    /// The arguments go together: a file comes without importer, template
    /// and parameters, and an importer without a template.
    pub open spec fn consistent(&self) -> bool {
        &&& self.file is Some ==> self.importer is None && self.template is None
            && self.parameters@.len() == 0
        &&& self.importer is Some ==> self.template is None
    }

    /// Whether the arguments go together.
    pub fn is_consistent(&self) -> (r: bool)
        ensures
            r == self.consistent(),
    {
        (self.file.is_none() || (self.importer.is_none() && self.template.is_none()
            && self.parameters.len() == 0)) && (self.importer.is_none() || self.template.is_none())
    }
}

impl CreateArgs {
    /// How the description is made: from the file if one is named, from the
    /// template if one is named, as a skeleton if nothing at all is named,
    /// and else by an importer. An editor is opened on a skeleton and on
    /// what a template gives, and where it is asked for, unless it is asked
    /// not to.
    pub fn plan(self) -> (r: Plan)
        requires
            self.source.consistent(),
        ensures
            match r.source {
                Source::Skeleton => self.source.file is None && self.source.importer is None
                    && self.source.template is None && self.source.parameters@.len() == 0,
                Source::Read(input) => self.source.file == Some(input),
                Source::Template { template, parameters } => self.source.file is None
                    && self.source.template == Some(template) && parameters
                    == self.source.parameters,
                Source::Import { importer, parameters } => self.source.file is None
                    && self.source.template is None && importer == self.source.importer
                    && parameters == self.source.parameters && (importer is Some
                    || parameters@.len() > 0),
            },
            r.edit == ((self.edit || r.source is Skeleton || r.source is Template)
                && !self.no_edit),
    {
        let source = self.source;
        let mut edit = self.edit;
        let chosen = match source.file {
            Some(input) => Source::Read(input),
            None => match source.template {
                Some(template) => {
                    edit = true;
                    Source::Template { template, parameters: source.parameters }
                },
                None => {
                    if source.importer.is_none() && source.parameters.len() == 0 {
                        edit = true;
                        Source::Skeleton
                    } else {
                        Source::Import {
                            importer: source.importer,
                            parameters: source.parameters,
                        }
                    }
                },
            },
        };
        Plan { source: chosen, edit: edit && !self.no_edit }
    }
}

impl CreateOperationRequest {
    /// The skeleton of a description for the user `username` to fill in.
    pub fn skeleton(username: &str) -> (r: CreateOperationRequest)
        ensures
            r.title@.len() == 0,
            r.purpose@.len() == 0,
            r.url@ == "http://example.com"@,
            r.components@.len() == 0,
            r.locks@.len() == 0,
            r.tags@.len() == 0,
            r.depends_on@.len() == 0,
            views(r.operators@) == seq![username@],
            r.annotations@ == Map::<Seq<char>, Seq<char>>::empty(),
    {
        let mut operators: Vec<String> = Vec::new();
        operators.push(username.to_owned());
        assert(views(operators@) =~= seq![username@]);
        CreateOperationRequest {
            title: String::new(),
            purpose: String::new(),
            url: String::from_str("http://example.com"),
            components: Vec::new(),
            locks: Vec::new(),
            tags: Vec::new(),
            depends_on: Vec::new(),
            operators,
            annotations: Annotations::new(),
        }
    }
}

/// Whether an importer that ended with the exit code `code` has taken the
/// request: one that ends with 125 has passed it on.
pub fn importer_took(code: Option<i32>) -> (r: bool)
    ensures
        r == (code != Some(125i32)),
{
    match code {
        Some(c) => c != 125,
        None => true,
    }
}

/// The commands that change the status of an operation.
#[derive(Clone, Copy, Debug, PartialEq, Eq, Structural)]
pub enum Action {
    /// Start an operation
    Start,
    /// Pause an operation
    Pause,
    /// Finish an operation successfully
    Complete,
    /// Finish an operation unsuccessfully
    Abort,
    /// Cancel an operation before starting
    Cancel,
}

/// The status that a command asks for.
pub open spec fn status_for(action: Action) -> OperationState {
    match action {
        Action::Start => OperationState::InProgress,
        Action::Pause => OperationState::Paused,
        Action::Complete => OperationState::Completed,
        Action::Abort => OperationState::Aborted,
        Action::Cancel => OperationState::Canceled,
    }
}

impl Action {
    /// The request that asks for the status of this command and for nothing
    /// else.
    pub fn request(self) -> (r: UpdateOperationRequest)
        ensures
            r.status == Some(status_for(self)),
            r.title is None,
            r.purpose is None,
            r.url is None,
            r.components is None,
            r.locks is None,
            r.tags is None,
            r.depends_on is None,
            r.operators is None,
            r.annotations@ == Map::<Seq<char>, Seq<char>>::empty(),
    {
        let status = match self {
            Action::Start => OperationState::InProgress,
            Action::Pause => OperationState::Paused,
            Action::Complete => OperationState::Completed,
            Action::Abort => OperationState::Aborted,
            Action::Cancel => OperationState::Canceled,
        };
        let mut request = UpdateOperationRequest::default();
        request.status = Some(status);
        request
    }
}

impl UpdateOperationRequest {
    /// The request that names every value of `operation`, for an editor to
    /// change.
    pub fn of(operation: Operation) -> (r: UpdateOperationRequest)
        ensures
            r.patched(operation@) == operation@,
            forall|other: OperationView|
                other.id == operation.id ==> #[trigger] r.patched(other) == (OperationView {
                    annotations: other.annotations.union_prefer_right(operation@.annotations),
                    ..operation@
                }),
    {
        let ghost view = operation@;
        let r = UpdateOperationRequest {
            title: Some(operation.title),
            purpose: Some(operation.purpose),
            url: Some(operation.url),
            components: Some(operation.components),
            locks: Some(operation.locks),
            tags: Some(operation.tags),
            depends_on: Some(operation.depends_on),
            operators: Some(operation.operators),
            status: Some(operation.status),
            annotations: operation.annotations,
        };
        assert(view.annotations.union_prefer_right(view.annotations) =~= view.annotations);
        r
    }
}

} // verus!
