//! What the engine refuses, and how each refusal is told to a caller.

use vstd::prelude::*;

verus! {

/// The kinds of entity that the store holds.
#[derive(Clone, Copy, Debug, PartialEq, Eq, Structural)]
pub enum Entity {
    User,
    Operation,
    Component,
    Tag,
}

/// The lists of which an entity needs at least one item.
#[derive(Clone, Copy, Debug, PartialEq, Eq, Structural)]
pub enum Item {
    Component,
    Operator,
    Owner,
}

/// The text fields that must not be blank.
#[derive(Clone, Copy, Debug, PartialEq, Eq, Structural)]
pub enum Field {
    Name,
    Description,
    Title,
    Purpose,
}

/// The word for a kind of entity.
pub open spec fn entity_word(entity: Entity) -> Seq<char> {
    match entity {
        Entity::User => "user"@,
        Entity::Operation => "operation"@,
        Entity::Component => "component"@,
        Entity::Tag => "tag"@,
    }
}

/// The word for a required item.
pub open spec fn item_word(item: Item) -> Seq<char> {
    match item {
        Item::Component => "component"@,
        Item::Operator => "operator"@,
        Item::Owner => "owner"@,
    }
}

/// The word for a field.
pub open spec fn field_word(field: Field) -> Seq<char> {
    match field {
        Field::Name => "name"@,
        Field::Description => "description"@,
        Field::Title => "title"@,
        Field::Purpose => "purpose"@,
    }
}

impl Entity {
    /// The word for this kind of entity.
    pub fn as_str(self) -> (r: &'static str)
        ensures
            r@ == entity_word(self),
    {
        match self {
            Entity::User => "user",
            Entity::Operation => "operation",
            Entity::Component => "component",
            Entity::Tag => "tag",
        }
    }
}

impl Item {
    /// The word for this item.
    pub fn as_str(self) -> (r: &'static str)
        ensures
            r@ == item_word(self),
    {
        match self {
            Item::Component => "component",
            Item::Operator => "operator",
            Item::Owner => "owner",
        }
    }
}

impl Field {
    /// The word for this field.
    pub fn as_str(self) -> (r: &'static str)
        ensures
            r@ == field_word(self),
    {
        match self {
            Field::Name => "name",
            Field::Description => "description",
            Field::Title => "title",
            Field::Purpose => "purpose",
        }
    }
}

/// A refusal.
#[derive(Debug, PartialEq, Eq)]
pub enum Error {
    /// No token was presented.
    MissingToken,
    /// The token presented is not valid.
    InvalidToken,
    /// An entity with this identifier exists already.
    AlreadyExists { entity: Entity, id: String },
    /// No entity has this identifier.
    NotFound { entity: Entity, id: String },
    /// A list that needs an item is empty.
    MissingItem(Item),
    /// A field holds nothing but white space.
    BlankItem(Field),
    /// The url has neither the scheme http nor https.
    InvalidUrlScheme,
    /// A locked component is not among the affected components.
    LockingNonAffectedComponent,
    /// A lock on this component could not be had.
    LockFailed(String),
    /// An operation that this one depends on is not completed.
    UnmetDependency,
    /// The status may not change in this way.
    InvalidStateTransition,
    /// A subscription names no target, or more than one.
    SubscribingMultipleEntities,
    /// Something that should not fail did.
    Internal,
}

/// A refusal as plain values.
pub enum ErrorView {
    MissingToken,
    InvalidToken,
    AlreadyExists { entity: Entity, id: Seq<char> },
    NotFound { entity: Entity, id: Seq<char> },
    MissingItem(Item),
    BlankItem(Field),
    InvalidUrlScheme,
    LockingNonAffectedComponent,
    LockFailed(Seq<char>),
    UnmetDependency,
    InvalidStateTransition,
    SubscribingMultipleEntities,
    Internal,
}

impl View for Error {
    type V = ErrorView;

    open spec fn view(&self) -> ErrorView {
        match self {
            Error::MissingToken => ErrorView::MissingToken,
            Error::InvalidToken => ErrorView::InvalidToken,
            Error::AlreadyExists { entity, id } => ErrorView::AlreadyExists {
                entity: *entity,
                id: id@,
            },
            Error::NotFound { entity, id } => ErrorView::NotFound { entity: *entity, id: id@ },
            Error::MissingItem(item) => ErrorView::MissingItem(*item),
            Error::BlankItem(field) => ErrorView::BlankItem(*field),
            Error::InvalidUrlScheme => ErrorView::InvalidUrlScheme,
            Error::LockingNonAffectedComponent => ErrorView::LockingNonAffectedComponent,
            Error::LockFailed(component) => ErrorView::LockFailed(component@),
            Error::UnmetDependency => ErrorView::UnmetDependency,
            Error::InvalidStateTransition => ErrorView::InvalidStateTransition,
            Error::SubscribingMultipleEntities => ErrorView::SubscribingMultipleEntities,
            Error::Internal => ErrorView::Internal,
        }
    }
}

/// The HTTP status that tells of a refusal: 401 for a missing token, 404 for
/// what is not found, 424 for an unmet dependency, 423 for a lock not had,
/// 500 for an internal failure and 400 for every other one.
pub open spec fn status_of(error: ErrorView) -> u16 {
    match error {
        ErrorView::MissingToken => 401,
        ErrorView::NotFound { .. } => 404,
        ErrorView::UnmetDependency => 424,
        ErrorView::LockFailed(_) => 423,
        ErrorView::Internal => 500,
        _ => 400,
    }
}

/// The sentence that tells of a refusal.
pub open spec fn message_of(error: ErrorView) -> Seq<char> {
    match error {
        ErrorView::MissingToken => "no token provided"@,
        ErrorView::InvalidToken => "invalid token"@,
        ErrorView::AlreadyExists { entity, id } => entity_word(entity) + " "@ + id
            + " already exists"@,
        ErrorView::NotFound { entity, id } => entity_word(entity) + " "@ + id + " not found"@,
        ErrorView::MissingItem(item) => "at least one "@ + item_word(item) + " is required"@,
        ErrorView::BlankItem(field) => field_word(field) + " cannot be blank"@,
        ErrorView::InvalidUrlScheme => "url should have http or https scheme"@,
        ErrorView::LockingNonAffectedComponent =>
            "locked component must be one of the affected components"@,
        ErrorView::LockFailed(component) => "failed to acquire lock on component "@ + component,
        ErrorView::UnmetDependency =>
            "Dependent operations must be completed before starting this operation"@,
        ErrorView::InvalidStateTransition => "invalid state transition"@,
        ErrorView::SubscribingMultipleEntities =>
            "exactly one of operation, component, or tag must be specified"@,
        ErrorView::Internal => "internal error"@,
    }
}

impl Error {
    /// The HTTP status that tells of this refusal.
    pub fn status(&self) -> (r: u16)
        ensures
            r == status_of(self@),
    {
        match self {
            Error::MissingToken => 401,
            Error::NotFound { .. } => 404,
            Error::UnmetDependency => 424,
            Error::LockFailed(_) => 423,
            Error::Internal => 500,
            _ => 400,
        }
    }

    /// The sentence that tells of this refusal.
    pub fn message(&self) -> (r: String)
        ensures
            r@ == message_of(self@),
    {
        match self {
            Error::MissingToken => String::from_str("no token provided"),
            Error::InvalidToken => String::from_str("invalid token"),
            Error::AlreadyExists { entity, id } => {
                let mut r = String::from_str(entity.as_str());
                r.append(" ");
                r.append(id.as_str());
                r.append(" already exists");
                r
            },
            Error::NotFound { entity, id } => {
                let mut r = String::from_str(entity.as_str());
                r.append(" ");
                r.append(id.as_str());
                r.append(" not found");
                r
            },
            Error::MissingItem(item) => {
                let mut r = String::from_str("at least one ");
                r.append(item.as_str());
                r.append(" is required");
                r
            },
            Error::BlankItem(field) => {
                let mut r = String::from_str(field.as_str());
                r.append(" cannot be blank");
                r
            },
            Error::InvalidUrlScheme => String::from_str("url should have http or https scheme"),
            Error::LockingNonAffectedComponent => String::from_str(
                "locked component must be one of the affected components",
            ),
            Error::LockFailed(component) => {
                let mut r = String::from_str("failed to acquire lock on component ");
                r.append(component.as_str());
                r
            },
            Error::UnmetDependency => String::from_str(
                "Dependent operations must be completed before starting this operation",
            ),
            Error::InvalidStateTransition => String::from_str("invalid state transition"),
            Error::SubscribingMultipleEntities => String::from_str(
                "exactly one of operation, component, or tag must be specified",
            ),
            Error::Internal => String::from_str("internal error"),
        }
    }
}

} // verus!
