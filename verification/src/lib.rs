//! Coordination engine for change operations on shared components.
//!
//! Operators plan, start, pause and finish operations that affect named
//! components. The engine keeps the entities, checks every write, lets an
//! operation start only when the operations it depends on are completed, and
//! keeps operations that need a component for themselves apart from every
//! other operation on that component.
//!
//! An operation is under way while it is in progress or paused. While under
//! way it holds each component it locks exclusively, and shares each other
//! component it affects; it holds nothing before it starts and after it has
//! ended. The lock table is at any time the one that the operations under way
//! give rise to.
//!
//! - [`model`]: the entities and the life of an operation.
//! - [`store`]: the entity store.
//! - [`rules`]: what a write is refused for and what it does, as mathematical
//!   functions; [`validate`]: the checks themselves.
//! - [`locks`]: the lock table and the operations that can be under way
//!   together.
//! - [`engine`]: the store and the lock table behind validated writes.
//! - [`laws`]: what holds of the engine whatever the request.
//! - [`api`], [`error`]: what callers send and what they get back.
//! - [`cli`], [`console`], [`render`]: the command line.
//! - [`text`], [`names`], [`ids`], [`assoc`], [`annotations`], [`uri`]: texts,
//!   sets of names and ids, maps, and urls.

pub mod annotations;
pub mod api;
pub mod assoc;
pub mod cli;
pub mod console;
pub mod engine;
pub mod error;
pub mod ids;
pub mod laws;
pub mod locks;
pub mod model;
pub mod names;
pub mod render;
pub mod rules;
pub mod store;
pub mod text;
pub mod uri;
pub mod validate;
