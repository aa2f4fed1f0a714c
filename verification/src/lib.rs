//! A task list engine: an ordered collection of named tasks that can be
//! completed and removed, the markup that displays it, the text that
//! persists it, and the routing of user actions onto it.
//!
//! - [`task`]: tasks and the store that owns them.
//! - [`render`]: the markup of a list.
//! - [`writer`], [`lexer`], [`grammar`], [`codec`]: the persisted text,
//!   written and read back.
//! - [`model`], [`schema`]: what the reading means, told of values as
//!   trees.
//! - [`router`]: the application, which turns events of the page into
//!   operations on its store and into what the page has to do.
//! - [`text`]: helpers on texts and sequences.

pub mod codec;
pub mod grammar;
pub mod lexer;
pub mod model;
pub mod render;
pub mod router;
pub mod schema;
pub mod task;
pub mod text;
pub mod writer;
