//! Typestate builders and a checked shorthand constructor for records whose
//! fields are either required or carry a default.
//!
//! A record's shape is an [`schema::EntitySchema`]. From it the library offers a
//! builder ([`builder::Builder`]) whose finalizer may only be called once every
//! required field has been set, and a shorthand constructor
//! ([`shorthand::construct`]) that validates the supplied field names
//! ([`validator::check_required`]) and fills the remaining fields from their
//! defaults.

pub mod schema;
pub mod validator;
pub mod builder;
pub mod shorthand;
pub mod extract;
pub mod rules;
