//! A file clipboard: one invocation stages paths, a later one pastes them
//! into a directory. Between the two the staged paths are kept in a store
//! that all invocations share.
//!
//! This library is the part that decides. It never touches the file system:
//! the caller looks and hands over what it saw, and performs what the library
//! asks for.
//!
//! Staging ([`stage`]): the caller resolves each given path from its working
//! directory ([`path::resolve`]) and notes whether the result exists.
//! [`stage::copy`] keeps the paths that exist and replaces the content of the
//! store ([`store::ClipboardStore`]) by them.
//!
//! Pasting ([`paste`], [`transfer`]): [`paste::staged_sources`] reads the
//! store; for each source the caller notes whether it still exists and whether
//! its [`paste::collision_target`] exists already; [`paste::filter_sources`]
//! turns that into the transfers to make and the sources to skip, each with
//! its reason. A [`transfer::PasteSession`] hands out the transfers one by
//! one and stops at the first that fails; a [`transfer::ProgressTracker`]
//! turns the byte counts heard during a transfer into increments that add up
//! to the size of the source.
//!
//! Every executable function is verified against a contract over
//! mathematical sequences of characters, and the properties that relate
//! several functions are stated and proved as lemmas beside them.

pub mod error;
pub mod paste;
pub mod path;
pub mod stage;
pub mod store;
pub mod text;
pub mod transfer;
