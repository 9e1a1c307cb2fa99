//! Core of a homeserver's account-registration subsystem.
//!
//! The crate decides whether a requested username is available, validates it
//! against the localpart grammar, drives the multi-stage authentication flow
//! that guards registration, provisions accounts (standard and guest), and
//! issues device-bound access tokens. Transport, JSON rendering and the
//! storage engine itself are collaborators outside this crate; persistence is
//! reached through the [`store::Store`] capability.

pub mod assoc;
pub mod auth;
pub mod errors;
pub mod numeral;
pub mod registrar;
pub mod store;
pub mod text;
pub mod username;
