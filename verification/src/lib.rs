//! Core engine of a chat bot that answers commands with configured,
//! templated responses.
//!
//! The engine parses a compact textual type grammar describing command
//! arguments, binds whitespace-separated argument text against those
//! specifications, validates or transforms each bound value (URL-backed
//! arguments are checked against the outcome of a reachability probe that
//! the caller performs), enforces a per-command cooldown, and renders a
//! positional response template.

use vstd::prelude::*;

pub mod commands;
pub mod cooldown;
pub mod dispatch;
pub mod grammar;
pub mod messages;
pub mod registry;
pub mod respond;
pub mod schedule;
pub mod template;
pub mod text;

verus! {

/// The messaging platform a message came from.
#[derive(Clone, Copy, Debug, PartialEq, Eq, Structural)]
pub enum Source {
    Discord,
    Twitch,
}

} // verus!
