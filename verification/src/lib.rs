//! Coin runs a structured debate between two LLM debaters over a proposition.
//!
//! The design goal is truth-seeking rather than persuasion: both debaters are
//! told that conceding a point they cannot support is a success, and what they
//! say of their own confidence is what decides when a debate has settled
//! something.
//!
//! This crate is everything about a debate that can be decided without touching
//! the outside world, with its behaviour stated in contracts and proved:
//!
//! - [`config`] settles runtime settings, filesystem locations, and delays
//! - [`error`] defines the single error type used throughout
//! - [`opencode`] owns all knowledge of the opencode server
//! - [`debate`] holds the format-agnostic engine and the formats themselves
//! - [`store`] renders transcripts
//! - [`term`] and [`cli`] decide what the terminal shows
//! - [`text`] holds the text primitives that the rest is stated over
//!
//! Requests, processes, files, and the terminal itself belong to the program
//! around it, which hands plain values in and carries out what comes back.

pub mod cli;
pub mod config;
pub mod debate;
pub mod error;
pub mod opencode;
pub mod store;
pub mod term;
pub mod text;
