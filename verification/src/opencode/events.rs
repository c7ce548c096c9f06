//! Consumer for the opencode `GET /event` bus.
//!
//! opencode publishes every session's activity on one stream. Filtering by
//! session is the handler's job, because a debate runs its sessions
//! concurrently and each needs routing to its own side.
//!
//! Events that cannot be read are skipped rather than terminating the stream.
//! opencode carries many event types coin does not model, and a new one
//! appearing upstream must not stop a running debate.

use vstd::prelude::*;

use crate::error::{CoinError, ErrorView};
use crate::text;

verus! {

/// Outcome of handling one event, controlling whether the stream continues.
#[derive(Debug, Clone, Copy, PartialEq, Eq, Structural)]
pub enum Flow {
    /// Keep consuming events.
    Continue,
    /// Stop consuming and return.
    Stop,
}

/// What one item of the stream brought.
#[derive(Debug, Clone)]
pub enum Item {
    /// A message with this data, which reads as an event the handler has seen,
    /// or does not read as one at all.
    Message {
        /// The data of the message.
        data: String,
        /// What the handler made of it; nothing where it could not be read.
        handled: Option<Flow>,
    },
    /// The stream failed, with the transport's words.
    Broken(String),
    /// The stream ended.
    Closed,
}

/// Whether a message is one to read: opencode sends periodic keepalives with
/// blank data, which carry no event.
pub fn carries_event(data: &str) -> (r: bool)
    ensures
        r == !text::is_blank(data@),
{
    !text::blank(data)
}

/// Decide whether to go on after an item: `None` to go on, and otherwise how
/// the consumption ends. Only the handler ends it well; a stream that breaks or
/// closes first has failed.
pub fn after_item(item: Item) -> (r: Option<Result<(), CoinError>>)
    ensures
        match item {
            Item::Message { data, handled } => if !text::is_blank(data@) && handled == Some(
                Flow::Stop,
            ) {
                r == Some(Ok::<(), CoinError>(()))
            } else {
                r is None
            },
            Item::Broken(reason) => r is Some && r->0 is Err && r->0->Err_0@
                == ErrorView::EventStream(reason@),
            Item::Closed => r is Some && r->0 is Err && r->0->Err_0@ == ErrorView::EventStream(
                "opencode closed the event stream unexpectedly"@,
            ),
        },
{
    match item {
        Item::Message { data, handled } => {
            if text::blank(data.as_str()) {
                return None;
            }
            match handled {
                Some(Flow::Stop) => Some(Ok(())),
                _ => None,
            }
        },
        Item::Broken(reason) => Some(Err(CoinError::EventStream(reason))),
        Item::Closed => Some(
            Err(
                CoinError::EventStream("opencode closed the event stream unexpectedly".to_owned()),
            ),
        ),
    }
}

} // verus!
