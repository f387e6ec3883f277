//! What subscribers of a channel are sent.

use crate::relay::auth::{bearer_problem, check_bearer, opt_str, AuthDecision, Header};
use crate::relay::channel::{handle_position, ChannelRegistry, RelayEvent};
use crate::text::{dec, decimal};
use vstd::prelude::*;
use vstd::string::*;

verus! {

/// What becomes of a subscriber.
#[derive(Debug)]
pub enum Subscription {
    Unauthorized(&'static str),
    /// There is no such channel: what the answer says.
    Unknown(String),
    /// The channel, as its position.
    Accepted(usize),
}

/// Decides on a subscriber. The token is asked for wherever the request comes from.
pub fn subscribe(headers: &Vec<Header>, token: Option<&str>, registry: &ChannelRegistry, channel: &str) -> (r:
    Subscription)
    ensures
        match bearer_problem(headers@, opt_str(token)) {
            Some(reason) => r matches Subscription::Unauthorized(why) && why@ == reason,
            None => match handle_position(registry.channels@, channel@, 0) {
                Some(i) => r == Subscription::Accepted(i as usize) && i < registry.channels@.len(),
                None => r matches Subscription::Unknown(what) && what@ == "unknown channel '"@ + channel@ + "'"@,
            },
        },
{
    match check_bearer(headers, token) {
        AuthDecision::Deny(reason) => Subscription::Unauthorized(reason),
        AuthDecision::Allow => match registry.position(channel) {
            Some(i) => Subscription::Accepted(i),
            None => Subscription::Unknown("unknown channel '".to_owned().concat(channel).concat("'")),
        },
    }
}

/// What reaches a subscriber.
pub enum StreamInput {
    Event(RelayEvent),
    /// So many events were lost before the next one.
    Lagged(u64),
}

/// What is sent to a subscriber.
#[derive(Debug)]
pub enum StreamItem {
    Event { id: String, data: String },
    Comment(String),
}

/// Makes what is sent: an event under its number, or a comment on the events that were lost.
pub fn stream_item(input: StreamInput) -> (r: StreamItem)
    ensures
        match input {
            StreamInput::Event(e) => r matches StreamItem::Event { id, data } && id@ == dec(e.seq_id as nat)
                && data@ == e.payload@,
            StreamInput::Lagged(n) => r matches StreamItem::Comment(text) && text@ == "lagged "@ + dec(n as nat),
        },
{
    match input {
        StreamInput::Event(e) => StreamItem::Event { id: decimal(e.seq_id), data: e.payload },
        StreamInput::Lagged(n) => {
            let count = decimal(n);
            StreamItem::Comment("lagged ".to_owned().concat(count.as_str()))
        },
    }
}

} // verus!
