//! Channels, and the numbering of their events.

use crate::relay::config::{ChannelConfig, RelayConfig};
use crate::text::text_eq;
use vstd::prelude::*;

verus! {

/// An event of a channel. Its number tells subscribers where events are missing.
#[derive(Debug, Clone)]
pub struct RelayEvent {
    pub seq_id: u64,
    pub ts_ms: u64,
    pub channel: String,
    pub payload: String,
}

/// A channel that is open.
#[derive(Debug)]
pub struct ChannelHandle {
    pub name: String,
    /// The number of the last event, or zero before the first.
    pub last_seq: u64,
    pub capacity: usize,
    pub keep_alive_seconds: u64,
}

/// The open channels, in the order of their names.
#[derive(Debug)]
pub struct ChannelRegistry {
    pub channels: Vec<ChannelHandle>,
}

impl ChannelHandle {
    /// A channel as it opens.
    pub open spec fn opened(self, entry: (String, ChannelConfig)) -> bool {
        &&& self.name@ == entry.0@
        &&& self.last_seq == 0
        &&& self.capacity == entry.1.capacity
        &&& self.keep_alive_seconds == entry.1.keep_alive_seconds
    }

    /// The number of the next event: one more than that of the last.
    pub fn next_seq(&mut self) -> (r: u64)
        requires
            old(self).last_seq < u64::MAX,
        ensures
            r == old(self).last_seq + 1,
            *final(self) == (ChannelHandle { last_seq: r, ..*old(self) }),
    {
        self.last_seq = self.last_seq + 1;
        self.last_seq
    }
}

/// The position of a channel, from position `n` on.
pub open spec fn handle_position(channels: Seq<ChannelHandle>, name: Seq<char>, n: int) -> Option<int>
    decreases channels.len() - n,
{
    if n >= channels.len() {
        None
    } else if channels[n].name@ == name {
        Some(n)
    } else {
        handle_position(channels, name, n + 1)
    }
}

impl ChannelRegistry {
    /// Opens the configured channels.
    pub fn from_config(config: &RelayConfig) -> (r: Self)
        ensures
            r.channels@.len() == config.channels@.len(),
            forall|i: int| 0 <= i < r.channels@.len() ==> (#[trigger] r.channels@[i]).opened(config.channels@[i]),
    {
        let mut channels: Vec<ChannelHandle> = Vec::new();
        let mut i: usize = 0;
        while i < config.channels.len()
            invariant
                i <= config.channels@.len(),
                channels@.len() == i,
                forall|j: int| 0 <= j < i ==> (#[trigger] channels@[j]).opened(config.channels@[j]),
            decreases config.channels@.len() - i,
        {
            let entry = &config.channels[i];
            channels.push(
                ChannelHandle {
                    name: entry.0.clone(),
                    last_seq: 0,
                    capacity: entry.1.capacity,
                    keep_alive_seconds: entry.1.keep_alive_seconds,
                },
            );
            i = i + 1;
        }
        ChannelRegistry { channels }
    }

    /// The position of a channel.
    pub fn position(&self, name: &str) -> (r: Option<usize>)
        ensures
            match r {
                Some(i) => i < self.channels@.len() && handle_position(self.channels@, name@, 0) == Some(i as int),
                None => handle_position(self.channels@, name@, 0) is None,
            },
    {
        let mut i: usize = 0;
        while i < self.channels.len()
            invariant
                i <= self.channels@.len(),
                handle_position(self.channels@, name@, 0) == handle_position(self.channels@, name@, i as int),
            decreases self.channels@.len() - i,
        {
            if text_eq(self.channels[i].name.as_str(), name) {
                return Some(i);
            }
            i = i + 1;
        }
        None
    }

    /// The channel of that name.
    pub fn get(&self, name: &str) -> (r: Option<&ChannelHandle>)
        ensures
            match r {
                Some(h) => handle_position(self.channels@, name@, 0) matches Some(i) && *h == self.channels@[i],
                None => handle_position(self.channels@, name@, 0) is None,
            },
    {
        match self.position(name) {
            Some(i) => Some(&self.channels[i]),
            None => None,
        }
    }

    /// The next number of the channel at position `i`; the other channels stay as they are.
    pub fn next_seq(&mut self, i: usize) -> (r: u64)
        requires
            i < old(self).channels@.len(),
            old(self).channels@[i as int].last_seq < u64::MAX,
        ensures
            r == old(self).channels@[i as int].last_seq + 1,
            final(self).channels@ == old(self).channels@.update(
                i as int,
                (ChannelHandle { last_seq: r, ..old(self).channels@[i as int] }),
            ),
    {
        self.channels[i].next_seq()
    }

    /// The names of the channels.
    pub fn names(&self) -> (r: Vec<String>)
        ensures
            r@.len() == self.channels@.len(),
            forall|i: int| 0 <= i < r@.len() ==> (#[trigger] r@[i])@ == self.channels@[i].name@,
    {
        let mut r: Vec<String> = Vec::new();
        let mut i: usize = 0;
        while i < self.channels.len()
            invariant
                i <= self.channels@.len(),
                r@.len() == i,
                forall|j: int| 0 <= j < i ==> (#[trigger] r@[j])@ == self.channels@[j].name@,
            decreases self.channels@.len() - i,
        {
            r.push(self.channels[i].name.clone());
            i = i + 1;
        }
        r
    }
}

/// A name stands for the first channel that has it, and for none where no channel has it.
pub proof fn law_channels_are_found_by_name(channels: Seq<ChannelHandle>, name: Seq<char>)
    ensures
        match handle_position(channels, name, 0) {
            Some(i) => {
                &&& 0 <= i < channels.len()
                &&& channels[i].name@ == name
                &&& forall|j: int| 0 <= j < i ==> (#[trigger] channels[j]).name@ != name
            },
            None => forall|j: int| 0 <= j < channels.len() ==> (#[trigger] channels[j]).name@ != name,
        },
{
    lemma_channel_found(channels, name, 0);
}

proof fn lemma_channel_found(channels: Seq<ChannelHandle>, name: Seq<char>, n: int)
    requires
        0 <= n,
        forall|j: int| 0 <= j < n && j < channels.len() ==> (#[trigger] channels[j]).name@ != name,
    ensures
        match handle_position(channels, name, n) {
            Some(i) => {
                &&& n <= i < channels.len()
                &&& channels[i].name@ == name
                &&& forall|j: int| 0 <= j < i ==> (#[trigger] channels[j]).name@ != name
            },
            None => forall|j: int| 0 <= j < channels.len() ==> (#[trigger] channels[j]).name@ != name,
        },
    decreases channels.len() - n,
{
    if n < channels.len() && channels[n].name@ != name {
        lemma_channel_found(channels, name, n + 1);
    }
}

/// A channel opens under the name and with the sizes that its configuration gives it, and its events
/// are numbered from one.
pub proof fn law_channels_open_as_configured(h: ChannelHandle, name: String, config: ChannelConfig)
    requires
        h.opened((name, config)),
    ensures
        h.name@ == name@,
        h.capacity == config.capacity,
        h.keep_alive_seconds == config.keep_alive_seconds,
        h.last_seq + 1 == 1,
{
}

} // verus!
