//! Replication of events to Nostr relays.
use vstd::prelude::*;

verus! {

/// An event published to relays.
pub struct PublishedEvent {
    pub event_id_hex: String,
    pub relay_urls: Vec<String>,
}

/// Replicates events to Nostr relays.
pub struct NostrReplicator;

impl NostrReplicator {
    /// The relays events go to by default: none yet.
    pub fn default_relays(&self) -> (r: &[String])
        ensures
            r@.len() == 0,
    {
        &[]
    }
}

} // verus!
