use vstd::prelude::*;

pub mod assoc;
pub mod text;
mod clock;
pub mod firewall;
pub mod creekguard;
pub mod arkhe_core;
pub mod arkheobex;
pub mod identity;
pub mod cognitive;
pub mod governance;
pub mod nexus;
pub mod merkle;
pub mod oats;
pub mod audit;
pub mod bridge;
pub mod cli;
pub mod picoads;
pub mod nostr;
pub mod permissions;
pub mod tools;
pub mod server;
pub mod runtime;
pub mod api;
pub mod resilience;
pub mod llm_core;
pub mod multichain;

verus! {
}
