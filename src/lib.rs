//! Shared execution contexts: the bookkeeping behind named, reference-counted
//! reactor/executor pairs and the grouping of in-flight tasks.

mod executor;
mod groups;
mod registry;
mod runner;

pub use executor::{ExecutorMode, SpawnQueue};
pub use groups::{
    lemma_next_id_is_untracked, lemma_retired_id_stays_untracked, PendingFutureId, PendingGroups,
};
pub use registry::{
    lemma_older_context_keeps_newer_entry, lemma_registered_context_is_reused,
    lemma_removed_name_is_rebuilt, Registry,
};
pub use runner::{pause_after_turn, shutdown_requested, RUNNING, SHUTDOWN_NOW};
