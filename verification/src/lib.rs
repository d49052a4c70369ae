//! A process-supervision core: incremental discovery of the process tree
//! spawned by a supervised child, a growing registry of everything ever
//! observed in that tree, an escalating termination sweep over it, and the
//! decisions of the event loop that arbitrates child exit, termination
//! signals and parent loss.

mod discover;
mod events;
mod exit;
mod inspect;
mod passthrough;
mod pidset;
mod sweep;
mod table;
mod tracker;

pub use discover::descendant_set;
pub use discover::discover_descendants;
pub use discover::discovered_spec;
pub use discover::is_child_of;
pub use discover::lemma_no_children_only_root;
pub use discover::reachable;
pub use discover::snapshot_view;
pub use events::next_step;
pub use events::next_step_spec;
pub use events::observe_due;
pub use events::parent_vanished;
pub use events::watchdog_armed;
pub use events::ChannelPoll;
pub use events::Event;
pub use events::LoopStep;
pub use events::HANGUP_SIGNAL;
pub use events::OBSERVE_INTERVAL_MS;
pub use events::PARENT_CHECK_INTERVAL_MS;
pub use events::POLL_INTERVAL_MS;
pub use events::REAP_TIMEOUT_MS;
pub use events::TERM_GRACE_MS;
pub use exit::exit_code_from_signal;
pub use exit::exit_code_from_status;
pub use exit::signal_exit_spec;
pub use exit::status_exit_spec;
pub use inspect::pgid_exists;
pub use inspect::pid_exists;
pub use inspect::process_groups;
pub use passthrough::is_passthrough_mode;
pub use passthrough::passthrough_spec;
pub use pidset::PidSet;
pub use sweep::eligible;
pub use sweep::lemma_protected_targets_untouched;
pub use sweep::signal_for_pass;
pub use sweep::sweep_pass;
pub use sweep::terminate_targets;
pub use sweep::SweepSignal;
pub use sweep::SWEEP_PASSES;
pub use table::parse_process_table;
pub use table::parse_table_spec;
pub use tracker::absorb_pids;
pub use tracker::admit_groups;
pub use tracker::lemma_observe_idempotent;
pub use tracker::lemma_registries_only_grow;
pub use tracker::Tracker;
