//! Reconciliation core for command-driven resources.
//!
//! A resource is declared once — string inputs, plus shell-like commands
//! that create, read, update and destroy it — and reconciled against
//! reality through a create/read/update/destroy lifecycle, the way an
//! infrastructure-as-code engine reconciles declared state.  Every
//! declared field is tri-state ([`value::Value`]): known, explicitly
//! absent, or not yet computed; planning and apply branch on that
//! distinction throughout.
//!
//! One reconciliation pass flows through the core as follows: the
//! normalizer ([`state`]) fixes degenerate declarations; the diff engine
//! ([`diff`]) computes the modified input keys and selects the update
//! rule that covers them; the planner ([`plan`]) decides between no-op,
//! in-place update and replace; the state machine ([`resource`],
//! [`data_source`]) runs the lifecycle commands; and the read executor
//! ([`read`]) resolves every unknown output through the transport,
//! tolerating partial failure.  The transport itself ([`connection`]) is
//! an opaque capability the core only calls; concrete transports live
//! outside the core.
//!
//! Diagnostics ([`diag`]) accumulate per step, each attributed to the
//! structured path of the declaration responsible; a step yields no
//! result exactly when an error was collected.

pub mod blocks;
pub mod connection;
pub mod data_source;
pub mod diag;
pub mod dict;
pub mod diff;
pub mod envs;
pub mod import;
pub mod plan;
pub mod provider;
pub mod read;
pub mod resource;
pub mod state;
pub mod text;
pub mod token;
pub mod value;
