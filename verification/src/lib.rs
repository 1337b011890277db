//! The verified core of a desktop Git client: the diff, status and patch
//! model, the staging rules, history search scoring, the repository
//! registry, the workspace settings and the backup bookkeeping.

pub mod types;
pub mod order;
pub mod text;
pub mod paths;
pub mod patch;
pub mod status;
pub mod stage;
pub mod fuzzy;
pub mod persistence;
pub mod repo;
pub mod watch;
pub mod diff;
pub mod history;
pub mod discard;
pub mod bridge;
