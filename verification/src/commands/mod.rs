//! What each command decides, apart from reading and writing files.
pub mod list;
pub mod new;
pub mod edit;
pub mod lint;
pub mod table;
pub mod next;
pub mod rebalance;
pub mod stats;
pub mod search;
pub mod scan;
pub mod diff;
pub mod context;
pub mod stale;
pub mod archive;
pub mod types;
pub mod update;
