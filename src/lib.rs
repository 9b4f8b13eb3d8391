//! Core of an interactive tool that finds operating-system processes by fuzzy
//! name or PID match and terminates them: the process record and the parsers
//! of the system's process listings, the fuzzy ranking stage, the snapshot
//! store, the scroll/pointer selection controller and the session's input
//! handling.
pub mod find;
pub mod ieee;
pub mod listing;
pub mod monitor;
pub mod order;
pub mod process;
pub mod ranking;
pub mod selection;
pub mod session;
pub mod text;
pub mod theme;

pub use listing::{parse_listing, ListingFormat};
pub use monitor::{KillStatus, ListingError, Monitor, ProcessMonitor};
pub use process::{Process, UNSET_PID};
pub use ranking::{rank, rank_scores};
pub use selection::{Intent, Selection};
pub use session::{match_by_pid, Action, Input, Session};
