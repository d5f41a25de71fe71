//! A directory-bookmark manager: named waypoints, optionally grouped, kept
//! in one list that is queried, edited, sorted and stored whole.

pub mod commands;
pub mod config;
pub mod laws;
pub mod list;
pub mod order;
pub mod sort;
pub mod waypoint;

pub use commands::{dissolve, edit, parse_name, reload_list, rm, EditMatches, Edited};
pub use config::Config;
pub use list::{List, ListError};
pub use order::str_le;
pub use sort::SortKey;
pub use waypoint::{Waypoint, WaypointView};
