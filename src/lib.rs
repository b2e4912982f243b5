//! Small text and arithmetic utilities: an adder, a rectangle containment
//! check, a bounded guess, a record for a protocol buffer message, and a line
//! search over text with an optional case-insensitive mode.

pub mod adder;
pub mod config;
pub mod message;
pub mod search;
pub mod text;

pub use adder::{add_two, Guess, Rectangle};
pub use config::{Config, UsageError};
pub use message::{create_data, Data, Size};
pub use search::{run_search, search, search_case_insensitive, select_by_keys};
