//! Detection of Teams meetings: what is read of windows and elements, and how it is
//! settled into a stable answer.

pub mod debounce;
pub mod events;
pub mod monitor;
pub mod names;
pub mod process_names;
pub mod scan;
pub mod toolbar;
