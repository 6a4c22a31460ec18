//! Process-monitor core: parsing of `/proc` and `/etc/passwd` text, the
//! per-process bookkeeping between refreshes, and the placement of process
//! cards on the screen grid.

pub mod text;
pub mod status;
pub mod users;
pub mod meminfo;
pub mod clock;
pub mod process;
pub mod system;
pub mod grid;
pub mod layout;
