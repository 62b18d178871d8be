//! A fetch tool's library: command-line settings, the art and its line layout,
//! the rows of system details, and the readers of each platform's command output.

pub mod arguments;
pub mod art;
pub mod display;
pub mod layout;
pub mod linux;
pub mod macos;
pub mod text;
pub mod uptime;
pub mod windows;
