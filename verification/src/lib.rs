//! Verified core of the WinUSB Switcher Lite J-Link bootstrap: reading J-Link
//! Commander output, checking and planning the extraction of the bundled zip,
//! the layout of the installed J-Link tree and its udev rules, the bootstrap's
//! decisions as a state machine, and the search-path values of the process
//! environment.

pub mod archive;
pub mod bootstrap;
pub mod bundled;
pub mod error;
pub mod paths;
pub mod platform;
pub mod rules_search;
pub mod runner;
pub mod text;
pub mod udev;
