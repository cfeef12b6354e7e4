//! The decisions of a Windows clean-up tool: what a scan offers, what a clean
//! removes, how the registry is backed up first and how processes that are in
//! the way are handled.
pub mod application;
pub mod backup;
pub mod browser;
pub mod clean;
pub mod clock;
pub mod command;
pub mod database;
pub mod disk;
pub mod firefox;
pub mod item;
pub mod launch;
pub mod offer;
pub mod process;
pub mod registry;
pub mod scan;
pub mod system;
pub mod text;
pub mod utf16;
