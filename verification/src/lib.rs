//! A driver updater for Windows: it takes inventory of the machine's devices,
//! matches the driver updates that Windows Update offers to them, and follows
//! the installation of those updates.  This crate holds the logic, with its
//! contracts proved; the window, WMI and PowerShell live in `app/`.
pub mod text;
pub mod hardware;
pub mod updater;
pub mod session;
