pub mod app;
pub mod disk;
pub mod error;
pub mod laws;
pub mod opts;
pub mod state;
pub mod watch;
