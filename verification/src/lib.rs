//! RootFTP: an FTP service that roots every user in a directory of their own,
//! moves files between users through outbox and inbox directories, and hands
//! new files to plugins by extension.

pub mod text;
pub mod path;
pub mod auth;
pub mod layout;
pub mod watch;
pub mod outbox;
pub mod plugins;
pub mod cpp_plugin;
pub mod plugin_trait;
pub mod library;
pub mod config;
pub mod server;
pub mod cli;
