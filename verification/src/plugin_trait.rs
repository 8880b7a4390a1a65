//! What a plugin library provides to the server.

use vstd::prelude::*;
use std::path::PathBuf;

verus! {

/// The type `std::path::PathBuf`, declared so that paths can be handed to
/// plugins; nothing inside a value of it is visible.
#[verifier::external_type_specification]
#[verifier::external_body]
pub struct ExPathBuf(std::path::PathBuf);

/// A plugin: it starts once it is loaded, names the file extensions it
/// handles, and is handed each new file of such an extension that is dropped
/// into its input directory, together with its output directory. What a
/// plugin does with a file is its own work, so nothing is said of it here.
pub trait Plugin: Send + Sync {
    /// Called once, after the plugin is loaded.
    fn init(&self);

    /// The extensions, without the dot, of the files the plugin handles.
    fn extensions(&self) -> &[&'static str];

    /// Handles the file `input_path`, writing what it makes into the
    /// directory `output_path`.
    fn on_create(&self, input_path: &PathBuf, output_path: &PathBuf);
}

} // verus!
