use std::path::PathBuf;
use vstd::prelude::*;

verus! {

/// `std::path::PathBuf`, the path of a file. Nothing here looks inside one.
#[verifier::external_type_specification]
#[verifier::external_body]
pub struct ExPathBuf(PathBuf);

/// What the command line asks for.
#[derive(Debug)]
pub struct HideArgs {
    /// The file that holds the document to redact; without one, nothing is redacted.
    pub input_file: Option<PathBuf>,
    /// The file that the redacted document goes to, in place of the standard output.
    pub output_file: Option<PathBuf>,
    /// Whether to report what is done.
    pub debug: bool,
    /// The keys to add to the ones that are hidden.
    pub add_keys: Vec<String>,
    /// The keys to take out of the ones that are hidden.
    pub remove_keys: Vec<String>,
}

impl HideArgs {
    /// Whether the command line names a key to add or to take out, so that the keys have to
    /// be written back.
    pub fn changes_keys(&self) -> (changes: bool)
        ensures
            changes == (self.add_keys@.len() > 0 || self.remove_keys@.len() > 0),
    {
        !self.remove_keys.is_empty() || !self.add_keys.is_empty()
    }
}

} // verus!
