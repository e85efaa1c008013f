//! What the editor is started with: the files to open and the
//! configuration file.
use vstd::prelude::*;

verus! {

/// The files to open, and the configuration file to load instead of the
/// default one.
#[derive(Debug, Clone, PartialEq, Eq, PartialOrd, Ord, Hash)]
pub struct StartupOptions {
    pub files: Vec<String>,
    pub config: Option<String>,
}

} // verus!
