//! Command-line arguments, as plain values.
//!
//! The scanner takes one option: the root directory to scan. Flag parsing
//! itself is presentation glue and lives with the binary; the library only
//! fixes what a parsed invocation holds and what the default root is.

use vstd::prelude::*;

verus! {

/// A parsed invocation: the root directory to scan.
pub struct Arguments {
    pub directory: String,
}

impl core::default::Default for Arguments {
    /// When no directory is named, the current working directory is scanned.
    fn default() -> (args: Arguments)
        ensures
            args.directory@ == "."@,
    {
        Arguments { directory: ".".to_owned() }
    }
}

} // verus!
