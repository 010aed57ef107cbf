//! Errors that are told in words.

use crate::number::{dec, decimal};
use crate::pieces::cat7;
use vstd::prelude::*;

verus! {

/// An error, and the place in the program that it comes from.
#[derive(Debug)]
pub struct Error {
    pub error: String,
    pub file: &'static str,
    pub line: u32,
}

impl Error {
    /// An error at a place.
    pub fn new(error: String, file: &'static str, line: u32) -> (r: Error)
        ensures
            r.error@ == error@,
            r.file@ == file@,
            r.line == line,
    {
        Error { error, file, line }
    }

    /// The error in words.
    pub fn text(&self) -> (r: String)
        ensures
            r@ == "Failure: '"@ + self.error@ + "' at '"@ + self.file@ + ":"@ + dec(
                self.line as nat,
            ) + "'"@,
    {
        cat7(
            "Failure: '",
            self.error.as_str(),
            "' at '",
            self.file,
            ":",
            decimal(self.line as u64).as_str(),
            "'",
        )
    }
}

} // verus!
