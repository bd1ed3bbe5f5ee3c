use vstd::prelude::*;
use vstd::string::StringExecFns;

use crate::catalog::StoreError;
use crate::images::{image_error_text, ImageError};

verus! {

/// An error as reported to a caller: a line of text.
#[derive(Debug, PartialEq, Eq)]
pub struct CommandError(pub String);

/// The text that reports a store error.
pub open spec fn store_error_text(e: StoreError) -> Seq<char> {
    match e {
        StoreError::Validation => "invalid game: a required field is empty or a number is out of range"@,
        StoreError::NotFound => "Query returned no rows"@,
        StoreError::Full => "database or disk is full"@,
        StoreError::Conflict => "a game with this id already exists"@,
    }
}

impl CommandError {
    /// Reports a store error.
    pub fn from_store(e: StoreError) -> (r: CommandError)
        ensures
            r.0@ == store_error_text(e),
    {
        proof {
            reveal_strlit("invalid game: a required field is empty or a number is out of range");
            reveal_strlit("Query returned no rows");
            reveal_strlit("database or disk is full");
            reveal_strlit("a game with this id already exists");
        }
        match e {
            StoreError::Validation => CommandError(
                String::from_str("invalid game: a required field is empty or a number is out of range"),
            ),
            StoreError::NotFound => CommandError(String::from_str("Query returned no rows")),
            StoreError::Full => CommandError(String::from_str("database or disk is full")),
            StoreError::Conflict => CommandError(String::from_str("a game with this id already exists")),
        }
    }

    /// Reports an image error.
    pub fn from_image(e: &ImageError) -> (r: CommandError)
        ensures
            r.0@ == image_error_text(*e),
    {
        CommandError(e.message())
    }

    /// The text of the error.
    pub fn message(&self) -> (r: &str)
        ensures
            r@ == self.0@,
    {
        self.0.as_str()
    }
}

} // verus!
