//! Errors of fetching a quest.
use vstd::prelude::*;

use crate::stringutil::string_push_str;

verus! {

/// Errors while fetching a quest.
#[derive(Debug)]
pub enum FetchError {
    /// The URL's scheme cannot be fetched.
    UnsupportedScheme(String),
}

impl FetchError {
    /// Describes the error: `unsupported scheme` and the scheme.
    pub fn to_string(&self) -> (r: String)
        ensures
            r@ == match self {
                FetchError::UnsupportedScheme(s) => "unsupported scheme "@ + s@,
            },
    {
        match self {
            FetchError::UnsupportedScheme(scheme) => {
                let mut text = String::new();
                string_push_str(&mut text, "unsupported scheme ");
                string_push_str(&mut text, scheme.as_str());
                text
            },
        }
    }
}

} // verus!
