use vstd::prelude::*;

use crate::text::{blank, is_blank};

verus! {

/// A request refused before any work is done.
#[derive(Clone, Copy, Debug, PartialEq, Eq, Structural)]
pub enum RequestError {
    EmptyText,
}

/// Admits a text for classification: one that is empty or all white space is
/// refused before the embedding provider is asked.
pub fn validate_text(text: &str) -> (r: Result<(), RequestError>)
    ensures
        r == (if blank(text@) {
            Err::<(), RequestError>(RequestError::EmptyText)
        } else {
            Ok::<(), RequestError>(())
        }),
{
    if is_blank(text) {
        Err(RequestError::EmptyText)
    } else {
        Ok(())
    }
}

} // verus!
