//! The top-level error of the server binary.

use vstd::prelude::*;

verus! {

/// An error surfaced by the server's entry point.
#[derive(Debug)]
pub enum AnyError {
    NotYetImplemented(&'static str),
}

impl AnyError {
    /// The error as text.
    pub fn message(&self) -> (r: String)
        ensures
            match *self {
                AnyError::NotYetImplemented(m) => r@ == "Not yet implemented: "@ + m@,
            },
    {
        match self {
            AnyError::NotYetImplemented(m) => {
                let mut r = "Not yet implemented: ".to_owned();
                r.append(m);
                r
            },
        }
    }
}

} // verus!
