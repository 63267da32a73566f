use vstd::prelude::*;

verus! {

/// The one way term construction can fail.
#[derive(Debug)]
pub enum Error {
    /// The text is not an absolute URI; it carries the text as it was given.
    InvalidURIError(String),
}

impl Error {
    /// The text that was rejected.
    pub open spec fn rejected_text(self) -> Seq<char> {
        match self {
            Error::InvalidURIError(s) => s@,
        }
    }
}

impl PartialEq for Error {
    fn eq(&self, other: &Error) -> (r: bool)
        ensures
            r == (self.rejected_text() == other.rejected_text()),
    {
        match (self, other) {
            (Error::InvalidURIError(a), Error::InvalidURIError(b)) => *a == *b,
        }
    }
}

impl vstd::std_specs::cmp::PartialEqSpecImpl for Error {
    open spec fn obeys_eq_spec() -> bool {
        true
    }

    open spec fn eq_spec(&self, other: &Error) -> bool {
        self.rejected_text() == other.rejected_text()
    }
}

impl Eq for Error {
}

} // verus!
