use vstd::prelude::*;

verus! {

/// Declaration of `std::io::Error` so that it can be carried inside the
/// library's own error type. The value is opaque to the library; it is
/// produced by devices and handed back to callers unchanged.
#[verifier::external_type_specification]
#[verifier::external_body]
pub struct ExIoError(std::io::Error);

/// A failed interface operation's error information.
#[derive(Debug)]
pub enum Error {
    /// A low-level terminal interaction error.
    Terminal(std::io::Error),
    /// A segment lookup named an identifier that is not present.
    SegmentIdInvalid,
    /// A segment index lay outside its line's bounds.
    SegmentOutOfBounds,
}

impl From<std::io::Error> for Error {
    /// Wrap a low-level I/O error.
    fn from(err: std::io::Error) -> (r: Self)
        ensures
            r == Error::Terminal(err),
    {
        Error::Terminal(err)
    }
}

impl vstd::std_specs::convert::FromSpecImpl<std::io::Error> for Error {
    open spec fn obeys_from_spec() -> bool {
        true
    }

    open spec fn from_spec(err: std::io::Error) -> Self {
        Error::Terminal(err)
    }
}

} // verus!
