//! The error type of the tunnel.
use vstd::prelude::*;
use vstd::string::StringExecFns;

verus! {

/// What can go wrong in the tunnel.
#[derive(Debug)]
pub enum TiTunError {
    /// An input or output operation failed; the text is the system's.
    IoErr(String),
    /// Anything else, in words.
    OtherErr(String),
    /// The tunnel was asked to stop.
    GracefulExit,
}

impl TiTunError {
    /// What `message` returns.
    pub open spec fn spec_message(&self) -> Seq<char> {
        match *self {
            TiTunError::IoErr(e) => "IO Error: "@ + e@,
            TiTunError::OtherErr(e) => e@,
            TiTunError::GracefulExit => "GracefulExit"@,
        }
    }

    /// The error in words, as it is shown to the user.
    pub fn message(&self) -> (r: String)
        ensures
            r@ == self.spec_message(),
    {
        match self {
            TiTunError::IoErr(e) => String::from_str("IO Error: ").concat(e.as_str()),
            TiTunError::OtherErr(e) => e.clone(),
            TiTunError::GracefulExit => String::from_str("GracefulExit"),
        }
    }

    /// What `description` returns.
    pub open spec fn spec_description(&self) -> Seq<char> {
        match *self {
            TiTunError::IoErr(e) => e@,
            TiTunError::OtherErr(e) => e@,
            TiTunError::GracefulExit => "GracefulExit"@,
        }
    }

    /// A short description of the error.
    pub fn description(&self) -> (r: String)
        ensures
            r@ == self.spec_description(),
    {
        match self {
            TiTunError::IoErr(e) => e.clone(),
            TiTunError::OtherErr(e) => e.clone(),
            TiTunError::GracefulExit => String::from_str("GracefulExit"),
        }
    }

    /// An error that is said in words.
    pub fn other(e: &str) -> (r: TiTunError)
        ensures
            r matches TiTunError::OtherErr(s) && s@ == e@,
    {
        TiTunError::OtherErr(String::from_str(e))
    }
}

impl From<String> for TiTunError {
    fn from(e: String) -> (r: TiTunError) {
        TiTunError::OtherErr(e)
    }
}

impl vstd::std_specs::convert::FromSpecImpl<String> for TiTunError {
    open spec fn obeys_from_spec() -> bool {
        true
    }

    open spec fn from_spec(e: String) -> TiTunError {
        TiTunError::OtherErr(e)
    }
}

} // verus!
