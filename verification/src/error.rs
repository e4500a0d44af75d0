use vstd::prelude::*;
use vstd::string::StringExecFns;

verus! {

/// What can go wrong when a host is asked to select a device or to start.
#[derive(Debug, PartialEq, Eq)]
pub enum Error {
    /// No API or device matched the requested name.
    NotFound,
    /// The configuration cannot be used; the text says why.
    InvalidConfig(&'static str),
    /// The driver reported an error; the text is its description.
    Backend(String),
}

impl Error {
    /// The text that describes the error.
    pub open spec fn message_spec(&self) -> Seq<char> {
        match self {
            Error::NotFound => "Device or API not found"@,
            Error::InvalidConfig(why) => "Invalid config: "@ + why@,
            Error::Backend(what) => "Backend error: "@ + what@,
        }
    }

    /// The text that describes the error.
    pub fn message(&self) -> (m: String)
        ensures
            m@ == self.message_spec(),
            self matches Error::NotFound ==> m@ == "Device or API not found"@,
            self matches Error::InvalidConfig(why) ==> m@ == "Invalid config: "@ + why@,
            self matches Error::Backend(what) ==> m@ == "Backend error: "@ + what@,
    {
        match self {
            Error::NotFound => String::from_str("Device or API not found"),
            Error::InvalidConfig(why) => String::from_str("Invalid config: ").concat(why),
            Error::Backend(what) => String::from_str("Backend error: ").concat(what.as_str()),
        }
    }
}

} // verus!
