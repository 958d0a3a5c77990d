use vstd::prelude::*;

verus! {

/// Why a lookup failed.
#[derive(Debug)]
pub enum MtuError {
    /// The local interface or its MTU could not be determined: the answer
    /// was malformed, did not match, or lacked a required attribute.
    NotFound,
    /// An error code that the operating system reported (an `errno` value).
    Os(i32),
    /// A read of the socket returned no data, though every query is answered.
    NoData,
    /// An interface name that is not valid UTF-8.
    InvalidName,
    /// A condition that the library's own size invariants rule out.
    Unlikely(String),
}

impl MtuError {
    /// The message that goes with this error.
    pub fn message(&self) -> (r: String)
        ensures
            self is NotFound ==> r@ == "Local interface MTU not found"@,
            self is Os ==> r@ == "operating system error"@,
            self is NoData ==> r@ == "socket returned no data"@,
            self is InvalidName ==> r@ == "interface name is not valid UTF-8"@,
            self is Unlikely ==> r@ == self->Unlikely_0@,
    {
        broadcast use vstd::string::to_string_from_display_ensures_for_str;

        match self {
            MtuError::NotFound => "Local interface MTU not found".to_string(),
            MtuError::Os(_) => "operating system error".to_string(),
            MtuError::NoData => "socket returned no data".to_string(),
            MtuError::InvalidName => "interface name is not valid UTF-8".to_string(),
            MtuError::Unlikely(msg) => msg.clone(),
        }
    }
}

/// The generic error of a failed lookup.
pub fn default_err() -> (r: MtuError)
    ensures
        r is NotFound,
{
    MtuError::NotFound
}

/// The error for a condition that "should never happen".
pub fn unlikely_err(msg: String) -> (r: MtuError)
    ensures
        r == MtuError::Unlikely(msg),
{
    MtuError::Unlikely(msg)
}

} // verus!
