//! Error type shared by every fallible operation of the plugin manager.
use vstd::prelude::*;

verus! {

/// Error code for a generic failure (wrong input, missing state, I/O).
pub const CODE_GENERIC: u64 = 1;
/// Error code for a failed external process (nonzero exit).
pub const CODE_PROCESS: u64 = 2;
/// Error code for a plugin or repository that could not be located.
pub const CODE_NOT_FOUND: u64 = 404;

/// Specific repository error.
#[derive(Debug)]
pub struct CoffeeError {
    pub code: u64,
    pub msg: String,
}

impl Clone for CoffeeError {
    fn clone(&self) -> (r: Self)
        ensures
            r.code == self.code,
            r.msg@ == self.msg@,
    {
        CoffeeError { code: self.code, msg: self.msg.clone() }
    }
}

impl CoffeeError {
    /// Build a new error message with a specific code
    /// and a specific message.
    pub fn new(code: u64, msg: &str) -> (r: Self)
        ensures
            r.code == code,
            r.msg@ == msg@,
    {
        CoffeeError { code, msg: msg.to_owned() }
    }

    /// The numeric code of this error.
    pub fn code(&self) -> (r: u64)
        ensures
            r == self.code,
    {
        self.code
    }

    /// The human readable cause of this error.
    pub fn message(&self) -> (r: String)
        ensures
            r@ == self.msg@,
    {
        self.msg.clone()
    }
}

} // verus!
