//! The library's error taxonomy, mirroring how the worker reports failures
//! to its callers.
use vstd::prelude::*;
use vstd::string::*;

verus! {

/// Why a job-side operation failed.
#[derive(Debug)]
pub enum Error {
    /// A referenced variable or resource does not exist.
    NotFound(String),
    /// A malformed placeholder or unparsable input.
    InternalErr(String),
    /// A filesystem or spawn failure, carrying the OS error text.
    IoErr(String),
    /// Oversize logs or result, or a killed process.
    ExecutionErr(String),
    /// The child exited naturally with a nonzero code.
    ExitStatus(i32),
}

impl Error {
    /// The error's message text.
    pub open spec fn spec_message(self) -> Seq<char> {
        match self {
            Error::NotFound(s) => s@,
            Error::InternalErr(s) => s@,
            Error::IoErr(s) => s@,
            Error::ExecutionErr(s) => s@,
            Error::ExitStatus(c) => crate::text::int_rep(c as int),
        }
    }

    /// Returns the error's message text.
    pub fn message(&self) -> (r: String)
        ensures
            r@ == self.spec_message(),
    {
        match self {
            Error::NotFound(s) => s.clone(),
            Error::InternalErr(s) => s.clone(),
            Error::IoErr(s) => s.clone(),
            Error::ExecutionErr(s) => s.clone(),
            Error::ExitStatus(c) => crate::text::i64_to_string(*c as i64),
        }
    }
}

/// Whether an error's message shows that the executable itself was missing.
pub open spec fn shows_missing_executable(err: Error) -> bool {
    crate::text::contains_seq(err.spec_message(), "No such file or directory (os error 2)"@)
}

/// Rewrites a spawn error whose OS text shows a missing executable into a
/// clearer message naming the executable; other errors pass through.
pub fn tentatively_improve_error(err: Error, executable: &str) -> (r: Error)
    ensures
        shows_missing_executable(err) ==> r is InternalErr && r.spec_message() == "Executable "@.add(
            executable@,
        ).add(" not found on worker"@),
        !shows_missing_executable(err) ==> r == err,
{
    let msg = err.message();
    if crate::text::str_contains(msg.as_str(), "No such file or directory (os error 2)") {
        let mut m = String::from_str("Executable ");
        m.append(executable);
        m.append(" not found on worker");
        proof {
            assert(m@ =~= "Executable "@.add(executable@).add(" not found on worker"@));
        }
        Error::InternalErr(m)
    } else {
        err
    }
}

} // verus!
