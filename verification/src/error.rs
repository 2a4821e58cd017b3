//! Process exit statuses and the error text shown to the user.  The
//! dialog that displays the text, and the exit itself, belong to the
//! surrounding program.

use vstd::prelude::*;
use vstd::string::*;

verus! {

/// Outcome the daemon reports when it ends.
pub enum ExitStatus {
    /// Clean shutdown.
    Success,
    /// Shutdown after an unrecoverable error.
    Failure,
}

impl ExitStatus {
    /// The process exit code of this outcome.
    pub open spec fn spec_code(&self) -> int {
        match self {
            ExitStatus::Success => 0,
            ExitStatus::Failure => 1,
        }
    }

    /// Exit code: 0 on success, 1 on failure.
    pub fn code(&self) -> (r: i32)
        ensures
            r == self.spec_code(),
    {
        match self {
            ExitStatus::Success => 0,
            ExitStatus::Failure => 1,
        }
    }
}

/// Outcome the overlay reports when it ends.
pub enum ErrorStatus {
    /// Shutdown after an unrecoverable error.
    FAILURE,
    /// Clean shutdown.
    SUCCESS,
}

impl ErrorStatus {
    /// The process exit code of this outcome.
    pub open spec fn spec_code(&self) -> int {
        match self {
            ErrorStatus::FAILURE => 1,
            ErrorStatus::SUCCESS => 0,
        }
    }

    /// Exit code: 1 on failure, 0 on success.
    pub fn code(&self) -> (r: i32)
        ensures
            r == self.spec_code(),
    {
        match self {
            ErrorStatus::FAILURE => 1,
            ErrorStatus::SUCCESS => 0,
        }
    }
}

/// The message shown when a named worker thread fails, for the given
/// error text.
pub open spec fn spec_error_message(thread_name: Seq<char>, error_text: Seq<char>) -> Seq<char> {
    "An error occured while running the "@ + thread_name + " thread\n\n"@ + error_text
}

/// Composes the error message for a failed worker thread; showing it is
/// the caller's business.
pub fn display_error(thread_name: &str, error_text: &str) -> (r: String)
    ensures
        r@ == spec_error_message(thread_name@, error_text@),
{
    let mut s = "An error occured while running the ".to_owned();
    s.append(thread_name);
    s.append(" thread\n\n");
    s.append(error_text);
    proof {
        assert(s@ =~= spec_error_message(thread_name@, error_text@));
    }
    s
}

} // verus!
