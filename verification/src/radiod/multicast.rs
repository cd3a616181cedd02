//! Errors of the multicast sockets.

use vstd::prelude::*;

verus! {

/// Why a multicast socket cannot be set up. The error of the operating system is held as its text.
#[derive(Debug)]
pub enum McastError {
    Socket(String),
}

impl McastError {
    /// What the error says.
    pub open spec fn text(&self) -> Seq<char> {
        match *self {
            McastError::Socket(s) => "socket setup: "@ + s@,
        }
    }

    /// What the error says.
    pub fn message(&self) -> (r: String)
        ensures
            r@ == self.text(),
    {
        match self {
            McastError::Socket(text) => {
                let mut s = "socket setup: ".to_owned();
                s.append(text.as_str());
                s
            },
        }
    }
}

/// What an error says names what was met.
pub proof fn law_error_text(s: String)
    ensures
        McastError::Socket(s).text() == "socket setup: "@ + s@,
{
}

} // verus!
