//! The error type of the toolchain: a message that names the source line.

use vstd::prelude::*;
use crate::text::{dec_nat, push_char, push_dec_u128};

verus! {

/// An error, carrying its full message.
#[derive(Debug)]
pub enum Error {
    Custom(String),
}

impl View for Error {
    type V = Seq<char>;

    open spec fn view(&self) -> Seq<char> {
        match self {
            Error::Custom(s) => s@,
        }
    }
}

impl Error {
    /// The message of the error.
    pub fn message(&self) -> (s: String)
        ensures
            s@ == self@,
    {
        match self {
            Error::Custom(s) => s.clone(),
        }
    }
}

/// The message `"[<line>] <msg>"`.
pub open spec fn loc_msg(line: nat, msg: Seq<char>) -> Seq<char> {
    seq!['['] + dec_nat(line) + seq![']', ' '] + msg
}

/// Fails with the message `msg`, located at `line`.
pub fn loc_error<T>(line: usize, msg: &str) -> (res: Result<T, Error>)
    ensures
        res matches Err(e) && e@ == loc_msg(line as nat, msg@),
{
    let mut s = String::new();
    push_char(&mut s, '[');
    push_dec_u128(&mut s, line as u128);
    push_char(&mut s, ']');
    push_char(&mut s, ' ');
    s.append(msg);
    Err(Error::Custom(s))
}

} // verus!
