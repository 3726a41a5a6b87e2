//! What can go wrong when a screen starts.

use crate::text::{decimal, push_decimal};
use vstd::prelude::*;
use vstd::string::*;

verus! {

/// Why a screen could not start.
#[derive(Debug, PartialEq, Eq, Structural, Clone, Copy)]
pub enum ScreenError {
    TcpListenerError(usize),
}

impl ScreenError {
    /// The error as a sentence.
    pub open spec fn spec_to_string(self) -> Seq<char> {
        match self {
            ScreenError::TcpListenerError(id) => "Screen "@ + decimal(id as nat)
                + ": Couldn't initialize listener"@,
        }
    }

    /// The error as a sentence.
    pub fn to_string(&self) -> (text: String)
        ensures
            text@ == self.spec_to_string(),
    {
        match self {
            ScreenError::TcpListenerError(id) => {
                let mut text = String::from_str("Screen ");
                push_decimal(&mut text, *id as u64);
                text.append(": Couldn't initialize listener");
                text
            },
        }
    }
}

} // verus!
