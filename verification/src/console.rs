//! Console lines the editor prints: plain notes and errors.

use vstd::prelude::*;

verus! {

/// One line of editor console output.
pub enum Ptype {
    /// An informational message.
    Nfo(String),
    /// An error message.
    Fault(String),
}

impl Ptype {
    /// The message text.
    pub open spec fn spec_text(&self) -> Seq<char> {
        match self {
            Ptype::Nfo(s) => s@,
            Ptype::Fault(s) => s@,
        }
    }

    /// Whether the line reports an error.
    pub fn is_err(&self) -> (r: bool)
        ensures
            r == (self is Fault),
    {
        match self {
            Ptype::Fault(_) => true,
            Ptype::Nfo(_) => false,
        }
    }

    /// The message text.
    pub fn text(&self) -> (r: &str)
        ensures
            r@ == self.spec_text(),
    {
        match self {
            Ptype::Nfo(s) => s.as_str(),
            Ptype::Fault(s) => s.as_str(),
        }
    }
}

impl Clone for Ptype {
    fn clone(&self) -> (r: Self)
        ensures
            r == *self,
    {
        match self {
            Ptype::Nfo(s) => Ptype::Nfo(s.clone()),
            Ptype::Fault(s) => Ptype::Fault(s.clone()),
        }
    }
}

} // verus!
