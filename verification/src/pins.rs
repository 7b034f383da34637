//! Output pins that a board may or may not have wired to the panel.
use vstd::prelude::*;

verus! {

/// An output pin that may be absent.
pub trait OptionalOutput {
    /// Set the output pin to the specified value.
    fn set(&mut self, value: bool);

    /// Return whether the output pin is none.
    fn is_none(&self) -> bool;
}

/// The pin that is not there: setting it does nothing.
#[derive(Clone, Copy, Debug, PartialEq, Eq, Structural)]
pub struct NoPin {}

impl NoPin {
    pub fn new() -> (p: Self)
        ensures
            p == (NoPin {}),
    {
        Self {  }
    }
}

impl OptionalOutput for NoPin {
    fn set(&mut self, _value: bool)
        ensures
            *final(self) == *old(self),
    {
    }

    fn is_none(&self) -> (r: bool)
        ensures
            r,
    {
        true
    }
}

} // verus!
