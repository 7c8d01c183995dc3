use vstd::prelude::*;

verus! {

/// A status code cell: written by whoever finishes the interactive flow,
/// read by whoever decides what happens next.
#[derive(Debug)]
pub struct Signal {
    code: usize,
}

impl View for Signal {
    type V = nat;

    closed spec fn view(&self) -> nat {
        self.code as nat
    }
}

impl Signal {
    /// A fresh signal holds code 0.
    pub fn new() -> (s: Self)
        ensures
            s@ == 0,
    {
        Signal { code: 0 }
    }

    /// Overwrites the stored code.
    pub fn set(&mut self, code: usize)
        ensures
            final(self)@ == code as nat,
    {
        self.code = code;
    }

    /// Reads the stored code.
    pub fn get(&self) -> (code: usize)
        ensures
            code as nat == self@,
    {
        self.code
    }
}

impl Default for Signal {
    fn default() -> (s: Self)
        ensures
            s@ == 0,
    {
        Signal::new()
    }
}

} // verus!
