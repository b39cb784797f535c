use vstd::prelude::*;

verus! {

/// A win/loss tally.
#[derive(Clone, Copy, Debug)]
pub struct Results {
    pub win: u32,
    pub lose: u32,
}

impl Default for Results {
    fn default() -> (r: Self)
        ensures
            r.win == 0,
            r.lose == 0,
    {
        Results { win: 0, lose: 0 }
    }
}

impl Results {
    /// The empty tally.
    pub fn new() -> (r: Self)
        ensures
            r.win == 0,
            r.lose == 0,
    {
        Results { win: 0, lose: 0 }
    }

    /// Clears both counters.
    pub fn reset(&mut self)
        ensures
            final(self).win == 0,
            final(self).lose == 0,
    {
        self.win = 0;
        self.lose = 0;
    }

    /// Number of decided games.
    pub fn games(&self) -> (n: u32)
        requires
            self.win + self.lose <= u32::MAX,
        ensures
            n == self.win + self.lose,
    {
        self.win + self.lose
    }
}

} // verus!
