//! A record that holds one value per species.
use vstd::prelude::*;

verus! {

/// One value for each of the two species: `red` and `blue`.
#[derive(Debug, Clone, Copy)]
pub struct Species<T> {
    pub red: T,
    pub blue: T,
}

impl<T> Species<T> {
    pub fn new(red: T, blue: T) -> (r: Species<T>)
        ensures
            r.red == red,
            r.blue == blue,
    {
        Species { red, blue }
    }

    pub fn set_red(&mut self, amount: T)
        ensures
            final(self).red == amount,
            final(self).blue == old(self).blue,
    {
        self.red = amount;
    }

    pub fn set_blue(&mut self, amount: T)
        ensures
            final(self).blue == amount,
            final(self).red == old(self).red,
    {
        self.blue = amount;
    }
}

impl Species<u32> {
    pub fn add_blue(&mut self, amount: u32)
        requires
            old(self).blue + amount <= u32::MAX,
        ensures
            final(self).blue == old(self).blue + amount,
            final(self).red == old(self).red,
    {
        self.blue = self.blue + amount;
    }

    pub fn add_red(&mut self, amount: u32)
        requires
            old(self).red + amount <= u32::MAX,
        ensures
            final(self).red == old(self).red + amount,
            final(self).blue == old(self).blue,
    {
        self.red = self.red + amount;
    }

    /// Scales both values by `amount`.
    pub fn mult_all(&mut self, amount: u32)
        requires
            old(self).red * amount <= u32::MAX,
            old(self).blue * amount <= u32::MAX,
        ensures
            final(self).red == old(self).red * amount,
            final(self).blue == old(self).blue * amount,
    {
        self.red = self.red * amount;
        self.blue = self.blue * amount;
    }
}

} // verus!
