//! The change-callback interface and a ready-made callback that logs the
//! values it receives.
//!
//! A callback's externally visible effect is modelled by the sequence of
//! values it has observed: firing a callback appends the value passed to
//! it, and nothing else a reactor does may touch that sequence.
use vstd::prelude::*;

verus! {

/// A user-supplied change callback for one compute cell.
///
/// `observed` is the sequence of values the callback has received so far,
/// oldest first; `call` appends exactly the value it is given.
pub trait Callback<T>: Sized {
    /// The values this callback has received so far, oldest first.
    spec fn observed(&self) -> Seq<T>;

    /// Receives one changed value.
    fn call(&mut self, value: T)
        ensures
            final(self).observed() == old(self).observed().push(value),
    ;
}

/// A callback that records every value it receives.
pub struct ValueLog<T> {
    pub values: Vec<T>,
}

impl<T> ValueLog<T> {
    /// A log that has received nothing yet.
    pub fn new() -> (r: ValueLog<T>)
        ensures
            r.observed() == Seq::<T>::empty(),
    {
        ValueLog { values: Vec::new() }
    }

    /// The values received so far, oldest first.
    pub fn values(&self) -> (r: &Vec<T>)
        ensures
            r@ == self.observed(),
    {
        &self.values
    }
}

impl<T> Callback<T> for ValueLog<T> {
    open spec fn observed(&self) -> Seq<T> {
        self.values@
    }

    fn call(&mut self, value: T) {
        self.values.push(value);
    }
}

} // verus!
