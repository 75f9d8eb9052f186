//! Messages from the simulation to whatever hosts it.

use vstd::prelude::*;
use std::collections::VecDeque;

verus! {

/// A request to the host.
#[derive(Clone, Copy, Debug, PartialEq, Eq, Structural)]
pub enum Signal {
    /// Make the scene with this index the active one.
    SetScene(usize),
}

/// Signals in waiting. The newest stands at the front; the host takes them
/// from the back, oldest first.
#[derive(Clone, Debug)]
pub struct SignalQueue {
    pub signals: VecDeque<Signal>,
}

impl View for SignalQueue {
    type V = Seq<Signal>;

    open spec fn view(&self) -> Seq<Signal> {
        self.signals@
    }
}

impl SignalQueue {
    pub fn new() -> (q: Self)
        ensures
            q@ == Seq::<Signal>::empty(),
    {
        SignalQueue { signals: VecDeque::new() }
    }

    /// Puts `sig` at the front.
    pub fn send(&mut self, sig: Signal)
        ensures
            final(self)@ == seq![sig] + old(self)@,
    {
        self.signals.push_front(sig);
    }

    /// Moves the signals of `other` behind those already here, in their
    /// order.
    pub fn append(&mut self, other: SignalQueue)
        ensures
            final(self)@ == old(self)@ + other@,
    {
        let mut other = other;
        self.signals.append(&mut other.signals);
    }
}

} // verus!
