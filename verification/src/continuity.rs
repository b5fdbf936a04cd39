//! Continuity counters: one four-bit counter for every packet identifier.
//!
//! A counter moves on by one, from 15 back to 0, with every packet of its
//! identifier that carries payload. The muxer sends no other packets, so for
//! it every packet counts.

use vstd::prelude::*;
use std::collections::HashMap;
use crate::wire::MAX_COUNTER;

verus! {

broadcast use vstd::std_specs::hash::group_hash_axioms;

/// The counter that follows `counter`.
pub open spec fn successor(counter: u8) -> u8 {
    ((counter + 1) % 16) as u8
}

/// The counter reached from `counter` after `steps` packets.
pub open spec fn advanced(counter: u8, steps: nat) -> u8 {
    ((counter + steps) % 16) as u8
}

/// The counters of one output stream. An identifier that has not been used
/// yet has the counter 0.
pub struct ContinuityState {
    counters: HashMap<u16, u8>,
}

impl ContinuityState {
    /// The counter that the next packet with identifier `pid` carries.
    pub closed spec fn current(&self, pid: u16) -> u8 {
        if self.counters@.contains_key(pid) {
            self.counters@[pid] % 16
        } else {
            0
        }
    }

    /// A state in which every counter is 0.
    pub fn new() -> (state: ContinuityState)
        ensures
            forall|pid: u16| state.current(pid) == 0,
    {
        ContinuityState { counters: HashMap::new() }
    }

    /// The counter that the next packet with identifier `pid` carries.
    pub fn peek(&self, pid: u16) -> (counter: u8)
        ensures
            counter == self.current(pid),
            counter <= MAX_COUNTER,
    {
        match self.counters.get(&pid) {
            Some(counter) => *counter % 16,
            None => 0,
        }
    }

    /// Sets the counter of `pid` to the low four bits of `counter`.
    pub fn set(&mut self, pid: u16, counter: u8)
        ensures
            final(self).current(pid) == counter % 16,
            forall|other: u16| other != pid ==> final(self).current(other) == old(self).current(other),
    {
        self.counters.insert(pid, counter % 16);
    }

    /// Hands out the counter for the next packet of `pid` and moves the
    /// counter on by one, from 15 back to 0.
    pub fn take(&mut self, pid: u16) -> (counter: u8)
        ensures
            counter == old(self).current(pid),
            counter <= MAX_COUNTER,
            final(self).current(pid) == successor(counter),
            forall|other: u16| other != pid ==> final(self).current(other) == old(self).current(other),
    {
        let counter = self.peek(pid);
        self.set(pid, (counter + 1) % 16);
        counter
    }
}

/// A counter never keeps its value from one packet to the next.
pub proof fn lemma_successor_differs(counter: u8)
    requires
        counter <= MAX_COUNTER,
    ensures
        successor(counter) != counter,
        successor(counter) <= MAX_COUNTER,
{
}

/// Counting on packet by packet is the same as counting on in one step.
pub proof fn lemma_advanced_step(counter: u8, steps: nat)
    ensures
        advanced(counter, 0) == counter % 16,
        advanced(counter, steps + 1) == successor(advanced(counter, steps)),
{
}

/// Counting on in two runs is the same as counting on in one.
pub proof fn lemma_advanced_twice(counter: u8, first: nat, second: nat)
    ensures
        advanced(advanced(counter, first), second) == advanced(counter, first + second),
{
    vstd::arithmetic::div_mod::lemma_add_mod_noop_right(second as int, counter + first, 16);
    assert((second + (counter + first) % 16) % 16 == (second + (counter + first)) % 16);
}

} // verus!
