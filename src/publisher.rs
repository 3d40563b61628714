//! The feed publisher: numbers each update and withholds every n-th one.

use vstd::prelude::*;
use crate::wire::{feed_message, format_feed_message, next_sequence, successor};

verus! {

/// The publisher withholds every sequence number divisible by this.
pub const DROP_MODULUS: u32 = 5;

/// Whether the publisher withholds `sequence`: a function of the number alone.
pub open spec fn is_withheld(sequence: u32, modulus: u32) -> bool {
    sequence % modulus == 0
}

/// What the publisher does with one sequence number.
#[derive(Debug)]
pub enum Emission {
    /// Broadcast `message`, the feed message for `sequence`.
    Send { sequence: u32, message: Vec<u8> },
    /// Withhold `sequence`: nothing is broadcast for it.
    Withhold { sequence: u32 },
}

pub struct FeedPublisher {
    next: u32,
    modulus: u32,
}

impl FeedPublisher {
    /// The sequence number that the next emission carries.
    pub closed spec fn next_spec(&self) -> u32 {
        self.next
    }

    /// Every sequence number divisible by this is withheld.
    pub closed spec fn modulus_spec(&self) -> u32 {
        self.modulus
    }

    pub open spec fn wf(&self) -> bool {
        self.modulus_spec() > 0
    }

    /// A publisher that starts at sequence 1 and withholds every fifth.
    pub fn new() -> (r: Self)
        ensures
            r.wf(),
            r.next_spec() == 1,
            r.modulus_spec() == DROP_MODULUS,
    {
        FeedPublisher { next: 1, modulus: DROP_MODULUS }
    }

    /// A publisher that starts at sequence 1 and withholds every sequence
    /// number divisible by `modulus`.
    pub fn with_drop_modulus(modulus: u32) -> (r: Self)
        requires
            modulus > 0,
        ensures
            r.wf(),
            r.next_spec() == 1,
            r.modulus_spec() == modulus,
    {
        FeedPublisher { next: 1, modulus }
    }

    pub fn next_sequence(&self) -> (r: u32)
        ensures
            r == self.next_spec(),
    {
        self.next
    }

    pub fn drop_modulus(&self) -> (r: u32)
        ensures
            r == self.modulus_spec(),
    {
        self.modulus
    }

    /// Takes the next sequence number and decides its fate: the feed message
    /// to broadcast, or withholding it.
    pub fn next_emission(&mut self) -> (r: Emission)
        requires
            old(self).wf(),
        ensures
            final(self).wf(),
            final(self).modulus_spec() == old(self).modulus_spec(),
            final(self).next_spec() == successor(old(self).next_spec()),
            match r {
                Emission::Send { sequence, message } => {
                    &&& sequence == old(self).next_spec()
                    &&& !is_withheld(sequence, old(self).modulus_spec())
                    &&& message@ == feed_message(sequence)
                },
                Emission::Withhold { sequence } => {
                    &&& sequence == old(self).next_spec()
                    &&& is_withheld(sequence, old(self).modulus_spec())
                },
            },
    {
        let sequence = self.next;
        self.next = next_sequence(sequence);
        if sequence % self.modulus == 0 {
            Emission::Withhold { sequence }
        } else {
            Emission::Send { sequence, message: format_feed_message(sequence) }
        }
    }
}

} // verus!
