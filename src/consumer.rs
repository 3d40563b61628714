//! The feed consumer: tracks the next expected sequence number, declares the
//! expected one lost on any other arrival, and reads recovery responses.

use vstd::prelude::*;
use crate::wire::{
    next_sequence, not_found, not_found_text, parse_feed, parse_feed_message, same_bytes, successor,
};

verus! {

/// What the consumer does with one broadcast arrival.
#[derive(PartialEq, Eq, Structural, Debug, Clone, Copy)]
pub enum ConsumerAction {
    /// The datagram is no feed message; nothing changes.
    Skip,
    /// The arrival is the expected one.
    Accept,
    /// The arrival is another one: the expected sequence is lost, and exactly
    /// one recovery request goes out for it.
    Recover(u32),
}

/// One step of the consumer: the expected sequence after an arrival, and what
/// is done about it. Whatever came, the consumer resynchronises to the arrival.
pub open spec fn consumer_step(expected: u32, sequence: u32) -> (u32, ConsumerAction) {
    (successor(sequence), if sequence == expected {
        ConsumerAction::Accept
    } else {
        ConsumerAction::Recover(expected)
    })
}

/// The expected sequence after a run of arrivals, from `expected`.
pub open spec fn expected_after(expected: u32, arrivals: Seq<u32>) -> u32
    decreases arrivals.len(),
{
    if arrivals.len() == 0 {
        expected
    } else {
        consumer_step(expected_after(expected, arrivals.drop_last()), arrivals.last()).0
    }
}

/// The recovery requests that a run of arrivals gives rise to, in order.
pub open spec fn requests_after(expected: u32, arrivals: Seq<u32>) -> Seq<u32>
    decreases arrivals.len(),
{
    if arrivals.len() == 0 {
        Seq::empty()
    } else {
        let before = requests_after(expected, arrivals.drop_last());
        match consumer_step(expected_after(expected, arrivals.drop_last()), arrivals.last()).1 {
            ConsumerAction::Recover(s) => before.push(s),
            _ => before,
        }
    }
}

pub struct FeedConsumer {
    expected_sequence: u32,
}

impl FeedConsumer {
    /// One plus the highest sequence accounted for so far.
    pub closed spec fn expected(&self) -> u32 {
        self.expected_sequence
    }

    pub fn new() -> (r: Self)
        ensures
            r.expected() == 1,
    {
        FeedConsumer { expected_sequence: 1 }
    }

    pub fn expected_sequence(&self) -> (r: u32)
        ensures
            r == self.expected(),
    {
        self.expected_sequence
    }

    /// Takes in the arrival of `sequence`.
    pub fn on_arrival(&mut self, sequence: u32) -> (r: ConsumerAction)
        ensures
            (final(self).expected(), r) == consumer_step(old(self).expected(), sequence),
    {
        let expected = self.expected_sequence;
        self.expected_sequence = next_sequence(sequence);
        if sequence == expected {
            ConsumerAction::Accept
        } else {
            ConsumerAction::Recover(expected)
        }
    }

    /// Takes in one broadcast datagram. One that is no feed message is
    /// skipped and changes nothing.
    pub fn on_message(&mut self, data: &[u8]) -> (r: ConsumerAction)
        ensures
            match parse_feed(data@) {
                Some(sequence) => (final(self).expected(), r) == consumer_step(
                    old(self).expected(),
                    sequence,
                ),
                None => r == ConsumerAction::Skip && final(self).expected() == old(self).expected(),
            },
    {
        match parse_feed_message(data) {
            Some(sequence) => self.on_arrival(sequence),
            None => ConsumerAction::Skip,
        }
    }

    /// Takes in a run of arrivals in order, and returns the sequence numbers
    /// for which recovery requests go out.
    pub fn process_arrivals(&mut self, arrivals: &[u32]) -> (r: Vec<u32>)
        ensures
            final(self).expected() == expected_after(old(self).expected(), arrivals@),
            r@ == requests_after(old(self).expected(), arrivals@),
    {
        let ghost start = self.expected();
        let mut requests: Vec<u32> = Vec::new();
        let mut i: usize = 0;
        while i < arrivals.len()
            invariant
                i <= arrivals@.len(),
                self.expected() == expected_after(start, arrivals@.subrange(0, i as int)),
                requests@ == requests_after(start, arrivals@.subrange(0, i as int)),
            decreases arrivals.len() - i,
        {
            let ghost done = arrivals@.subrange(0, i as int);
            let action = self.on_arrival(arrivals[i]);
            if let ConsumerAction::Recover(s) = action {
                requests.push(s);
            }
            i = i + 1;
            assert(arrivals@.subrange(0, i as int).drop_last() =~= done);
        }
        assert(arrivals@.subrange(0, i as int) =~= arrivals@);
        requests
    }
}

/// How a recovery round trip ended, as the consumer reports it.
#[derive(Debug)]
pub enum RecoveryOutcome {
    /// The service sent this payload.
    Recovered(Vec<u8>),
    /// The service does not hold the sequence.
    NotFound,
    /// The service closed the connection without an answer.
    NoData,
    /// The recovery endpoint could not be reached or read.
    Failed,
}

/// A `RecoveryOutcome` with its payload as a sequence.
pub enum Outcome {
    Recovered(Seq<u8>),
    NotFound,
    NoData,
    Failed,
}

impl View for RecoveryOutcome {
    type V = Outcome;

    open spec fn view(&self) -> Outcome {
        match self {
            RecoveryOutcome::Recovered(p) => Outcome::Recovered(p@),
            RecoveryOutcome::NotFound => Outcome::NotFound,
            RecoveryOutcome::NoData => Outcome::NoData,
            RecoveryOutcome::Failed => Outcome::Failed,
        }
    }
}

/// What a response that was read in full means: nothing, `Not found`, or a
/// payload.
pub open spec fn outcome_of(response: Seq<u8>) -> Outcome {
    if response.len() == 0 {
        Outcome::NoData
    } else if response == not_found_text() {
        Outcome::NotFound
    } else {
        Outcome::Recovered(response)
    }
}

/// Reads a recovery response.
pub fn classify_response(response: &[u8]) -> (r: RecoveryOutcome)
    ensures
        r@ == outcome_of(response@),
{
    if response.len() == 0 {
        return RecoveryOutcome::NoData;
    }
    let nf = not_found();
    if same_bytes(response, nf.as_slice()) {
        RecoveryOutcome::NotFound
    } else {
        let mut payload: Vec<u8> = Vec::new();
        let mut i: usize = 0;
        while i < response.len()
            invariant
                i <= response@.len(),
                payload@ == response@.subrange(0, i as int),
            decreases response.len() - i,
        {
            payload.push(response[i]);
            i = i + 1;
            assert(payload@ =~= response@.subrange(0, i as int));
        }
        assert(payload@ =~= response@);
        RecoveryOutcome::Recovered(payload)
    }
}

} // verus!
