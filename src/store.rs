//! The recovery store and the service's answer to one recovery request.

use std::collections::HashMap;
use vstd::prelude::*;
use crate::wire::{not_found, not_found_text, parse_recovery_request, parse_request};

verus! {

broadcast use vstd::std_specs::hash::group_hash_axioms;

/// What the recovery service answers to a request: the stored payload for the
/// sequence that a well-formed request names, and `Not found` for a sequence
/// that the store lacks or a request that names none.
pub open spec fn response_for(records: Map<u32, Seq<u8>>, request: Seq<u8>) -> Seq<u8> {
    match parse_request(request) {
        Some(sequence) => if records.contains_key(sequence) {
            records[sequence]
        } else {
            not_found_text()
        },
        None => not_found_text(),
    }
}

/// Payloads by sequence number.
pub struct RecoveryStore {
    records: HashMap<u32, Vec<u8>>,
}

impl View for RecoveryStore {
    type V = Map<u32, Seq<u8>>;

    closed spec fn view(&self) -> Map<u32, Seq<u8>> {
        self.records@.map_values(|p: Vec<u8>| p@)
    }
}

impl RecoveryStore {
    pub fn new() -> (r: Self)
        ensures
            r@ == Map::<u32, Seq<u8>>::empty(),
    {
        let r = RecoveryStore { records: HashMap::new() };
        assert(r@ =~= Map::<u32, Seq<u8>>::empty());
        r
    }

    /// Stores `payload` for `sequence`, in place of what was there.
    pub fn insert(&mut self, sequence: u32, payload: Vec<u8>)
        ensures
            final(self)@ == old(self)@.insert(sequence, payload@),
    {
        let ghost p = payload@;
        self.records.insert(sequence, payload);
        assert(final(self)@ =~= old(self)@.insert(sequence, p));
    }

    /// The payload stored for `sequence`; `None` where there is none, which is
    /// an ordinary outcome and no error.
    pub fn lookup(&self, sequence: u32) -> (r: Option<Vec<u8>>)
        ensures
            r matches Some(p) ==> self@.contains_key(sequence) && p@ == self@[sequence],
            r is None ==> !self@.contains_key(sequence),
    {
        match self.records.get(&sequence) {
            Some(p) => {
                let c = p.clone();
                assert(c@ =~= p@);
                Some(c)
            },
            None => None,
        }
    }

    /// The answer to one recovery request, from exactly one lookup. A request
    /// that cannot be read is answered like one for a missing sequence.
    pub fn answer(&self, request: &[u8]) -> (r: Vec<u8>)
        ensures
            r@ == response_for(self@, request@),
    {
        match parse_recovery_request(request) {
            Some(sequence) => match self.lookup(sequence) {
                Some(p) => p,
                None => not_found(),
            },
            None => not_found(),
        }
    }
}

} // verus!
