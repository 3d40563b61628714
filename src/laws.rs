//! What holds of the protocol as a whole: of runs of arrivals at the consumer,
//! and of the round trip from a lost sequence to the consumer's outcome.

use vstd::prelude::*;
use crate::consumer::{expected_after, outcome_of, requests_after, Outcome};
use crate::store::response_for;
use crate::wire::{lemma_request_round_trip, not_found_text, request_message, successor};

verus! {

pub open spec fn strictly_increasing(s: Seq<u32>) -> bool {
    forall|i: int, j: int| 0 <= i < j < s.len() ==> s[i] < s[j]
}

/// After any non-empty run of arrivals, whichever were lost on the way, the
/// consumer expects the sequence after the last arrival.
pub proof fn lemma_expected_follows_last_arrival(expected: u32, arrivals: Seq<u32>)
    requires
        arrivals.len() > 0,
    ensures
        expected_after(expected, arrivals) == successor(arrivals.last()),
{
}

/// On a strictly increasing run of arrivals that starts no lower than the
/// expected sequence, the requests are strictly increasing too (no sequence
/// is asked for twice), none is below the starting expectation, each lies
/// below the last arrival, and none names a sequence that arrived.
pub proof fn lemma_requests_increase(expected: u32, arrivals: Seq<u32>)
    requires
        strictly_increasing(arrivals),
        arrivals.len() > 0 ==> expected <= arrivals[0],
    ensures
        strictly_increasing(requests_after(expected, arrivals)),
        forall|i: int|
            0 <= i < requests_after(expected, arrivals).len() ==> expected <= #[trigger] requests_after(
                expected,
                arrivals,
            )[i],
        arrivals.len() > 0 ==> forall|i: int|
            0 <= i < requests_after(expected, arrivals).len() ==> #[trigger] requests_after(
                expected,
                arrivals,
            )[i] < arrivals.last(),
        forall|i: int|
            0 <= i < requests_after(expected, arrivals).len() ==> !arrivals.contains(
                #[trigger] requests_after(expected, arrivals)[i],
            ),
    decreases arrivals.len(),
{
    if arrivals.len() > 0 {
        let before = arrivals.drop_last();
        lemma_requests_increase(expected, before);
        let x = arrivals.last();
        let e = expected_after(expected, before);
        if before.len() > 0 {
            assert(before.last() == arrivals[arrivals.len() - 2]);
            assert(before.last() < x);
            assert(e == before.last() + 1);
        }
        let rs = requests_after(expected, arrivals);
        let rb = requests_after(expected, before);
        assert forall|i: int| 0 <= i < rs.len() implies !arrivals.contains(#[trigger] rs[i]) by {
            if arrivals.contains(rs[i]) {
                let j = choose|j: int| 0 <= j < arrivals.len() && arrivals[j] == rs[i];
                if i < rb.len() {
                    assert(rs[i] == rb[i]);
                    if j < before.len() {
                        assert(before[j] == rs[i]);
                        assert(before.contains(rb[i]));
                    } else {
                        assert(before.len() > 0);
                        assert(rb[i] < before.last());
                        assert(before.last() < x);
                    }
                } else {
                    assert(rs[i] == e);
                    if j < before.len() {
                        if before.len() > 0 {
                            assert(arrivals[j] <= before.last()) by {
                                if j < before.len() - 1 {
                                    assert(arrivals[j] < arrivals[before.len() - 1]);
                                }
                            }
                        }
                    } else {
                        assert(arrivals[j] == x);
                    }
                }
            }
        }
    }
}

/// Requests made on a prefix of a run stay among the requests of the run.
pub proof fn lemma_requests_of_prefix(expected: u32, arrivals: Seq<u32>, m: int, r: u32)
    requires
        0 <= m <= arrivals.len(),
        requests_after(expected, arrivals.subrange(0, m)).contains(r),
    ensures
        requests_after(expected, arrivals).contains(r),
    decreases arrivals.len(),
{
    if m == arrivals.len() {
        assert(arrivals.subrange(0, m) =~= arrivals);
    } else {
        let before = arrivals.drop_last();
        assert(before.subrange(0, m) =~= arrivals.subrange(0, m));
        lemma_requests_of_prefix(expected, before, m, r);
        let rs = requests_after(expected, before);
        let k = choose|k: int| 0 <= k < rs.len() && rs[k] == r;
        assert(requests_after(expected, arrivals)[k] == r);
    }
}

/// A sequence lost between two arrivals, right after its predecessor (or as
/// the very first one expected), is asked for exactly once.
pub proof fn lemma_lost_sequence_requested_once(expected: u32, arrivals: Seq<u32>, s: u32)
    requires
        strictly_increasing(arrivals),
        arrivals.len() > 0,
        expected <= arrivals[0],
        !arrivals.contains(s),
        s < arrivals.last(),
        s == expected || (s > 0 && arrivals.contains((s - 1) as u32)),
    ensures
        requests_after(expected, arrivals).contains(s),
        forall|i: int, j: int|
            0 <= i < requests_after(expected, arrivals).len() && 0 <= j < requests_after(
                expected,
                arrivals,
            ).len() && requests_after(expected, arrivals)[i] == s && requests_after(
                expected,
                arrivals,
            )[j] == s ==> i == j,
{
    lemma_requests_increase(expected, arrivals);
    if s == expected {
        let first = arrivals.subrange(0, 1);
        assert(first.drop_last() =~= Seq::<u32>::empty());
        assert(arrivals[0] != s);
        assert(first.last() == arrivals[0]);
        assert(expected_after(expected, first.drop_last()) == expected);
        assert(requests_after(expected, first.drop_last()) =~= Seq::<u32>::empty());
        assert(requests_after(expected, first) =~= seq![s]);
        assert(requests_after(expected, first)[0] == s);
        lemma_requests_of_prefix(expected, arrivals, 1, s);
    } else {
        let k = choose|k: int| 0 <= k < arrivals.len() && arrivals[k] == (s - 1) as u32;
        assert(k < arrivals.len() - 1) by {
            if k == arrivals.len() - 1 {
                assert(arrivals.last() == s - 1);
            }
        }
        let before = arrivals.subrange(0, k + 1);
        let upto = arrivals.subrange(0, k + 2);
        assert(upto.drop_last() =~= before);
        assert(before.last() == s - 1);
        lemma_expected_follows_last_arrival(expected, before);
        assert(arrivals[k + 1] > arrivals[k]);
        assert(arrivals[k + 1] != s);
        assert(upto.last() == arrivals[k + 1]);
        let rs = requests_after(expected, upto);
        assert(rs.last() == s);
        assert(rs[rs.len() - 1] == s);
        lemma_requests_of_prefix(expected, arrivals, k + 2, s);
    }
}

/// A lost sequence that the store holds, under a payload that reads as one,
/// is asked for exactly once and comes back as that payload.
pub proof fn lemma_lost_and_stored_is_recovered(
    records: Map<u32, Seq<u8>>,
    expected: u32,
    arrivals: Seq<u32>,
    s: u32,
)
    requires
        strictly_increasing(arrivals),
        arrivals.len() > 0,
        expected <= arrivals[0],
        !arrivals.contains(s),
        s < arrivals.last(),
        s == expected || (s > 0 && arrivals.contains((s - 1) as u32)),
        records.contains_key(s),
        records[s].len() > 0,
        records[s] != not_found_text(),
    ensures
        requests_after(expected, arrivals).contains(s),
        forall|i: int, j: int|
            0 <= i < requests_after(expected, arrivals).len() && 0 <= j < requests_after(
                expected,
                arrivals,
            ).len() && requests_after(expected, arrivals)[i] == s && requests_after(
                expected,
                arrivals,
            )[j] == s ==> i == j,
        outcome_of(response_for(records, request_message(s))) == Outcome::Recovered(records[s]),
{
    lemma_lost_sequence_requested_once(expected, arrivals, s);
    lemma_request_round_trip(s);
}

/// A lost sequence that the store lacks is asked for exactly once and comes
/// back as not found; nothing asks for it again.
pub proof fn lemma_lost_and_missing_is_not_found(
    records: Map<u32, Seq<u8>>,
    expected: u32,
    arrivals: Seq<u32>,
    s: u32,
)
    requires
        strictly_increasing(arrivals),
        arrivals.len() > 0,
        expected <= arrivals[0],
        !arrivals.contains(s),
        s < arrivals.last(),
        s == expected || (s > 0 && arrivals.contains((s - 1) as u32)),
        !records.contains_key(s),
    ensures
        requests_after(expected, arrivals).contains(s),
        forall|i: int, j: int|
            0 <= i < requests_after(expected, arrivals).len() && 0 <= j < requests_after(
                expected,
                arrivals,
            ).len() && requests_after(expected, arrivals)[i] == s && requests_after(
                expected,
                arrivals,
            )[j] == s ==> i == j,
        outcome_of(response_for(records, request_message(s))) == Outcome::NotFound,
{
    lemma_lost_sequence_requested_once(expected, arrivals, s);
    lemma_request_round_trip(s);
    assert(not_found_text().len() > 0);
}

/// Every request for a stored sequence is answered with the stored payload,
/// so asking again gives the same answer.
pub proof fn lemma_request_answered_with_payload(records: Map<u32, Seq<u8>>, s: u32)
    requires
        records.contains_key(s),
    ensures
        response_for(records, request_message(s)) == records[s],
{
    lemma_request_round_trip(s);
}

} // verus!
