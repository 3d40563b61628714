//! The two text formats on the wire: feed messages on the broadcast channel,
//! and requests and responses on the recovery channel.

use vstd::prelude::*;
use crate::decimal::{
    all_digits, lemma_numeral_digits, lemma_parse_numeral, numeral, parse_u32, parse_u32_range,
    push_numeral,
};

verus! {

/// The price that the publisher quotes with a sequence number.
pub open spec fn price_of(sequence: u32) -> nat {
    (100 + sequence) as nat
}

/// The sequence number after `s`; the sequence space wraps after `u32::MAX`.
pub open spec fn successor(s: u32) -> u32 {
    if s == u32::MAX {
        0
    } else {
        (s + 1) as u32
    }
}

pub fn next_sequence(s: u32) -> (r: u32)
    ensures
        r == successor(s),
{
    if s == u32::MAX {
        0
    } else {
        s + 1
    }
}

/// The ASCII code of `|`, which ends the sequence field of a feed message.
pub const BAR: u8 = 124;

/// `SEQ:`
pub open spec fn seq_tag() -> Seq<u8> {
    seq![83, 69, 81, 58]
}

/// `|PRICE:`
pub open spec fn price_tag() -> Seq<u8> {
    seq![124, 80, 82, 73, 67, 69, 58]
}

/// `GET SEQ:`
pub open spec fn request_tag() -> Seq<u8> {
    seq![71, 69, 84, 32, 83, 69, 81, 58]
}

/// `Not found`: the answer for a sequence that the store does not hold.
pub open spec fn not_found_text() -> Seq<u8> {
    seq![78, 111, 116, 32, 102, 111, 117, 110, 100]
}

/// `Recovered data for SEQ:`
pub open spec fn payload_tag() -> Seq<u8> {
    seq![82, 101, 99, 111, 118, 101, 114, 101, 100, 32, 100, 97, 116, 97, 32,
        102, 111, 114, 32, 83, 69, 81, 58]
}

/// The feed message for a sequence: `SEQ:<sequence>|PRICE:<price>`.
pub open spec fn feed_message(sequence: u32) -> Seq<u8> {
    seq_tag() + numeral(sequence as nat) + price_tag() + numeral(price_of(sequence))
}

/// The recovery request for a sequence: `GET SEQ:<sequence>`.
pub open spec fn request_message(sequence: u32) -> Seq<u8> {
    request_tag() + numeral(sequence as nat)
}

/// The payload that the recovery store is seeded with for a sequence.
pub open spec fn recovered_payload(sequence: u32) -> Seq<u8> {
    payload_tag() + numeral(sequence as nat)
}

/// Index of the first `|` at or after `i`, or the length if there is none.
pub open spec fn field_end(s: Seq<u8>, i: int) -> int
    decreases s.len() - i,
{
    if i >= s.len() {
        s.len() as int
    } else if s[i] == BAR {
        i
    } else {
        field_end(s, i + 1)
    }
}

/// The sequence number that a feed message carries: the message starts with
/// `SEQ:`, and the number runs from there to the first `|` or to the end.
pub open spec fn parse_feed(s: Seq<u8>) -> Option<u32> {
    if s.len() >= seq_tag().len() && s.subrange(0, seq_tag().len() as int) == seq_tag() {
        parse_u32(s.subrange(seq_tag().len() as int, field_end(s, seq_tag().len() as int)))
    } else {
        None
    }
}

/// The sequence number that a recovery request asks for: `GET SEQ:` and then
/// a numeral up to the end of the request.
pub open spec fn parse_request(s: Seq<u8>) -> Option<u32> {
    if s.len() >= request_tag().len() && s.subrange(0, request_tag().len() as int) == request_tag() {
        parse_u32(s.subrange(request_tag().len() as int, s.len() as int))
    } else {
        None
    }
}

/// Whether `s` starts with `prefix`.
pub fn has_prefix(s: &[u8], prefix: &[u8]) -> (r: bool)
    ensures
        r == (prefix@.len() <= s@.len() && s@.subrange(0, prefix@.len() as int) == prefix@),
{
    if prefix.len() > s.len() {
        return false;
    }
    let mut i: usize = 0;
    while i < prefix.len()
        invariant
            prefix@.len() <= s@.len(),
            i <= prefix@.len(),
            forall|j: int| 0 <= j < i ==> s@[j] == prefix@[j],
        decreases prefix.len() - i,
    {
        if s[i] != prefix[i] {
            assert(s@.subrange(0, prefix@.len() as int)[i as int] != prefix@[i as int]);
            return false;
        }
        i = i + 1;
    }
    assert(s@.subrange(0, prefix@.len() as int) =~= prefix@);
    true
}

/// Whether `a` and `b` hold the same bytes.
pub fn same_bytes(a: &[u8], b: &[u8]) -> (r: bool)
    ensures
        r == (a@ == b@),
{
    if a.len() != b.len() {
        return false;
    }
    let r = has_prefix(a, b);
    proof {
        assert(a@ =~= a@.subrange(0, b@.len() as int));
    }
    r
}

pub fn not_found() -> (r: Vec<u8>)
    ensures
        r@ == not_found_text(),
{
    let r = vec![78, 111, 116, 32, 102, 111, 117, 110, 100];
    assert(r@ =~= not_found_text());
    r
}

/// `field_end` walks over a stretch of digits up to a `|` or the end.
proof fn lemma_field_end_over_digits(s: Seq<u8>, i: int, k: int)
    requires
        0 <= i <= k <= s.len(),
        all_digits(s.subrange(i, k)),
        k == s.len() || s[k] == BAR,
    ensures
        field_end(s, i) == k,
    decreases k - i,
{
    if i < k {
        assert(s.subrange(i, k)[0] == s[i]);
        assert(s.subrange(i + 1, k) =~= s.subrange(i, k).drop_first());
        lemma_field_end_over_digits(s, i + 1, k);
    }
}

/// A feed message reads back as the sequence number it was made for.
pub proof fn lemma_feed_round_trip(sequence: u32)
    ensures
        parse_feed(feed_message(sequence)) == Some(sequence),
{
    let m = feed_message(sequence);
    let digits = numeral(sequence as nat);
    let k = 4 + digits.len() as int;
    lemma_numeral_digits(sequence as nat);
    lemma_parse_numeral(sequence);
    assert(m.subrange(0, 4) =~= seq_tag());
    assert(m.subrange(4, k) =~= digits);
    assert(m[k] == BAR);
    lemma_field_end_over_digits(m, 4, k);
}

/// A recovery request reads back as the sequence number it asks for.
pub proof fn lemma_request_round_trip(sequence: u32)
    ensures
        parse_request(request_message(sequence)) == Some(sequence),
{
    let m = request_message(sequence);
    lemma_parse_numeral(sequence);
    assert(m.subrange(0, 8) =~= request_tag());
    assert(m.subrange(8, m.len() as int) =~= numeral(sequence as nat));
}

/// The feed message `SEQ:<sequence>|PRICE:<100 + sequence>`.
pub fn format_feed_message(sequence: u32) -> (r: Vec<u8>)
    ensures
        r@ == feed_message(sequence),
{
    let mut r = vec![83, 69, 81, 58];
    push_numeral(&mut r, sequence as u64);
    let mut tag = vec![124, 80, 82, 73, 67, 69, 58];
    r.append(&mut tag);
    push_numeral(&mut r, 100 + sequence as u64);
    assert(r@ =~= feed_message(sequence));
    r
}

/// The sequence number of a feed message, if it has one (see `parse_feed`).
pub fn parse_feed_message(data: &[u8]) -> (r: Option<u32>)
    ensures
        r == parse_feed(data@),
{
    let tag = [83u8, 69, 81, 58];
    assert(tag@ =~= seq_tag());
    if !has_prefix(data, &tag) {
        return None;
    }
    let mut end: usize = 4;
    while end < data.len() && data[end] != BAR
        invariant
            4 <= end <= data@.len(),
            field_end(data@, end as int) == field_end(data@, 4),
        decreases data.len() - end,
    {
        end = end + 1;
    }
    parse_u32_range(data, 4, end)
}

/// The recovery request `GET SEQ:<sequence>`.
pub fn format_request(sequence: u32) -> (r: Vec<u8>)
    ensures
        r@ == request_message(sequence),
{
    let mut r = vec![71, 69, 84, 32, 83, 69, 81, 58];
    push_numeral(&mut r, sequence as u64);
    assert(r@ =~= request_message(sequence));
    r
}

/// The sequence number that a recovery request asks for, if it is well formed
/// (see `parse_request`).
pub fn parse_recovery_request(data: &[u8]) -> (r: Option<u32>)
    ensures
        r == parse_request(data@),
{
    let tag = [71u8, 69, 84, 32, 83, 69, 81, 58];
    assert(tag@ =~= request_tag());
    if !has_prefix(data, &tag) {
        return None;
    }
    parse_u32_range(data, 8, data.len())
}

/// The payload `Recovered data for SEQ:<sequence>`.
pub fn format_recovered_payload(sequence: u32) -> (r: Vec<u8>)
    ensures
        r@ == recovered_payload(sequence),
{
    let mut r = vec![82, 101, 99, 111, 118, 101, 114, 101, 100, 32, 100, 97, 116, 97, 32, 102, 111,
        114, 32, 83, 69, 81, 58];
    push_numeral(&mut r, sequence as u64);
    assert(r@ =~= recovered_payload(sequence));
    r
}

} // verus!
