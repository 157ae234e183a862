//! The format of the records that hold more than one value: each value
//! behind its own length, which is written as eight bytes, least significant
//! first.

use crate::bytes::{
    append_bytes, copy_range, le64, le64_value, lemma_le64_of_value, lemma_le64_round_trip,
    u64_from_le, u64_to_le,
};
use vstd::prelude::*;
use vstd::utf8::{encode_utf8, valid_utf8};

verus! {

/// A value behind its length.
pub open spec fn field(payload: Seq<u8>) -> Seq<u8> {
    le64(payload.len() as u64) + payload
}

/// Whether `payload`, behind its length, stands in `input` from position
/// `at` on.
pub open spec fn field_at(input: Seq<u8>, at: int, payload: Seq<u8>) -> bool {
    &&& 0 <= at
    &&& payload.len() <= u64::MAX
    &&& at + 8 + payload.len() <= input.len()
    &&& input.subrange(at, at + 8 + payload.len()) == field(payload)
}

/// What stands at a position is told by the bytes there: the first eight
/// give the length, and the value follows.
pub proof fn lemma_field_at(input: Seq<u8>, at: int, payload: Seq<u8>)
    requires
        field_at(input, at, payload),
    ensures
        le64_value(input.subrange(at, at + 8)) == payload.len(),
        payload == input.subrange(at + 8, at + 8 + payload.len()),
{
    let whole = input.subrange(at, at + 8 + payload.len());
    lemma_le64_round_trip(payload.len() as u64);
    assert(input.subrange(at, at + 8) =~= whole.subrange(0, 8));
    assert(whole.subrange(0, 8) =~= le64(payload.len() as u64));
    assert(input.subrange(at + 8, at + 8 + payload.len()) =~= whole.subrange(
        8,
        8 + payload.len() as int,
    ));
    assert(whole.subrange(8, 8 + payload.len() as int) =~= payload);
}

/// At most one value stands at a position.
pub proof fn lemma_field_at_unique(input: Seq<u8>, at: int, first: Seq<u8>, second: Seq<u8>)
    requires
        field_at(input, at, first),
        field_at(input, at, second),
    ensures
        first == second,
{
    lemma_field_at(input, at, first);
    lemma_field_at(input, at, second);
}

/// A value stands where it was written: behind whatever came before it,
/// and whatever is written after it.
pub proof fn lemma_field_in_place(before: Seq<u8>, payload: Seq<u8>, after: Seq<u8>)
    requires
        payload.len() <= u64::MAX,
    ensures
        field_at(before + field(payload) + after, before.len() as int, payload),
{
    lemma_le64_round_trip(payload.len() as u64);
    let input = before + field(payload) + after;
    assert(input.subrange(before.len() as int, before.len() as int + 8 + payload.len()) =~= field(
        payload,
    ));
}

/// Writes `payload` behind its length to the end of `buffer`.
pub fn put_field(buffer: &mut Vec<u8>, payload: &[u8])
    ensures
        final(buffer)@ == old(buffer)@ + field(payload@),
{
    let length: Vec<u8> = u64_to_le(payload.len() as u64);
    append_bytes(buffer, length.as_slice());
    append_bytes(buffer, payload);
    assert(buffer@ =~= old(buffer)@ + field(payload@));
}

/// Reads the value that stands in `input` at position `at`, and says where
/// it ends. `None` exactly where no value stands there.
pub fn take_field(input: &[u8], at: usize) -> (found: Option<(Vec<u8>, usize)>)
    ensures
        found matches Some((payload, next)) ==> field_at(input@, at as int, payload@) && next == at
            + 8 + payload@.len(),
        found is None ==> forall|payload: Seq<u8>| !field_at(input@, at as int, payload),
{
    if at > input.len() || input.len() - at < 8 {
        return None;
    }
    let length: Vec<u8> = copy_range(input, at, at + 8);
    let announced: u64 = u64_from_le(length.as_slice());
    let room: usize = input.len() - at - 8;
    if announced > room as u64 {
        assert forall|payload: Seq<u8>| !field_at(input@, at as int, payload) by {
            if field_at(input@, at as int, payload) {
                lemma_field_at(input@, at as int, payload);
            }
        }
        return None;
    }
    let count: usize = announced as usize;
    let payload: Vec<u8> = copy_range(input, at + 8, at + 8 + count);
    proof {
        lemma_le64_of_value(length@);
        assert(input@.subrange(at as int, at + 8 + count) =~= field(payload@));
    }
    Some((payload, at + 8 + count))
}

/// Calls `String::from_utf8` of std: the string whose bytes are `bytes`, or
/// `None` where `bytes` is not valid UTF-8.
#[verifier::external_body]
pub(crate) fn string_from_utf8(bytes: Vec<u8>) -> (text: Option<String>)
    ensures
        text is Some == valid_utf8(bytes@),
        text matches Some(s) ==> encode_utf8(s@) == bytes@,
{
    String::from_utf8(bytes).ok()
}

} // verus!
