//! The on-disk payload format: exactly one encoded record per file.
//!
//! The serializer collaborator encodes a value to a byte string (a record);
//! the cache stores that record wrapped as a one-element sequence, in the
//! binary object-notation format's array framing: a one-byte header for an
//! `n`-element sequence (for `n` below 16) is `0x90 + n`, so a valid cache
//! payload is the header `0x91` followed by the record's bytes.  A payload
//! framed for zero records, or for more than one, starts with a different
//! header byte and is rejected as corrupt.

use vstd::prelude::*;

use crate::error::CacheError;

verus! {

/// The header byte that frames a one-element record sequence.
pub const ONE_RECORD_HEADER: u8 = 0x91;

/// The header byte framing an `n`-element record sequence, for `n < 16`.
pub open spec fn seq_header(n: nat) -> u8
    recommends
        n < 16,
{
    (0x90 + n) as u8
}

/// The payload that stores exactly the record `rec`.
pub open spec fn frame_spec(rec: Seq<u8>) -> Seq<u8> {
    seq![ONE_RECORD_HEADER] + rec
}

/// Whether `payload` is structurally a one-record cache file.
pub open spec fn payload_well_formed(payload: Seq<u8>) -> bool {
    payload.len() >= 1 && payload[0] == ONE_RECORD_HEADER
}

/// The record held by a well-formed payload: everything after the header.
pub open spec fn record_of(payload: Seq<u8>) -> Seq<u8>
    recommends
        payload_well_formed(payload),
{
    payload.subrange(1, payload.len() as int)
}

/// The concatenation of a sequence of records.
pub open spec fn concat_records(records: Seq<Seq<u8>>) -> Seq<u8>
    decreases records.len(),
{
    if records.len() == 0 {
        Seq::empty()
    } else {
        records[0] + concat_records(records.drop_first())
    }
}

/// The payload framing an arbitrary short sequence of records: the sequence
/// header, then the records back to back.
pub open spec fn payload_of_records(records: Seq<Seq<u8>>) -> Seq<u8>
    recommends
        records.len() < 16,
{
    seq![seq_header(records.len())] + concat_records(records)
}

/// Framing one record and unframing the payload gives the record back.
pub proof fn lemma_frame_round_trip(rec: Seq<u8>)
    ensures
        payload_well_formed(frame_spec(rec)),
        record_of(frame_spec(rec)) == rec,
{
    assert(record_of(frame_spec(rec)) =~= rec);
}

/// A one-record payload is the one-element case of the general framing.
pub proof fn lemma_frame_is_one_record_payload(rec: Seq<u8>)
    ensures
        frame_spec(rec) == payload_of_records(seq![rec]),
{
    assert(seq![rec].drop_first() =~= Seq::<Seq<u8>>::empty());
    assert(concat_records(Seq::<Seq<u8>>::empty()) == Seq::<u8>::empty());
    assert(concat_records(seq![rec]) =~= rec);
    assert(frame_spec(rec) =~= payload_of_records(seq![rec]));
}

/// A payload framed for any record count other than one is malformed: its
/// header byte differs from the one-record header.
pub proof fn lemma_wrong_count_malformed(records: Seq<Seq<u8>>)
    requires
        records.len() < 16,
        records.len() != 1,
    ensures
        !payload_well_formed(payload_of_records(records)),
{
}

/// Builds the one-record payload for `rec`.
pub fn frame(rec: &Vec<u8>) -> (payload: Vec<u8>)
    ensures
        payload@ == frame_spec(rec@),
{
    let mut payload: Vec<u8> = Vec::new();
    payload.push(ONE_RECORD_HEADER);
    let mut i: usize = 0;
    while i < rec.len()
        invariant
            i <= rec@.len(),
            payload@ == frame_spec(rec@.take(i as int)),
        decreases rec@.len() - i,
    {
        payload.push(rec[i]);
        i = i + 1;
        assert(payload@ =~= frame_spec(rec@.take(i as int)));
    }
    assert(rec@.take(rec@.len() as int) =~= rec@);
    payload
}

/// Checks the one-record framing of `payload` and extracts the record, or
/// reports the file as corrupt.
pub fn unframe(payload: &Vec<u8>) -> (r: Result<Vec<u8>, CacheError>)
    ensures
        r is Ok <==> payload_well_formed(payload@),
        r is Ok ==> r->Ok_0@ == record_of(payload@),
        r is Err ==> r->Err_0 == CacheError::CorruptData,
{
    if payload.len() == 0 || payload[0] != ONE_RECORD_HEADER {
        return Err(CacheError::CorruptData);
    }
    let mut rec: Vec<u8> = Vec::new();
    let mut i: usize = 1;
    while i < payload.len()
        invariant
            1 <= i <= payload@.len(),
            rec@ == payload@.subrange(1, i as int),
        decreases payload@.len() - i,
    {
        rec.push(payload[i]);
        i = i + 1;
        assert(rec@ =~= payload@.subrange(1, i as int));
    }
    Ok(rec)
}

} // verus!
