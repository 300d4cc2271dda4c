//! Fixed-layout binary codec for attendance records.
//!
//! The persisted layout of a record is stable:
//! `[version tag: 1 byte][owner identity: 32 bytes][day number: 8 bytes,
//! little endian][timestamp: 8 bytes, little endian]`, 49 bytes in all.
//! Pre-epoch events are out of scope, so a valid timestamp is never
//! negative and its eight bytes carry it exactly.

use vstd::bytes::{
    lemma_auto_spec_u64_to_from_le_bytes, spec_u64_from_le_bytes, spec_u64_to_le_bytes,
    u64_from_le_bytes, u64_to_le_bytes,
};
use vstd::prelude::*;
use vstd::slice::slice_subrange;

use crate::errors::ErrorCode;

verus! {

/// Fixed byte length of an owner identity and of a slot address.
pub const IDENTITY_LEN: usize = 32;

/// Layout-versioning tag written as the first byte of every record.
pub const RECORD_VERSION_TAG: u8 = 1;

/// Fixed byte length of an encoded attendance record.
pub const RECORD_LEN: usize = 49;

/// One attendance event: who clocked in, on which day, at which second.
#[derive(Debug)]
pub struct AttendanceRecord {
    /// Identity of the owner who clocked in.
    pub owner: Vec<u8>,
    /// Days since the epoch at the moment of the event.
    pub day: u64,
    /// Exact timestamp of the event, seconds since the epoch.
    pub timestamp: i64,
}

/// Mathematical image of an attendance record.
pub ghost struct RecordView {
    pub owner: Seq<u8>,
    pub day: u64,
    pub timestamp: i64,
}

impl View for AttendanceRecord {
    type V = RecordView;

    open spec fn view(&self) -> RecordView {
        RecordView { owner: self.owner@, day: self.day, timestamp: self.timestamp }
    }
}

impl RecordView {
    /// A record is valid when its owner identity has the fixed length and
    /// its timestamp is not pre-epoch.
    pub open spec fn wf(self) -> bool {
        &&& self.owner.len() == IDENTITY_LEN
        &&& 0 <= self.timestamp
    }
}

/// The bytes that a record is persisted as.
pub open spec fn spec_encode(r: RecordView) -> Seq<u8> {
    seq![RECORD_VERSION_TAG] + r.owner + spec_u64_to_le_bytes(r.day) + spec_u64_to_le_bytes(
        r.timestamp as u64,
    )
}

/// The record that a byte sequence decodes to, if it is well formed:
/// right length, right version tag, and a timestamp that fits a signed
/// sixty-four bit count of seconds.
pub open spec fn spec_decode(bytes: Seq<u8>) -> Option<RecordView> {
    if bytes.len() == RECORD_LEN && bytes[0] == RECORD_VERSION_TAG && spec_u64_from_le_bytes(
        bytes.subrange(41, 49),
    ) <= i64::MAX as u64 {
        Some(
            RecordView {
                owner: bytes.subrange(1, 33),
                day: spec_u64_from_le_bytes(bytes.subrange(33, 41)),
                timestamp: spec_u64_from_le_bytes(bytes.subrange(41, 49)) as i64,
            },
        )
    } else {
        None
    }
}

impl AttendanceRecord {
    /// Validity of the executable record: see [`RecordView::wf`].
    pub open spec fn wf(self) -> bool {
        self@.wf()
    }

    /// Encode the record into its fixed 49-byte layout.
    pub fn encode(&self) -> (r: Vec<u8>)
        requires
            self.wf(),
        ensures
            r@ == spec_encode(self@),
            r@.len() == RECORD_LEN,
    {
        proof {
            lemma_auto_spec_u64_to_from_le_bytes();
        }
        let mut out: Vec<u8> = Vec::new();
        out.push(RECORD_VERSION_TAG);
        let mut i: usize = 0;
        while i < IDENTITY_LEN
            invariant
                i <= IDENTITY_LEN,
                self.owner@.len() == IDENTITY_LEN,
                out@ == seq![RECORD_VERSION_TAG] + self.owner@.subrange(0, i as int),
            decreases IDENTITY_LEN - i,
        {
            out.push(self.owner[i]);
            i += 1;
            proof {
                assert(out@ =~= seq![RECORD_VERSION_TAG] + self.owner@.subrange(0, i as int));
            }
        }
        let day_bytes = u64_to_le_bytes(self.day);
        let mut j: usize = 0;
        while j < 8
            invariant
                j <= 8,
                day_bytes@ == spec_u64_to_le_bytes(self.day),
                day_bytes@.len() == 8,
                self.owner@.len() == IDENTITY_LEN,
                out@ == seq![RECORD_VERSION_TAG] + self.owner@ + day_bytes@.subrange(0, j as int),
            decreases 8 - j,
        {
            out.push(day_bytes[j]);
            j += 1;
            proof {
                assert(out@ =~= seq![RECORD_VERSION_TAG] + self.owner@ + day_bytes@.subrange(
                    0,
                    j as int,
                ));
            }
        }
        let ts_bytes = u64_to_le_bytes(self.timestamp as u64);
        let mut k: usize = 0;
        while k < 8
            invariant
                k <= 8,
                ts_bytes@ == spec_u64_to_le_bytes(self.timestamp as u64),
                ts_bytes@.len() == 8,
                day_bytes@ == spec_u64_to_le_bytes(self.day),
                day_bytes@.len() == 8,
                self.owner@.len() == IDENTITY_LEN,
                out@ == seq![RECORD_VERSION_TAG] + self.owner@ + day_bytes@ + ts_bytes@.subrange(
                    0,
                    k as int,
                ),
            decreases 8 - k,
        {
            out.push(ts_bytes[k]);
            k += 1;
            proof {
                assert(out@ =~= seq![RECORD_VERSION_TAG] + self.owner@ + day_bytes@
                    + ts_bytes@.subrange(0, k as int));
            }
        }
        proof {
            assert(out@ =~= spec_encode(self@));
        }
        out
    }

    /// Decode a stored byte sequence; fails with `MalformedRecord` exactly
    /// when the bytes are not a well-formed encoding.
    pub fn decode(bytes: &Vec<u8>) -> (r: Result<AttendanceRecord, ErrorCode>)
        ensures
            match r {
                Ok(rec) => spec_decode(bytes@) == Some(rec@) && rec.wf(),
                Err(e) => e == ErrorCode::MalformedRecord && spec_decode(bytes@) is None,
            },
    {
        proof {
            lemma_auto_spec_u64_to_from_le_bytes();
        }
        if bytes.len() != RECORD_LEN {
            return Err(ErrorCode::MalformedRecord);
        }
        if bytes[0] != RECORD_VERSION_TAG {
            return Err(ErrorCode::MalformedRecord);
        }
        let mut owner: Vec<u8> = Vec::new();
        let mut i: usize = 1;
        while i < 33
            invariant
                1 <= i <= 33,
                bytes@.len() == RECORD_LEN,
                owner@ == bytes@.subrange(1, i as int),
            decreases 33 - i,
        {
            owner.push(bytes[i]);
            i += 1;
            proof {
                assert(owner@ =~= bytes@.subrange(1, i as int));
            }
        }
        let day = u64_from_le_bytes(slice_subrange(bytes.as_slice(), 33, 41));
        let ts_bits = u64_from_le_bytes(slice_subrange(bytes.as_slice(), 41, 49));
        if ts_bits > i64::MAX as u64 {
            return Err(ErrorCode::MalformedRecord);
        }
        Ok(AttendanceRecord { owner, day, timestamp: ts_bits as i64 })
    }
}

/// Round trip: decoding the encoding of any valid record yields that
/// record back unchanged.
pub proof fn lemma_record_round_trip(r: RecordView)
    requires
        r.wf(),
    ensures
        spec_decode(spec_encode(r)) == Some(r),
{
    lemma_auto_spec_u64_to_from_le_bytes();
    let b = spec_encode(r);
    assert(b.subrange(1, 33) =~= r.owner);
    assert(b.subrange(33, 41) =~= spec_u64_to_le_bytes(r.day));
    assert(b.subrange(41, 49) =~= spec_u64_to_le_bytes(r.timestamp as u64));
}

} // verus!
