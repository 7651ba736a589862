//! A record describing a single event, together with the identifier and
//! timestamp types every record carries.
//!
//! The entity fields `entity_id` and `entity_type` identify the thing the
//! record is about.  `event_name` names the event and `event_data` is an
//! uninterpreted text payload (typically serialized JSON); the store never
//! parses it.
use crate::codec::{
    le64, le64_val, push_str, push_u64, read_u64, read_vec, str_bytes, utf8_to_string,
};
use crate::errors::{ErrorKind, StorageError, StorageResult};
use vstd::prelude::*;
use vstd::utf8::{decode_utf8, encode_utf8, valid_utf8};

verus! {

/// A 128-bit identifier, held as two 64-bit words.
#[derive(Clone, Copy, Debug, PartialEq, Eq, Hash, Structural)]
pub struct Id {
    /// The high 64 bits.
    pub hi: u64,
    /// The low 64 bits.
    pub lo: u64,
}

/// Relies on `uuid::Uuid::new_v4` and `Uuid::as_u64_pair`: a freshly drawn
/// random 128-bit identifier, as two 64-bit words.  Nothing can be promised
/// of a random value.
#[verifier::external_body]
pub(crate) fn fresh_id_words() -> (u64, u64) {
    uuid::Uuid::new_v4().as_u64_pair()
}

/// The fixed 16-byte on-disk form of an identifier.
pub open spec fn id_bytes(id: Id) -> Seq<u8> {
    le64(id.hi) + le64(id.lo)
}

/// The identifier read back from its 16-byte form.
pub open spec fn id_from(s: Seq<u8>) -> Id
    recommends
        s.len() == 16,
{
    Id { hi: le64_val(s.subrange(0, 8)), lo: le64_val(s.subrange(8, 16)) }
}

/// Reading an identifier's bytes back yields the identifier.
pub proof fn lemma_id_roundtrip(id: Id)
    ensures
        id_bytes(id).len() == 16,
        id_from(id_bytes(id)) == id,
{
    crate::codec::lemma_le64_roundtrip(id.hi);
    crate::codec::lemma_le64_roundtrip(id.lo);
    assert(id_bytes(id).subrange(0, 8) =~= le64(id.hi));
    assert(id_bytes(id).subrange(8, 16) =~= le64(id.lo));
}

impl Id {
    /// Draws a fresh random identifier.
    pub fn fresh() -> Id {
        let (hi, lo) = fresh_id_words();
        Id { hi, lo }
    }

    /// Appends the identifier's 16 bytes to `out`.
    pub fn push_onto(&self, out: &mut Vec<u8>)
        ensures
            final(out)@ == old(out)@ + id_bytes(*self),
    {
        push_u64(out, self.hi);
        push_u64(out, self.lo);
        proof {
            assert(final(out)@ =~= old(out)@ + id_bytes(*self));
        }
    }

    /// The identifier's 16 bytes.
    pub fn to_bytes(&self) -> (r: Vec<u8>)
        ensures
            r@ == id_bytes(*self),
    {
        let mut out: Vec<u8> = Vec::new();
        self.push_onto(&mut out);
        out
    }

    /// Reads an identifier from the 16 bytes of `b` starting at `i`.
    pub fn read_at(b: &[u8], i: usize) -> (r: Id)
        requires
            i + 16 <= b@.len(),
        ensures
            r == id_from(b@.subrange(i as int, i as int + 16)),
    {
        proof {
            vstd::slice::axiom_spec_len(b);
        }
        let hi = read_u64(b, i);
        let lo = read_u64(b, i + 8);
        proof {
            let s = b@.subrange(i as int, i as int + 16);
            assert(s.subrange(0, 8) =~= b@.subrange(i as int, i as int + 8));
            assert(s.subrange(8, 16) =~= b@.subrange(i as int + 8, i as int + 16));
        }
        Id { hi, lo }
    }
}

/// A creation time: a wall-clock duration since the Unix epoch, as whole
/// seconds plus nanoseconds within the second.  Not monotonic.
#[derive(Clone, Copy, Debug, PartialEq, Eq, Hash, PartialOrd, Ord, Structural)]
pub struct Timestamp {
    /// Whole seconds since the epoch.
    pub secs: u64,
    /// Nanoseconds within the current second.
    pub nanos: u32,
}

/// `a` is no later than `b`.
pub open spec fn ts_le(a: Timestamp, b: Timestamp) -> bool {
    a.secs < b.secs || (a.secs == b.secs && a.nanos <= b.nanos)
}

/// Relies on `std::time::SystemTime::now` and `Duration`: the wall clock's
/// duration since the Unix epoch.  The clock is not monotonic, so nothing is
/// promised beyond the documented range of the nanosecond field.
#[verifier::external_body]
pub(crate) fn now_timestamp() -> (r: Timestamp)
    ensures
        r.nanos < 1000000000,
{
    let d = std::time::SystemTime::now().duration_since(
        std::time::SystemTime::UNIX_EPOCH,
    ).unwrap_or(std::time::Duration::ZERO);
    Timestamp { secs: d.as_secs(), nanos: d.subsec_nanos() }
}

/// The fixed 16-byte on-disk form of a timestamp.
pub open spec fn ts_bytes(t: Timestamp) -> Seq<u8> {
    le64(t.secs) + le64(t.nanos as u64)
}

/// The timestamp read back from its 16-byte form.
pub open spec fn ts_from(s: Seq<u8>) -> Timestamp
    recommends
        s.len() == 16,
{
    Timestamp { secs: le64_val(s.subrange(0, 8)), nanos: le64_val(s.subrange(8, 16)) as u32 }
}

/// Reading a timestamp's bytes back yields the timestamp.
pub proof fn lemma_ts_roundtrip(t: Timestamp)
    ensures
        ts_bytes(t).len() == 16,
        ts_from(ts_bytes(t)) == t,
{
    crate::codec::lemma_le64_roundtrip(t.secs);
    crate::codec::lemma_le64_roundtrip(t.nanos as u64);
    assert(ts_bytes(t).subrange(0, 8) =~= le64(t.secs));
    assert(ts_bytes(t).subrange(8, 16) =~= le64(t.nanos as u64));
}

/// Appends a timestamp's 16 bytes to `out`.
pub fn push_ts(out: &mut Vec<u8>, t: Timestamp)
    ensures
        final(out)@ == old(out)@ + ts_bytes(t),
{
    push_u64(out, t.secs);
    push_u64(out, t.nanos as u64);
    proof {
        assert(final(out)@ =~= old(out)@ + ts_bytes(t));
    }
}

/// Reads a timestamp from the 16 bytes of `b` starting at `i`.
pub fn read_ts_at(b: &[u8], i: usize) -> (r: Timestamp)
    requires
        i + 16 <= b@.len(),
    ensures
        r == ts_from(b@.subrange(i as int, i as int + 16)),
{
    proof {
        vstd::slice::axiom_spec_len(b);
    }
    let secs = read_u64(b, i);
    let n64 = read_u64(b, i + 8);
    proof {
        let s = b@.subrange(i as int, i as int + 16);
        assert(s.subrange(0, 8) =~= b@.subrange(i as int, i as int + 8));
        assert(s.subrange(8, 16) =~= b@.subrange(i as int + 8, i as int + 16));
    }
    Timestamp { secs, nanos: #[verifier::truncate] (n64 as u32) }
}

/// A single event record.
#[derive(Debug)]
pub struct Record {
    /// A unique identifier for this record.
    pub id: Id,
    /// Wall-clock duration since the epoch at creation time.
    pub timestamp: Timestamp,
    /// The identifier of the entity this record belongs to; it is the key of
    /// the index that points back at this record.
    pub entity_id: Id,
    /// The string representation of the entity's type.
    pub entity_type: String,
    /// The name of the event.
    pub event_name: String,
    /// The event payload itself, stored uninterpreted.
    pub event_data: String,
}

/// The mathematical view of a record: identifiers, the timestamp, and the
/// three texts as character sequences.
pub struct RecordView {
    /// The record's own identifier.
    pub id: Id,
    /// The creation timestamp.
    pub timestamp: Timestamp,
    /// The owning entity's identifier.
    pub entity_id: Id,
    /// The entity type tag.
    pub entity_type: Seq<char>,
    /// The event name.
    pub event_name: Seq<char>,
    /// The event payload.
    pub event_data: Seq<char>,
}

impl View for Record {
    type V = RecordView;

    open spec fn view(&self) -> RecordView {
        RecordView {
            id: self.id,
            timestamp: self.timestamp,
            entity_id: self.entity_id,
            entity_type: self.entity_type@,
            event_name: self.event_name@,
            event_data: self.event_data@,
        }
    }
}

/// The on-disk encoding of a record: the three fixed-width fields, then the
/// three length-prefixed texts.
pub open spec fn record_bytes(r: RecordView) -> Seq<u8> {
    id_bytes(r.id) + ts_bytes(r.timestamp) + id_bytes(r.entity_id) + str_bytes(r.entity_type)
        + str_bytes(r.event_name) + str_bytes(r.event_data)
}

/// The record read back from `s`, or `None` when `s` is not a well-formed
/// record encoding (too short, a length prefix overruns the input, trailing
/// bytes, or text that is not UTF-8).
pub open spec fn record_from(s: Seq<u8>) -> Option<RecordView> {
    if s.len() < 72 {
        None
    } else {
        let id = id_from(s.subrange(0, 16));
        let ts = ts_from(s.subrange(16, 32));
        let eid = id_from(s.subrange(32, 48));
        let l1 = le64_val(s.subrange(48, 56)) as int;
        if s.len() < 56 + l1 {
            None
        } else {
            let b1 = s.subrange(56, 56 + l1);
            let o2 = 56 + l1;
            if s.len() < o2 + 8 {
                None
            } else {
                let l2 = le64_val(s.subrange(o2, o2 + 8)) as int;
                if s.len() < o2 + 8 + l2 {
                    None
                } else {
                    let b2 = s.subrange(o2 + 8, o2 + 8 + l2);
                    let o3 = o2 + 8 + l2;
                    if s.len() < o3 + 8 {
                        None
                    } else {
                        let l3 = le64_val(s.subrange(o3, o3 + 8)) as int;
                        if s.len() != o3 + 8 + l3 {
                            None
                        } else {
                            let b3 = s.subrange(o3 + 8, o3 + 8 + l3);
                            if valid_utf8(b1) && valid_utf8(b2) && valid_utf8(b3) {
                                Some(
                                    RecordView {
                                        id,
                                        timestamp: ts,
                                        entity_id: eid,
                                        entity_type: decode_utf8(b1),
                                        event_name: decode_utf8(b2),
                                        event_data: decode_utf8(b3),
                                    },
                                )
                            } else {
                                None
                            }
                        }
                    }
                }
            }
        }
    }
}

impl Record {
    /// Creates a new event record with a fresh random identifier, stamping
    /// the current wall-clock time.
    pub fn new(entity_id: Id, entity_type: &str, event_name: &str, event_data: &str) -> (r: Record)
        ensures
            r.entity_id == entity_id,
            r@.entity_type == entity_type@,
            r@.event_name == event_name@,
            r@.event_data == event_data@,
    {
        let ts = now_timestamp();
        Record {
            id: Id::fresh(),
            timestamp: ts,
            entity_id,
            entity_type: entity_type.to_owned(),
            event_name: event_name.to_owned(),
            event_data: event_data.to_owned(),
        }
    }

    /// Encodes the record as bytes for storage.
    pub fn encode(&self) -> (r: Vec<u8>)
        ensures
            r@ == record_bytes(self@),
    {
        let mut out: Vec<u8> = Vec::new();
        self.id.push_onto(&mut out);
        push_ts(&mut out, self.timestamp);
        self.entity_id.push_onto(&mut out);
        push_str(&mut out, self.entity_type.as_str());
        push_str(&mut out, self.event_name.as_str());
        push_str(&mut out, self.event_data.as_str());
        proof {
            assert(out@ =~= record_bytes(self@));
        }
        out
    }

    /// Converts bytes from storage back into a record; fails with a decode
    /// error on anything but a well-formed record encoding.
    pub fn decode(val: &[u8]) -> (r: StorageResult<Record>)
        ensures
            r is Ok <==> record_from(val@) is Some,
            r is Ok ==> record_from(val@) == Some(r->Ok_0@),
            r is Err ==> r->Err_0.kind == ErrorKind::Decode,
    {
        let n = val.len();
        if n < 72 {
            return Err(StorageError::decode_error());
        }
        let id = Id::read_at(val, 0);
        let ts = read_ts_at(val, 16);
        let eid = Id::read_at(val, 32);
        let l1u = read_u64(val, 48);
        if l1u > (n - 56) as u64 {
            return Err(StorageError::decode_error());
        }
        let l1 = l1u as usize;
        let b1 = read_vec(val, 56, l1);
        let o2 = 56 + l1;
        if n - o2 < 8 {
            return Err(StorageError::decode_error());
        }
        let l2u = read_u64(val, o2);
        if l2u > (n - o2 - 8) as u64 {
            return Err(StorageError::decode_error());
        }
        let l2 = l2u as usize;
        let b2 = read_vec(val, o2 + 8, l2);
        let o3 = o2 + 8 + l2;
        if n - o3 < 8 {
            return Err(StorageError::decode_error());
        }
        let l3u = read_u64(val, o3);
        if l3u != (n - o3 - 8) as u64 {
            return Err(StorageError::decode_error());
        }
        let l3 = l3u as usize;
        let b3 = read_vec(val, o3 + 8, l3);
        let s1 = match utf8_to_string(b1.as_slice()) {
            Some(s) => s,
            None => {
                return Err(StorageError::decode_error());
            },
        };
        let s2 = match utf8_to_string(b2.as_slice()) {
            Some(s) => s,
            None => {
                return Err(StorageError::decode_error());
            },
        };
        let s3 = match utf8_to_string(b3.as_slice()) {
            Some(s) => s,
            None => {
                return Err(StorageError::decode_error());
            },
        };
        Ok(
            Record {
                id,
                timestamp: ts,
                entity_id: eid,
                entity_type: s1,
                event_name: s2,
                event_data: s3,
            },
        )
    }
}

/// A byte string shorter than the minimum record encoding never decodes
/// into a record.
pub proof fn lemma_short_record_rejected(s: Seq<u8>)
    requires
        s.len() < 72,
    ensures
        record_from(s) is None,
{
}

/// Decoding a record's encoding yields the record back: every field round
/// trips through the fixed binary format.
pub proof fn lemma_record_roundtrip(r: RecordView)
    requires
        encode_utf8(r.entity_type).len() <= u64::MAX,
        encode_utf8(r.event_name).len() <= u64::MAX,
        encode_utf8(r.event_data).len() <= u64::MAX,
    ensures
        record_from(record_bytes(r)) == Some(r),
{
    let e1 = encode_utf8(r.entity_type);
    let e2 = encode_utf8(r.event_name);
    let e3 = encode_utf8(r.event_data);
    let n1 = e1.len() as int;
    let n2 = e2.len() as int;
    let n3 = e3.len() as int;
    crate::codec::lemma_le64_roundtrip(n1 as u64);
    crate::codec::lemma_le64_roundtrip(n2 as u64);
    crate::codec::lemma_le64_roundtrip(n3 as u64);
    lemma_id_roundtrip(r.id);
    lemma_ts_roundtrip(r.timestamp);
    lemma_id_roundtrip(r.entity_id);
    vstd::utf8::encode_utf8_valid_utf8(r.entity_type);
    vstd::utf8::encode_utf8_valid_utf8(r.event_name);
    vstd::utf8::encode_utf8_valid_utf8(r.event_data);
    vstd::utf8::encode_utf8_decode_utf8(r.entity_type);
    vstd::utf8::encode_utf8_decode_utf8(r.event_name);
    vstd::utf8::encode_utf8_decode_utf8(r.event_data);
    let s = record_bytes(r);
    assert(s.len() == 72 + n1 + n2 + n3);
    assert(s.subrange(0, 16) =~= id_bytes(r.id));
    assert(s.subrange(16, 32) =~= ts_bytes(r.timestamp));
    assert(s.subrange(32, 48) =~= id_bytes(r.entity_id));
    assert(s.subrange(48, 56) =~= le64(n1 as u64));
    assert(s.subrange(56, 56 + n1) =~= e1);
    let o2 = 56 + n1;
    assert(s.subrange(o2, o2 + 8) =~= le64(n2 as u64));
    assert(s.subrange(o2 + 8, o2 + 8 + n2) =~= e2);
    let o3 = o2 + 8 + n2;
    assert(s.subrange(o3, o3 + 8) =~= le64(n3 as u64));
    assert(s.subrange(o3 + 8, o3 + 8 + n3) =~= e3);
}

} // verus!
