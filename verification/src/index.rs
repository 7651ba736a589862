//! An index containing an identifier and the ordered record links for one
//! entity.
//!
//! An index holds the identifier of the entity it indexes and an ordered
//! list of record links; each link points at a record in the data space
//! holding the event's bytes.  The order of the links is the order in which
//! the events were appended.
use crate::codec::{le64, le64_val, push_u64, read_u64};
use crate::errors::{ErrorKind, StorageError, StorageResult};
use crate::record::{
    id_bytes, id_from, now_timestamp, push_ts, read_ts_at, ts_bytes, ts_from, ts_le, Id, Timestamp,
};
use vstd::prelude::*;

verus! {

/// One entry of an index: a record identifier and the timestamp at which it
/// was appended.
#[derive(Clone, Copy, Debug, PartialEq, Eq, Structural)]
pub struct RecordLink {
    /// The linked record's identifier.
    pub id: Id,
    /// When the link was appended.
    pub timestamp: Timestamp,
}

/// The fixed 32-byte on-disk form of one link.
pub open spec fn link_bytes(l: RecordLink) -> Seq<u8> {
    id_bytes(l.id) + ts_bytes(l.timestamp)
}

/// The link read back from its 32-byte form.
pub open spec fn link_from(s: Seq<u8>) -> RecordLink
    recommends
        s.len() == 32,
{
    RecordLink { id: id_from(s.subrange(0, 16)), timestamp: ts_from(s.subrange(16, 32)) }
}

/// Reading a link's bytes back yields the link.
pub proof fn lemma_link_roundtrip(l: RecordLink)
    ensures
        link_bytes(l).len() == 32,
        link_from(link_bytes(l)) == l,
{
    crate::record::lemma_id_roundtrip(l.id);
    crate::record::lemma_ts_roundtrip(l.timestamp);
    assert(link_bytes(l).subrange(0, 16) =~= id_bytes(l.id));
    assert(link_bytes(l).subrange(16, 32) =~= ts_bytes(l.timestamp));
}

/// The concatenation of the links' fixed-width encodings.
pub open spec fn links_concat(ls: Seq<RecordLink>) -> Seq<u8>
    decreases ls.len(),
{
    if ls.len() == 0 {
        Seq::empty()
    } else {
        link_bytes(ls[0]) + links_concat(ls.drop_first())
    }
}

/// Each link's encoding sits at its fixed offset in the concatenation.
pub proof fn lemma_links_concat_parts(ls: Seq<RecordLink>)
    ensures
        links_concat(ls).len() == 32 * ls.len(),
        forall|i: int|
            0 <= i < ls.len() ==> links_concat(ls).subrange(32 * i, 32 * i + 32) == link_bytes(
                ls[i],
            ),
    decreases ls.len(),
{
    if ls.len() > 0 {
        lemma_links_concat_parts(ls.drop_first());
        lemma_link_roundtrip(ls[0]);
        assert forall|i: int|
            0 <= i < ls.len() implies links_concat(ls).subrange(32 * i, 32 * i + 32) == link_bytes(
            ls[i],
        ) by {
            if i == 0 {
                assert(links_concat(ls).subrange(0, 32) =~= link_bytes(ls[0]));
            } else {
                assert(links_concat(ls).subrange(32 * i, 32 * i + 32) =~= links_concat(
                    ls.drop_first(),
                ).subrange(32 * (i - 1), 32 * (i - 1) + 32));
                assert(ls.drop_first()[i - 1] == ls[i]);
            }
        }
    }
}

/// Appending one link extends the concatenation by that link's bytes.
pub proof fn lemma_links_concat_snoc(ls: Seq<RecordLink>, l: RecordLink)
    ensures
        links_concat(ls.push(l)) == links_concat(ls) + link_bytes(l),
    decreases ls.len(),
{
    let p = ls.push(l);
    if ls.len() == 0 {
        assert(p[0] == l);
        assert(p.drop_first() =~= Seq::<RecordLink>::empty());
        assert(links_concat(p.drop_first()) == Seq::<u8>::empty());
        assert(links_concat(p) == link_bytes(l) + Seq::<u8>::empty());
        assert(links_concat(ls) == Seq::<u8>::empty());
        assert(link_bytes(l) + Seq::<u8>::empty() =~= Seq::<u8>::empty() + link_bytes(l));
    } else {
        lemma_links_concat_snoc(ls.drop_first(), l);
        assert(p[0] == ls[0]);
        assert(p.drop_first() =~= ls.drop_first().push(l));
        assert(links_concat(p) == link_bytes(ls[0]) + links_concat(ls.drop_first().push(l)));
        assert(links_concat(p) == link_bytes(ls[0]) + (links_concat(ls.drop_first())
            + link_bytes(l)));
        assert(link_bytes(ls[0]) + (links_concat(ls.drop_first()) + link_bytes(l)) =~= (link_bytes(
            ls[0],
        ) + links_concat(ls.drop_first())) + link_bytes(l));
        assert(links_concat(ls) == link_bytes(ls[0]) + links_concat(ls.drop_first()));
    }
}

/// The on-disk encoding of a `records` sequence: the number of links, then
/// each link's fixed-width form.
pub open spec fn links_bytes(ls: Seq<RecordLink>) -> Seq<u8> {
    le64(ls.len() as u64) + links_concat(ls)
}

/// The links read back from `s`, or `None` when `s` is not a well-formed
/// encoding (too short for the count, or a length that does not match the
/// count).
pub open spec fn links_from(s: Seq<u8>) -> Option<Seq<RecordLink>> {
    if s.len() < 8 {
        None
    } else {
        let n = le64_val(s.subrange(0, 8)) as int;
        if s.len() != 8 + 32 * n {
            None
        } else {
            Some(Seq::new(n as nat, |i: int| link_from(s.subrange(8 + 32 * i, 8 + 32 * i + 32))))
        }
    }
}

/// A byte string shorter than the minimum links encoding never decodes
/// into record links.
pub proof fn lemma_short_links_rejected(s: Seq<u8>)
    requires
        s.len() < 8,
    ensures
        links_from(s) is None,
{
}

/// Decoding an encoded `records` sequence reproduces the same sequence:
/// same elements, same order.
pub proof fn lemma_links_roundtrip(ls: Seq<RecordLink>)
    requires
        ls.len() <= u64::MAX,
    ensures
        links_from(links_bytes(ls)) == Some(ls),
{
    crate::codec::lemma_le64_roundtrip(ls.len() as u64);
    lemma_links_concat_parts(ls);
    let s = links_bytes(ls);
    assert(s.subrange(0, 8) =~= le64(ls.len() as u64));
    assert(s.len() == 8 + 32 * ls.len());
    let n = ls.len() as int;
    let back = Seq::new(ls.len(), |i: int| link_from(s.subrange(8 + 32 * i, 8 + 32 * i + 32)));
    assert forall|i: int| 0 <= i < n implies back[i] == ls[i] by {
        assert(s.subrange(8 + 32 * i, 8 + 32 * i + 32) =~= links_concat(ls).subrange(
            32 * i,
            32 * i + 32,
        ));
        lemma_link_roundtrip(ls[i]);
    }
    assert(back =~= ls);
}

/// An index for an entity.
#[derive(Debug)]
pub struct Index {
    /// The identifier of the entity being indexed.
    pub id: Id,
    /// The ordered record links; under correct operation their timestamps
    /// are non-decreasing in index order.
    pub records: Vec<RecordLink>,
}

impl Index {
    /// Creates a new index with a fresh random identifier and no record
    /// links.
    pub fn new() -> (r: Index)
        ensures
            r.records@ == Seq::<RecordLink>::empty(),
    {
        Index { id: Id::fresh(), records: Vec::new() }
    }

    /// Appends a link for `id` stamped with the given timestamp.
    pub fn append_record_at(&mut self, id: Id, ts: Timestamp)
        ensures
            final(self).id == old(self).id,
            final(self).records@ == old(self).records@.push(RecordLink { id, timestamp: ts }),
    {
        self.records.push(RecordLink { id, timestamp: ts });
    }

    /// Appends a link for `id` stamped with the current wall-clock time.
    pub fn append_record(&mut self, id: Id)
        ensures
            final(self).id == old(self).id,
            exists|t: Timestamp|
                final(self).records@ == old(self).records@.push(
                    RecordLink { id, timestamp: t },
                ),
    {
        let ts = now_timestamp();
        self.append_record_at(id, ts);
        proof {
            assert(final(self).records@ == old(self).records@.push(
                RecordLink { id, timestamp: ts },
            ));
        }
    }

    /// Creates an index from an entity identifier and stored bytes,
    /// deserializing the record links; fails with a decode error on
    /// malformed bytes.
    pub fn decode(id: Id, val: &[u8]) -> (r: StorageResult<Index>)
        ensures
            r is Ok <==> links_from(val@) is Some,
            r is Ok ==> r->Ok_0.id == id && links_from(val@) == Some(r->Ok_0.records@),
            r is Err ==> r->Err_0.kind == ErrorKind::Decode,
    {
        let n = val.len();
        if n < 8 {
            return Err(StorageError::decode_error());
        }
        let cu = read_u64(val, 0);
        let m = (n - 8) as u64;
        if m % 32 != 0 || m / 32 != cu {
            proof {
                vstd::arithmetic::div_mod::lemma_fundamental_div_mod(m as int, 32);
                assert(links_from(val@) is None);
            }
            return Err(StorageError::decode_error());
        }
        proof {
            vstd::arithmetic::div_mod::lemma_fundamental_div_mod(m as int, 32);
        }
        let c = cu as usize;
        let ghost target = links_from(val@)->Some_0;
        let mut records: Vec<RecordLink> = Vec::new();
        let mut i: usize = 0;
        while i < c
            invariant
                i <= c,
                n == val@.len(),
                n == 8 + 32 * c,
                cu == c,
                links_from(val@) == Some(target),
                target.len() == c,
                records@ == target.subrange(0, i as int),
            decreases c - i,
        {
            let off = 8 + 32 * i;
            let lid = Id::read_at(val, off);
            let lts = read_ts_at(val, off + 16);
            proof {
                let block = val@.subrange(off as int, off as int + 32);
                assert(block.subrange(0, 16) =~= val@.subrange(off as int, off as int + 16));
                assert(block.subrange(16, 32) =~= val@.subrange(off as int + 16, off as int + 32));
                assert(target[i as int] == link_from(block));
            }
            records.push(RecordLink { id: lid, timestamp: lts });
            proof {
                assert(records@ =~= target.subrange(0, i + 1));
            }
            i = i + 1;
        }
        proof {
            assert(records@ =~= target);
        }
        Ok(Index { id, records })
    }

    /// Encodes the record links of this index into bytes; the identifier is
    /// not part of the wire form, since it is already the storage key.
    pub fn encode(&self) -> (r: Vec<u8>)
        ensures
            r@ == links_bytes(self.records@),
    {
        encode_links(&self.records)
    }
}

/// Encodes an ordered list of record links into bytes.
pub fn encode_links(records: &Vec<RecordLink>) -> (r: Vec<u8>)
    ensures
        r@ == links_bytes(records@),
{
    let mut out: Vec<u8> = Vec::new();
    push_u64(&mut out, records.len() as u64);
    let mut i: usize = 0;
    while i < records.len()
        invariant
            i <= records@.len(),
            out@ == le64(records@.len() as u64) + links_concat(records@.subrange(0, i as int)),
        decreases records@.len() - i,
    {
        let l = records[i];
        l.id.push_onto(&mut out);
        push_ts(&mut out, l.timestamp);
        proof {
            let prefix = records@.subrange(0, i as int);
            lemma_links_concat_snoc(prefix, records@[i as int]);
            assert(prefix.push(records@[i as int]) =~= records@.subrange(0, i + 1));
            assert(out@ =~= le64(records@.len() as u64) + links_concat(
                records@.subrange(0, i + 1),
            ));
        }
        i = i + 1;
    }
    proof {
        assert(records@.subrange(0, records@.len() as int) =~= records@);
    }
    out
}

/// The links after appending each (identifier, timestamp) pair in order,
/// one at a time.
pub open spec fn appended_all(ls: Seq<RecordLink>, pairs: Seq<(Id, Timestamp)>) -> Seq<RecordLink>
    decreases pairs.len(),
{
    if pairs.len() == 0 {
        ls
    } else {
        appended_all(ls.push(RecordLink { id: pairs[0].0, timestamp: pairs[0].1 }), pairs.drop_first())
    }
}

/// Appending pairs one at a time concatenates their links onto the list.
pub proof fn lemma_appended_all(ls: Seq<RecordLink>, pairs: Seq<(Id, Timestamp)>)
    ensures
        appended_all(ls, pairs) == ls + pairs.map_values(
            |p: (Id, Timestamp)| RecordLink { id: p.0, timestamp: p.1 },
        ),
    decreases pairs.len(),
{
    let f = |p: (Id, Timestamp)| RecordLink { id: p.0, timestamp: p.1 };
    if pairs.len() == 0 {
        assert(appended_all(ls, pairs) =~= ls + pairs.map_values(f));
    } else {
        let ls2 = ls.push(f(pairs[0]));
        lemma_appended_all(ls2, pairs.drop_first());
        assert(appended_all(ls, pairs) == ls2 + pairs.drop_first().map_values(f));
        assert(ls2 + pairs.drop_first().map_values(f) =~= ls + pairs.map_values(f));
    }
}

/// Appending N record identifiers in sequence to an index with no prior
/// links yields a `records` list of length N that carries exactly those
/// identifiers, in order, with the timestamps they were stamped with; when
/// the stamped timestamps are non-decreasing, the stored timestamps are
/// non-decreasing in index order.  (The wall clock is not monotonic, so a
/// stamping in which time steps backwards is excluded.)
pub proof fn lemma_append_ordering(pairs: Seq<(Id, Timestamp)>)
    requires
        forall|i: int, j: int|
            0 <= i <= j < pairs.len() ==> ts_le(#[trigger] pairs[i].1, #[trigger] pairs[j].1),
    ensures
        appended_all(Seq::empty(), pairs).len() == pairs.len(),
        forall|i: int|
            0 <= i < pairs.len() ==> (#[trigger] appended_all(Seq::empty(), pairs)[i]).id
                == pairs[i].0 && appended_all(Seq::empty(), pairs)[i].timestamp == pairs[i].1,
        forall|i: int, j: int|
            0 <= i <= j < pairs.len() ==> ts_le(
                #[trigger] appended_all(Seq::empty(), pairs)[i].timestamp,
                #[trigger] appended_all(Seq::empty(), pairs)[j].timestamp,
            ),
{
    lemma_appended_all(Seq::empty(), pairs);
    let f = |p: (Id, Timestamp)| RecordLink { id: p.0, timestamp: p.1 };
    assert(appended_all(Seq::empty(), pairs) =~= pairs.map_values(f));
}

} // verus!
