//! Storage engine: two keyed byte spaces and the write/read protocol over
//! them.
//!
//! The data space maps a record's identifier to the record's encoded bytes.
//! The index space maps an entity's identifier to the encoded,
//! append-ordered list of record links for that entity; it grows only
//! through the merge operator, which folds newly appended record
//! identifiers into the stored list.
//!
//! When a record is written, the engine puts the encoded record into the
//! data space under the record's own identifier, then submits the
//! identifier as a merge operand against the index space under the entity's
//! identifier.  Reads walk the entity's index in order and fetch each
//! linked record from the data space.
use crate::errors::{ErrorKind, StorageError, StorageResult};
use crate::index::{lemma_links_roundtrip, links_bytes, links_from, Index, RecordLink};
use crate::record::{id_bytes, id_from, now_timestamp, record_bytes, ts_le, Id, Record, Timestamp};
use vstd::pervasive::unreached;
use vstd::prelude::*;
use vstd::slice::slice_to_vec;

verus! {

/// One keyed byte space, held as an append-only log of entries; for a key
/// written more than once, the latest entry wins.
#[derive(Debug)]
pub(crate) struct ByteSpace {
    entries: Vec<(Id, Vec<u8>)>,
}

/// The map a log of entries holds: the latest entry for each key wins.
pub(crate) open spec fn log_map(s: Seq<(Id, Vec<u8>)>) -> Map<Id, Seq<u8>>
    decreases s.len(),
{
    if s.len() == 0 {
        Map::empty()
    } else {
        log_map(s.drop_last()).insert(s.last().0, s.last().1@)
    }
}

/// A key is in the map exactly when some entry carries it.
proof fn lemma_log_map_contains(s: Seq<(Id, Vec<u8>)>, k: Id)
    ensures
        log_map(s).contains_key(k) <==> exists|i: int| 0 <= i < s.len() && s[i].0 == k,
    decreases s.len(),
{
    if s.len() > 0 {
        lemma_log_map_contains(s.drop_last(), k);
        if log_map(s).contains_key(k) {
            if s.last().0 == k {
                assert(s[s.len() - 1].0 == k);
            } else {
                let i = choose|i: int| 0 <= i < s.drop_last().len() && s.drop_last()[i].0 == k;
                assert(s[i].0 == k);
            }
        }
        if exists|i: int| 0 <= i < s.len() && s[i].0 == k {
            let i = choose|i: int| 0 <= i < s.len() && s[i].0 == k;
            if i < s.len() - 1 {
                assert(s.drop_last()[i].0 == k);
            }
        }
    }
}

/// The entry with no later entry for its key gives the key's value.
proof fn lemma_log_map_latest(s: Seq<(Id, Vec<u8>)>, i: int, k: Id)
    requires
        0 <= i < s.len(),
        s[i].0 == k,
        forall|j: int| i < j < s.len() ==> s[j].0 != k,
    ensures
        log_map(s).contains_key(k),
        log_map(s)[k] == s[i].1@,
    decreases s.len(),
{
    if i == s.len() - 1 {
    } else {
        assert(s.drop_last()[i].0 == k);
        lemma_log_map_latest(s.drop_last(), i, k);
        assert(s.last().0 != k);
    }
}

impl ByteSpace {
    /// The map this space currently holds.
    pub(crate) closed spec fn view(&self) -> Map<Id, Seq<u8>> {
        log_map(self.entries@)
    }

    /// Creates an empty space.
    pub(crate) fn new() -> (r: ByteSpace)
        ensures
            r.view() == Map::<Id, Seq<u8>>::empty(),
    {
        ByteSpace { entries: Vec::new() }
    }

    /// Stores `v` under `k`, replacing anything the key held.
    pub(crate) fn put(&mut self, k: Id, v: Vec<u8>)
        ensures
            final(self).view() == old(self).view().insert(k, v@),
    {
        self.entries.push((k, v));
        proof {
            assert(final(self).entries@.drop_last() =~= old(self).entries@);
        }
    }

    /// The bytes held under `k`, if any.
    pub(crate) fn get(&self, k: Id) -> (r: Option<&Vec<u8>>)
        ensures
            r is Some <==> self.view().contains_key(k),
            r is Some ==> r->Some_0@ == self.view()[k],
    {
        let n = self.entries.len();
        let mut i: usize = n;
        while i > 0
            invariant
                i <= n,
                n == self.entries@.len(),
                forall|j: int| i <= j < n ==> self.entries@[j].0 != k,
            decreases i,
        {
            i = i - 1;
            if self.entries[i].0 == k {
                proof {
                    assert(self.entries@[i as int].0 == k);
                    lemma_log_map_latest(self.entries@, i as int, k);
                }
                return Some(&self.entries[i].1);
            }
        }
        proof {
            lemma_log_map_contains(self.entries@, k);
        }
        None
    }
}

/// The byte-string view of an optional existing value.
pub open spec fn opt_bytes(existing: Option<&Vec<u8>>) -> Option<Seq<u8>> {
    match existing {
        Some(v) => Some(v@),
        None => None,
    }
}

/// The byte-string views of a list of byte vectors.
pub open spec fn byte_views(s: Seq<Vec<u8>>) -> Seq<Seq<u8>> {
    s.map_values(|v: Vec<u8>| v@)
}

/// Whether the merge operator accepts its inputs: the key must be a
/// 16-byte identifier, the existing value (when present) must decode into
/// record links, and every operand must be a 16-byte record identifier.
pub open spec fn merge_accepts(key: Seq<u8>, existing: Option<Seq<u8>>, ops: Seq<Seq<u8>>) -> bool {
    &&& key.len() == 16
    &&& existing is Some ==> links_from(existing->Some_0) is Some
    &&& forall|i: int| 0 <= i < ops.len() ==> (#[trigger] ops[i]).len() == 16
}

/// The record links an accepted merge produces: the existing links, then
/// one link per operand in the order presented, stamped with the given
/// timestamps.
pub open spec fn merged_links(
    existing: Option<Seq<u8>>,
    ops: Seq<Seq<u8>>,
    tss: Seq<Timestamp>,
) -> Seq<RecordLink> {
    let base = if existing is Some {
        links_from(existing->Some_0)->Some_0
    } else {
        Seq::empty()
    };
    base + Seq::new(ops.len(), |i: int| RecordLink { id: id_from(ops[i]), timestamp: tss[i] })
}

/// The merge operator: folds newly appended record identifiers into an
/// entity's serialized index, appending one link per operand in the order
/// presented, each stamped with a fresh wall-clock timestamp.
///
/// It is a pure function of its inputs but for drawing those timestamps,
/// and it is invoked whenever the index space combines a base value with
/// pending operands.  A key or operand that is not a 16-byte identifier,
/// or an existing value that does not decode, fails the merge (`None`)
/// rather than corrupting the index.
pub fn merge_index_value(key: &[u8], existing: Option<&Vec<u8>>, operands: &Vec<Vec<u8>>) -> (r:
    Option<Vec<u8>>)
    ensures
        r is Some <==> merge_accepts(key@, opt_bytes(existing), byte_views(operands@)),
        r is Some ==> exists|tss: Seq<Timestamp>|
            tss.len() == operands@.len() && r->Some_0@ == links_bytes(
                merged_links(opt_bytes(existing), byte_views(operands@), tss),
            ),
{
    if key.len() != 16 {
        return None;
    }
    let entity_id = Id::read_at(key, 0);
    let mut idx = match existing {
        None => Index { id: entity_id, records: Vec::new() },
        Some(e) => match Index::decode(entity_id, e.as_slice()) {
            Ok(i) => i,
            Err(_) => {
                return None;
            },
        },
    };
    let ghost base = idx.records@;
    let ghost mut tss: Seq<Timestamp> = Seq::empty();
    let mut j: usize = 0;
    while j < operands.len()
        invariant
            j <= operands@.len(),
            tss.len() == j,
            forall|i: int| 0 <= i < j ==> (#[trigger] byte_views(operands@)[i]).len() == 16,
            idx.records@ == base + Seq::new(
                j as nat,
                |i: int| RecordLink { id: id_from(byte_views(operands@)[i]), timestamp: tss[i] },
            ),
        decreases operands@.len() - j,
    {
        let op = &operands[j];
        if op.len() != 16 {
            proof {
                assert(byte_views(operands@)[j as int].len() != 16);
            }
            return None;
        }
        let oid = Id::read_at(op.as_slice(), 0);
        let ts = now_timestamp();
        idx.append_record_at(oid, ts);
        proof {
            tss = tss.push(ts);
            assert(op@.subrange(0, 16) =~= op@);
            assert(idx.records@ =~= base + Seq::new(
                (j + 1) as nat,
                |i: int| RecordLink { id: id_from(byte_views(operands@)[i]), timestamp: tss[i] },
            ));
        }
        j = j + 1;
    }
    let out = idx.encode();
    proof {
        assert(idx.records@ == merged_links(opt_bytes(existing), byte_views(operands@), tss));
    }
    Some(out)
}

/// The links an entity currently has in an index map, or none at all.
pub open spec fn links_or_empty(m: Map<Id, Seq<RecordLink>>, k: Id) -> Seq<RecordLink> {
    if m.contains_key(k) {
        m[k]
    } else {
        Seq::empty()
    }
}

/// The storage engine: owns the data space and the index space and
/// abstracts the details of storage away as much as possible.
#[derive(Debug)]
pub struct Storage {
    data: ByteSpace,
    index: ByteSpace,
}

impl Storage {
    /// The data space as a map: each written record's identifier maps to
    /// the record's encoded bytes.
    pub closed spec fn data_view(&self) -> Map<Id, Seq<u8>> {
        self.data.view()
    }

    /// The index space, decoded: each entity that has an index maps to its
    /// ordered record links.
    pub closed spec fn index_view(&self) -> Map<Id, Seq<RecordLink>> {
        Map::new(
            |k: Id| self.index.view().contains_key(k),
            |k: Id| links_from(self.index.view()[k])->Some_0,
        )
    }

    /// The decoded links stored for `k`.
    pub closed spec fn stored_links(&self, k: Id) -> Seq<RecordLink> {
        links_from(self.index.view()[k])->Some_0
    }

    /// Well-formed: every stored index value decodes into record links,
    /// and every linked record is present in the data space.
    pub closed spec fn wf(&self) -> bool {
        &&& forall|k: Id| #[trigger]
            self.index.view().contains_key(k) ==> links_from(self.index.view()[k]) is Some
        &&& forall|k: Id, i: int|
            #![trigger self.stored_links(k)[i]]
            self.index.view().contains_key(k) && 0 <= i < self.stored_links(k).len()
                ==> self.data.view().contains_key(self.stored_links(k)[i].id)
    }

    /// Creates a new storage engine with empty data and index spaces.
    pub fn new() -> (r: StorageResult<Storage>)
        ensures
            r is Ok,
            r->Ok_0.wf(),
            r->Ok_0.data_view() == Map::<Id, Seq<u8>>::empty(),
            r->Ok_0.index_view() == Map::<Id, Seq<RecordLink>>::empty(),
    {
        let s = Storage { data: ByteSpace::new(), index: ByteSpace::new() };
        proof {
            assert(s.index_view() =~= Map::<Id, Seq<RecordLink>>::empty());
        }
        Ok(s)
    }

    /// Writes a record: puts the encoded record into the data space under
    /// the record's own identifier, then merges that identifier onto the
    /// tail of the entity's index, stamped with the current wall-clock
    /// time.
    #[verifier::rlimit(50)]
    pub fn write(&mut self, record: &Record) -> (r: StorageResult<()>)
        requires
            old(self).wf(),
        ensures
            final(self).wf(),
            r is Ok,
            final(self).data_view() == old(self).data_view().insert(
                record.id,
                record_bytes(record@),
            ),
            exists|t: Timestamp|
                final(self).index_view() == old(self).index_view().insert(
                    record.entity_id,
                    links_or_empty(old(self).index_view(), record.entity_id).push(
                        RecordLink { id: record.id, timestamp: t },
                    ),
                ),
    {
        let bytes = record.encode();
        self.data.put(record.id, bytes);
        let key_bytes = record.entity_id.to_bytes();
        let mut operands: Vec<Vec<u8>> = Vec::new();
        operands.push(record.id.to_bytes());
        proof {
            crate::record::lemma_id_roundtrip(record.entity_id);
            crate::record::lemma_id_roundtrip(record.id);
        }
        let ghost eid = record.entity_id;
        let ghost ex = opt_bytes_of(old(self).index.view(), eid);
        let ghost ops = seq![id_bytes(record.id)];
        proof {
            assert(byte_views(operands@) =~= ops);
        }
        let existing = self.index.get(record.entity_id);
        proof {
            assert(opt_bytes(existing) == ex);
            assert(merge_accepts(key_bytes@, ex, ops));
        }
        let merged_opt = merge_index_value(key_bytes.as_slice(), existing, &operands);
        let merged = match merged_opt {
            Some(m) => m,
            None => unreached(),
        };
        proof {
            vstd::std_specs::vec::axiom_spec_len(&merged);
        }
        let ghost tss = choose|tss: Seq<Timestamp>|
            tss.len() == 1 && merged@ == links_bytes(merged_links(ex, ops, tss));
        let ghost links = merged_links(ex, ops, tss);
        proof {
            assert(tss.len() == 1 && merged@ == links_bytes(merged_links(ex, ops, tss)));
            crate::index::lemma_links_concat_parts(links);
            assert(merged@.len() == 8 + 32 * links.len());
            lemma_links_roundtrip(links);
            assert(links_from(merged@) == Some(links));
        }
        self.index.put(record.entity_id, merged);
        proof {
            let link = RecordLink { id: record.id, timestamp: tss[0] };
            assert(Seq::new(1, |i: int| RecordLink { id: id_from(ops[i]), timestamp: tss[i] })
                =~= seq![link]);
            assert(links =~= links_or_empty(old(self).index_view(), eid).push(link));
            assert(final(self).index.view() == old(self).index.view().insert(eid, merged@));
            assert(final(self).index_view() =~= old(self).index_view().insert(
                eid,
                links_or_empty(old(self).index_view(), eid).push(link),
            ));
            assert forall|k: Id, i: int|
                #![trigger final(self).stored_links(k)[i]]
                final(self).index.view().contains_key(k) && 0 <= i < final(self).stored_links(
                    k,
                ).len() implies final(self).data.view().contains_key(
                final(self).stored_links(k)[i].id,
            ) by {
                if k == eid {
                    assert(final(self).stored_links(k) == links);
                    if i < links.len() - 1 {
                        assert(old(self).index.view().contains_key(k));
                        assert(old(self).stored_links(k)[i] == links[i]);
                    } else {
                        assert(links[i] == link);
                    }
                } else {
                    assert(old(self).index.view().contains_key(k));
                    assert(old(self).stored_links(k)[i] == final(self).stored_links(k)[i]);
                }
            }
        }
        Ok(())
    }

    /// Retrieves the index for an entity; fails with a not-found error
    /// exactly when the entity has no index yet.
    pub fn get_index(&self, entity_id: Id) -> (r: StorageResult<Index>)
        requires
            self.wf(),
        ensures
            r is Ok <==> self.index_view().contains_key(entity_id),
            r is Ok ==> r->Ok_0.id == entity_id && r->Ok_0.records@ == self.index_view()[entity_id],
            r is Err ==> r->Err_0.kind == ErrorKind::NotFound,
    {
        match self.index.get(entity_id) {
            None => Err(StorageError::not_found()),
            Some(v) => match Index::decode(entity_id, v.as_slice()) {
                Ok(idx) => Ok(idx),
                Err(_) => unreached(),
            },
        }
    }

    /// Reads all records for an entity as raw encoded byte strings, in
    /// index order; the caller converts each into a `Record`.  Fails with a
    /// not-found error exactly when the entity has no index.
    pub fn read(&self, entity_id: Id) -> (r: StorageResult<Vec<Vec<u8>>>)
        requires
            self.wf(),
        ensures
            r is Ok <==> self.index_view().contains_key(entity_id),
            r is Ok ==> {
                let links = self.index_view()[entity_id];
                &&& r->Ok_0@.len() == links.len()
                &&& forall|i: int|
                    0 <= i < links.len() ==> self.data_view().contains_key(links[i].id) && (
                    #[trigger] r->Ok_0@[i])@ == self.data_view()[links[i].id]
            },
            r is Err ==> r->Err_0.kind == ErrorKind::NotFound,
    {
        let idx = match self.get_index(entity_id) {
            Ok(i) => i,
            Err(err) => {
                return Err(err);
            },
        };
        let ghost links = self.index_view()[entity_id];
        let mut records: Vec<Vec<u8>> = Vec::new();
        let mut i: usize = 0;
        while i < idx.records.len()
            invariant
                self.wf(),
                i <= idx.records@.len(),
                idx.records@ == links,
                self.index_view().contains_key(entity_id),
                links == self.stored_links(entity_id),
                self.index.view().contains_key(entity_id),
                records@.len() == i,
                forall|j: int|
                    0 <= j < i ==> self.data_view().contains_key(links[j].id) && (
                    #[trigger] records@[j])@ == self.data_view()[links[j].id],
            decreases idx.records@.len() - i,
        {
            let link = idx.records[i];
            match self.data.get(link.id) {
                Some(v) => {
                    records.push(slice_to_vec(v.as_slice()));
                },
                None => {
                    proof {
                        assert(self.stored_links(entity_id)[i as int].id == link.id);
                    }
                    unreached()
                },
            }
            i = i + 1;
        }
        Ok(records)
    }
}

/// Write/read consistency: after a first write for an entity — the data
/// space gaining the record's encoding under the record's identifier, the
/// entity's index gaining its first link — the entity's index holds exactly
/// the one link just written, and the data space holds, under that link's
/// identifier, bytes that decode back to the written record.
pub proof fn lemma_write_read_consistent(
    data: Map<Id, Seq<u8>>,
    index: Map<Id, Seq<RecordLink>>,
    rv: crate::record::RecordView,
    t: Timestamp,
)
    requires
        !index.contains_key(rv.entity_id),
        vstd::utf8::encode_utf8(rv.entity_type).len() <= u64::MAX,
        vstd::utf8::encode_utf8(rv.event_name).len() <= u64::MAX,
        vstd::utf8::encode_utf8(rv.event_data).len() <= u64::MAX,
    ensures
        ({
            let link = RecordLink { id: rv.id, timestamp: t };
            let data2 = data.insert(rv.id, record_bytes(rv));
            let index2 = index.insert(rv.entity_id, links_or_empty(index, rv.entity_id).push(link));
            &&& index2.contains_key(rv.entity_id)
            &&& index2[rv.entity_id].len() == 1
            &&& index2[rv.entity_id][0] == link
            &&& data2.contains_key(link.id)
            &&& crate::record::record_from(data2[link.id]) == Some(rv)
        }),
{
    crate::record::lemma_record_roundtrip(rv);
    let link = RecordLink { id: rv.id, timestamp: t };
    assert(links_or_empty(index, rv.entity_id).push(link) =~= seq![link]);
}

/// Independence of entities: a write for one entity never changes another
/// entity's index.
pub proof fn lemma_entities_independent(
    index: Map<Id, Seq<RecordLink>>,
    e1: Id,
    e2: Id,
    link: RecordLink,
)
    requires
        e1 != e2,
    ensures
        ({
            let index2 = index.insert(e1, links_or_empty(index, e1).push(link));
            &&& index2.contains_key(e2) <==> index.contains_key(e2)
            &&& index.contains_key(e2) ==> index2[e2] == index[e2]
        }),
{
}

/// Two writes for the same entity in sequence yield an index of length
/// two, the first write's link first; when the second stamp is not earlier
/// than the first, the stored timestamps are in order.  (The wall clock is
/// not monotonic, so a pair of stamps in which time steps backwards between
/// the writes is excluded.)
pub proof fn lemma_same_entity_two_writes(
    index: Map<Id, Seq<RecordLink>>,
    e: Id,
    l1: RecordLink,
    l2: RecordLink,
)
    requires
        !index.contains_key(e),
        ts_le(l1.timestamp, l2.timestamp),
    ensures
        ({
            let index1 = index.insert(e, links_or_empty(index, e).push(l1));
            let index2 = index1.insert(e, links_or_empty(index1, e).push(l2));
            &&& index2.contains_key(e)
            &&& index2[e].len() == 2
            &&& index2[e][0] == l1
            &&& index2[e][1] == l2
            &&& ts_le(index2[e][0].timestamp, index2[e][1].timestamp)
        }),
{
}

/// The byte string stored for `k`, if the map holds one.
pub(crate) open spec fn opt_bytes_of(m: Map<Id, Seq<u8>>, k: Id) -> Option<Seq<u8>> {
    if m.contains_key(k) {
        Some(m[k])
    } else {
        None
    }
}

} // verus!
