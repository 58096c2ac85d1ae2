//! The keyspace and the shared server state.
//!
//! A value record is a tagged union over integer, byte string, and stream,
//! with an optional expiry: an absolute millisecond deadline or a marker
//! for a record born expired. Expiry is lazy; readers test it against the
//! clock value they are handed. The database holds the keyspace, the
//! replication-state table, the replica registry, and the acknowledgement
//! counter, all modelled as maps and sequences in the contracts.

use vstd::prelude::*;

use crate::kv::assoc_find;
use crate::kv::kv_map;
use crate::kv::lemma_kv_map_absent;
use crate::kv::lemma_kv_map_index;
use crate::kv::lemma_kv_map_push;
use crate::kv::lemma_kv_map_remove;
use crate::kv::lemma_kv_map_update;
use crate::kv::unique_keys;
use crate::resp::dec_digits;
use crate::stream::EntryView;
use crate::stream::Stream;
use vstd::pervasive::VecAdditionalExecFns;

verus! {

/// When a record stops being visible: never, at an absolute millisecond
/// deadline, or immediately (a record born expired).
#[derive(Clone, Copy, PartialEq, Eq, Structural, Debug)]
pub enum Expiry {
    Never,
    At(u64),
    Expired,
}

/// Whether a record with expiry `e` is expired at time `now_ms`.
pub open spec fn expired_at(e: Expiry, now_ms: u64) -> bool {
    match e {
        Expiry::Never => false,
        Expiry::At(deadline) => now_ms >= deadline,
        Expiry::Expired => true,
    }
}

/// The deadline carried by a record created at `now_ms` with the given
/// time to live: `now + ttl`, saturating; zero means born expired.
pub open spec fn expiry_of(ttl_millis: Option<u64>, now_ms: u64) -> Expiry {
    match ttl_millis {
        None => Expiry::Never,
        Some(ttl) => if ttl == 0 {
            Expiry::Expired
        } else if ttl > u64::MAX - now_ms {
            Expiry::At(u64::MAX)
        } else {
            Expiry::At((now_ms + ttl) as u64)
        },
    }
}

/// A value a key can hold.
pub enum RedisValueType {
    IntegerValue(u64),
    StringValue(Vec<u8>),
    StreamValue(Stream),
}

/// The mathematical value of a `RedisValueType`.
pub enum ValueTypeView {
    Int(u64),
    Str(Seq<u8>),
    Stream(Seq<EntryView>),
}

impl View for RedisValueType {
    type V = ValueTypeView;

    open spec fn view(&self) -> ValueTypeView {
        match self {
            RedisValueType::IntegerValue(n) => ValueTypeView::Int(*n),
            RedisValueType::StringValue(s) => ValueTypeView::Str(s@),
            RedisValueType::StreamValue(st) => ValueTypeView::Stream(st@),
        }
    }
}

/// The bytes a value renders to in a bulk reply: the decimal numeral of
/// an integer, a byte string itself. A stream does not render.
pub open spec fn value_bytes(v: ValueTypeView) -> Seq<u8> {
    match v {
        ValueTypeView::Int(n) => dec_digits(n as nat),
        ValueTypeView::Str(s) => s,
        ValueTypeView::Stream(_) => Seq::empty(),
    }
}

impl RedisValueType {
    /// The length of the value's rendering: digits of an integer, bytes
    /// of a string, entries of a stream.
    pub fn len(&self) -> (r: usize)
        ensures
            r == (match self@ {
                ValueTypeView::Int(n) => dec_digits(n as nat).len(),
                ValueTypeView::Str(s) => s.len(),
                ValueTypeView::Stream(es) => es.len(),
            }),
    {
        match self {
            RedisValueType::IntegerValue(n) => crate::resp::format_u64(*n).len(),
            RedisValueType::StringValue(s) => s.len(),
            RedisValueType::StreamValue(st) => st.len(),
        }
    }
}

/// A value record: the value and its expiry.
pub struct RedisValue {
    pub value: RedisValueType,
    pub expiry: Expiry,
}

/// The mathematical value of a record.
pub struct RecordView {
    pub value: ValueTypeView,
    pub expiry: Expiry,
}

impl View for RedisValue {
    type V = RecordView;

    open spec fn view(&self) -> RecordView {
        RecordView { value: self.value@, expiry: self.expiry }
    }
}

impl RedisValue {
    /// A record created at `now_ms`. A time to live of zero marks the
    /// record expired from birth.
    pub fn new(value: RedisValueType, ttl_millis: Option<u64>, now_ms: u64) -> (r: Self)
        ensures
            r@.value == value@,
            r@.expiry == expiry_of(ttl_millis, now_ms),
    {
        let expiry = match ttl_millis {
            None => Expiry::Never,
            Some(ttl) => {
                if ttl == 0 {
                    Expiry::Expired
                } else if ttl > u64::MAX - now_ms {
                    Expiry::At(u64::MAX)
                } else {
                    Expiry::At(now_ms + ttl)
                }
            },
        };
        RedisValue { value, expiry }
    }

    /// Whether the record is expired at `now_ms`.
    pub fn is_expired(&self, now_ms: u64) -> (r: bool)
        ensures
            r == expired_at(self@.expiry, now_ms),
    {
        match self.expiry {
            Expiry::Never => false,
            Expiry::At(deadline) => now_ms >= deadline,
            Expiry::Expired => true,
        }
    }

    /// The value held by the record.
    pub fn get_value(&self) -> (r: &RedisValueType)
        ensures
            r@ == self@.value,
    {
        &self.value
    }

    /// The value held by the record, for modification in place.
    pub fn get_mut_value(&mut self) -> (r: &mut RedisValueType)
        ensures
            *r == old(self).value,
            final(self).value == *final(r),
            final(self).expiry == old(self).expiry,
    {
        &mut self.value
    }
}

/// A replication-state entry: a byte string or a byte counter.
pub enum ReplicationInfoValue {
    StringValue(Vec<u8>),
    ByteValue(usize),
}

/// The mathematical value of a replication-state entry.
pub enum ReplValueView {
    Str(Seq<u8>),
    Bytes(usize),
}

impl View for ReplicationInfoValue {
    type V = ReplValueView;

    open spec fn view(&self) -> ReplValueView {
        match self {
            ReplicationInfoValue::StringValue(s) => ReplValueView::Str(s@),
            ReplicationInfoValue::ByteValue(n) => ReplValueView::Bytes(*n),
        }
    }
}

impl ReplicationInfoValue {
    /// The bytes the entry renders to in a report line.
    pub fn render(&self) -> (r: Vec<u8>)
        ensures
            r@ == (match self@ {
                ReplValueView::Str(s) => s,
                ReplValueView::Bytes(n) => dec_digits(n as nat),
            }),
    {
        match self {
            ReplicationInfoValue::StringValue(s) => vstd::slice::slice_to_vec(s.as_slice()),
            ReplicationInfoValue::ByteValue(n) => crate::resp::format_u64(*n as u64),
        }
    }
}

/// One registered replica: a handle number the transport maps to its
/// connection, and the offset it last acknowledged.
#[derive(Clone, Copy, PartialEq, Eq, Structural, Debug)]
pub struct ReplicaHandle {
    pub id: u64,
    pub acked_offset: u64,
}

/// The pairs of keyspace keys and record values.
pub open spec fn store_view(s: Seq<(Vec<u8>, RedisValue)>) -> Seq<(Seq<u8>, RecordView)> {
    s.map_values(|p: (Vec<u8>, RedisValue)| (p.0@, p.1@))
}

/// The pairs of replication-state keys and values.
pub open spec fn repl_view(s: Seq<(Vec<u8>, ReplicationInfoValue)>) -> Seq<
    (Seq<u8>, ReplValueView),
> {
    s.map_values(|p: (Vec<u8>, ReplicationInfoValue)| (p.0@, p.1@))
}

/// The process-wide shared state: keyspace, replication-state table,
/// replica registry, and the barrier's acknowledgement counter.
pub struct RedisDatabase {
    pub data: Vec<(Vec<u8>, RedisValue)>,
    pub replication_info: Vec<(Vec<u8>, ReplicationInfoValue)>,
    pub slave_connections: Vec<ReplicaHandle>,
    pub ack_counter: u64,
}

impl RedisDatabase {
    /// The keyspace as a map.
    pub open spec fn data_map(&self) -> Map<Seq<u8>, RecordView> {
        kv_map(store_view(self.data@))
    }

    /// The replication-state table as a map.
    pub open spec fn repl_map(&self) -> Map<Seq<u8>, ReplValueView> {
        kv_map(repl_view(self.replication_info@))
    }

    /// Keys are unique in both tables.
    pub open spec fn wf(&self) -> bool {
        unique_keys(store_view(self.data@)) && unique_keys(repl_view(self.replication_info@))
    }

    /// An empty database.
    pub fn new() -> (r: Self)
        ensures
            r.wf(),
            r.data_map() == Map::<Seq<u8>, RecordView>::empty(),
            r.repl_map() == Map::<Seq<u8>, ReplValueView>::empty(),
            r.slave_connections@ == Seq::<ReplicaHandle>::empty(),
            r.ack_counter == 0,
    {
        let r = RedisDatabase {
            data: Vec::new(),
            replication_info: Vec::new(),
            slave_connections: Vec::new(),
            ack_counter: 0,
        };
        proof {
            assert(store_view(r.data@) =~= Seq::<(Seq<u8>, RecordView)>::empty());
            assert(repl_view(r.replication_info@) =~= Seq::<(Seq<u8>, ReplValueView)>::empty());
            assert(r.slave_connections@ =~= Seq::<ReplicaHandle>::empty());
        }
        r
    }

    /// Inserts or overwrites the record under `key`.
    pub fn insert(&mut self, key: Vec<u8>, value: RedisValue)
        requires
            old(self).wf(),
        ensures
            final(self).wf(),
            final(self).data_map() == old(self).data_map().insert(key@, value@),
            store_view(final(self).data@) == crate::kv::assoc_insert(
                store_view(old(self).data@),
                key@,
                value@,
            ),
            final(self).replication_info == old(self).replication_info,
            final(self).slave_connections == old(self).slave_connections,
            final(self).ack_counter == old(self).ack_counter,
    {
        let ghost old_pairs = store_view(self.data@);
        match assoc_find(&self.data, key.as_slice()) {
            Some(i) => {
                proof {
                    assert(old_pairs[i as int].0 == key@);
                    crate::kv::lemma_first_key_index(old_pairs, key@);
                    assert(crate::kv::first_key_index(old_pairs, key@) == Some(i as int));
                }
                self.data.set(i, (key, value));
                proof {
                    assert(store_view(self.data@) =~= old_pairs.update(
                        i as int,
                        (old_pairs[i as int].0, value@),
                    ));
                    lemma_kv_map_update(old_pairs, i as int, value@);
                    assert(old_pairs.update(i as int, (old_pairs[i as int].0, value@)) =~= old_pairs.update(
                        i as int,
                        (key@, value@),
                    ));
                }
            },
            None => {
                proof {
                    crate::kv::lemma_first_key_index(old_pairs, key@);
                    assert(crate::kv::first_key_index(old_pairs, key@) is None);
                }
                self.data.push((key, value));
                proof {
                    assert(store_view(self.data@) =~= old_pairs.push((key@, value@)));
                    assert(forall|j: int|
                        0 <= j < old_pairs.len() ==> (#[trigger] old_pairs[j]).0 != key@);
                    lemma_kv_map_push(old_pairs, key@, value@);
                }
            },
        }
    }

    /// The record under `key`, if any.
    pub fn get(&self, key: &[u8]) -> (r: Option<&RedisValue>)
        requires
            self.wf(),
        ensures
            match r {
                Some(v) => self.data_map().contains_key(key@) && v@ == self.data_map()[key@],
                None => !self.data_map().contains_key(key@),
            },
    {
        match assoc_find(&self.data, key) {
            Some(i) => {
                proof {
                    lemma_kv_map_index(store_view(self.data@), i as int);
                }
                Some(&self.data[i].1)
            },
            None => {
                proof {
                    lemma_kv_map_absent(store_view(self.data@), key@);
                }
                None
            },
        }
    }

    /// Removes the record under `key`, if any.
    pub fn remove(&mut self, key: &[u8])
        requires
            old(self).wf(),
        ensures
            final(self).wf(),
            final(self).data_map() == old(self).data_map().remove(key@),
            store_view(final(self).data@) == crate::kv::assoc_remove(
                store_view(old(self).data@),
                key@,
            ),
            final(self).replication_info == old(self).replication_info,
            final(self).slave_connections == old(self).slave_connections,
            final(self).ack_counter == old(self).ack_counter,
    {
        let ghost old_pairs = store_view(self.data@);
        match assoc_find(&self.data, key) {
            Some(i) => {
                proof {
                    assert(old_pairs[i as int].0 == key@);
                    crate::kv::lemma_first_key_index(old_pairs, key@);
                    assert(crate::kv::first_key_index(old_pairs, key@) == Some(i as int));
                }
                self.data.remove(i);
                proof {
                    assert(store_view(self.data@) =~= old_pairs.remove(i as int));
                    lemma_kv_map_remove(old_pairs, i as int);
                }
            },
            None => {
                proof {
                    crate::kv::lemma_first_key_index(old_pairs, key@);
                    lemma_kv_map_absent(old_pairs, key@);
                    assert(old(self).data_map().remove(key@) =~= old(self).data_map());
                }
            },
        }
    }

    /// Sets one replication-state entry.
    pub fn update_replication_info(&mut self, key: Vec<u8>, value: ReplicationInfoValue)
        requires
            old(self).wf(),
        ensures
            final(self).wf(),
            final(self).repl_map() == old(self).repl_map().insert(key@, value@),
            repl_view(final(self).replication_info@) == crate::kv::assoc_insert(
                repl_view(old(self).replication_info@),
                key@,
                value@,
            ),
            final(self).data == old(self).data,
            final(self).slave_connections == old(self).slave_connections,
            final(self).ack_counter == old(self).ack_counter,
    {
        let ghost old_pairs = repl_view(self.replication_info@);
        match assoc_find(&self.replication_info, key.as_slice()) {
            Some(i) => {
                proof {
                    assert(old_pairs[i as int].0 == key@);
                    crate::kv::lemma_first_key_index(old_pairs, key@);
                    assert(crate::kv::first_key_index(old_pairs, key@) == Some(i as int));
                }
                self.replication_info.set(i, (key, value));
                proof {
                    assert(repl_view(self.replication_info@) =~= old_pairs.update(
                        i as int,
                        (old_pairs[i as int].0, value@),
                    ));
                    lemma_kv_map_update(old_pairs, i as int, value@);
                    assert(old_pairs.update(i as int, (old_pairs[i as int].0, value@)) =~= old_pairs.update(
                        i as int,
                        (key@, value@),
                    ));
                }
            },
            None => {
                proof {
                    crate::kv::lemma_first_key_index(old_pairs, key@);
                    assert(crate::kv::first_key_index(old_pairs, key@) is None);
                }
                self.replication_info.push((key, value));
                proof {
                    assert(repl_view(self.replication_info@) =~= old_pairs.push((key@, value@)));
                    assert(forall|j: int|
                        0 <= j < old_pairs.len() ==> (#[trigger] old_pairs[j]).0 != key@);
                    lemma_kv_map_push(old_pairs, key@, value@);
                }
            },
        }
    }

    /// The replication-state entry under `key`, if any.
    pub fn get_replication_info(&self, key: &[u8]) -> (r: Option<&ReplicationInfoValue>)
        requires
            self.wf(),
        ensures
            match r {
                Some(v) => self.repl_map().contains_key(key@) && v@ == self.repl_map()[key@],
                None => !self.repl_map().contains_key(key@),
            },
    {
        match assoc_find(&self.replication_info, key) {
            Some(i) => {
                proof {
                    lemma_kv_map_index(repl_view(self.replication_info@), i as int);
                }
                Some(&self.replication_info[i].1)
            },
            None => {
                proof {
                    lemma_kv_map_absent(repl_view(self.replication_info@), key@);
                }
                None
            },
        }
    }
}

/// Whether `key` holds an unexpired record at `now_ms`.
pub open spec fn live(m: Map<Seq<u8>, RecordView>, key: Seq<u8>, now_ms: u64) -> bool {
    m.contains_key(key) && !expired_at(m[key].expiry, now_ms)
}

} // verus!
