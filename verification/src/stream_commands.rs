//! The stream commands: appending entries, range queries, and tail reads.
//!
//! Each handler mirrors, in its contract, a spec-level decision function
//! over the map view of the keyspace: which identifier an append chooses,
//! which error it raises, and the exact reply bytes of a range or tail
//! query.

use vstd::prelude::*;

use crate::codec::upper_bytes;
use crate::codec::uppercase;
use crate::commands::args_view;
use crate::database::Expiry;
use crate::database::RecordView;
use crate::database::RedisDatabase;
use crate::database::RedisValue;
use crate::database::RedisValueType;
use crate::database::ValueTypeView;
use crate::kv::bytes_eq;
use crate::kv::kv_map;
use crate::resp::array_header;
use crate::resp::ascii_bytes;
use crate::resp::bulk_reply;
use crate::resp::error_reply;
use crate::resp::push_array_header;
use crate::resp::push_bulk;
use crate::resp::resp_bulk;
use crate::resp::resp_error;
use crate::resp::str_bytes;
use crate::stream::EntryView;
use crate::stream::Stream;
use crate::stream::StreamEntry;
use crate::stream::StreamID;
use crate::stream::fields_view;
use crate::stream::id_bytes;
use crate::stream::id_lt;
use crate::stream::last_seq_at;
use crate::stream::parse_u64_ok;
use crate::stream::sel_after;
use crate::stream::sel_range;
use crate::stream::spec_parse_stream_id;
use crate::stream::stream_wf;
use crate::resp::dec_val;

verus! {

/// The identifier `0-0`.
pub open spec fn zero_id() -> StreamID {
    StreamID { milliseconds_time: 0, sequence_number: 0 }
}

/// The identifier `MAX-MAX`.
pub open spec fn max_id() -> StreamID {
    StreamID { milliseconds_time: u64::MAX, sequence_number: u64::MAX }
}

/// Every stream value in the keyspace has strictly increasing entries.
pub open spec fn streams_ok(m: Map<Seq<u8>, RecordView>) -> bool {
    forall|k: Seq<u8>| #[trigger]
        m.contains_key(k) ==> (match m[k].value {
            ValueTypeView::Stream(es) => stream_wf(es),
            _ => true,
        })
}

/// The keyspace invariant the handlers preserve: unique keys and
/// well-formed streams.
pub open spec fn db_inv(db: &RedisDatabase) -> bool {
    db.wf() && streams_ok(db.data_map())
}

/// Inserting a well-formed value preserves `streams_ok`.
pub proof fn lemma_streams_ok_insert(m: Map<Seq<u8>, RecordView>, k: Seq<u8>, v: RecordView)
    requires
        streams_ok(m),
        match v.value {
            ValueTypeView::Stream(es) => stream_wf(es),
            _ => true,
        },
    ensures
        streams_ok(m.insert(k, v)),
{
}

/// How an append chooses its identifier, or which error stops it.
pub enum IdChoice {
    Chosen(StreamID),
    WrongType,
    Invalid,
    Exhausted,
}

/// The next identifier at time `ms` with first sequence number
/// `first_seq`, or `Exhausted` when the sequence numbers at `ms` are
/// used up.
pub open spec fn candidate_at(es: Seq<EntryView>, ms: u64, first_seq: u64) -> IdChoice {
    match last_seq_at(es, ms) {
        Some(q) => if q < u64::MAX {
            IdChoice::Chosen(
                StreamID { milliseconds_time: ms, sequence_number: (q + 1) as u64 },
            )
        } else {
            IdChoice::Exhausted
        },
        None => IdChoice::Chosen(StreamID { milliseconds_time: ms, sequence_number: first_seq }),
    }
}

/// The entries of the stream under `k`, or nothing when the key is
/// absent; `None` when the key holds another kind of value.
pub open spec fn stream_entries_of(m: Map<Seq<u8>, RecordView>, k: Seq<u8>) -> Option<
    Seq<EntryView>,
> {
    if m.contains_key(k) {
        match m[k].value {
            ValueTypeView::Stream(es) => Some(es),
            _ => None,
        }
    } else {
        Some(Seq::empty())
    }
}

/// The identifier an XADD of `id_str` on the stream under `k` chooses:
/// taken verbatim, completed from `<ms>-*`, or generated from the clock.
pub open spec fn spec_choose_id(
    m: Map<Seq<u8>, RecordView>,
    k: Seq<u8>,
    id_str: Seq<u8>,
    now_ms: u64,
) -> IdChoice {
    if id_str == ascii_bytes("*"@) {
        match stream_entries_of(m, k) {
            None => IdChoice::WrongType,
            Some(es) => candidate_at(es, now_ms, 0),
        }
    } else if id_str.len() >= 2 && id_str[id_str.len() - 2] == crate::stream::DASH && id_str[
        id_str.len() - 1
    ] == 42 {
        let prefix = id_str.take(id_str.len() - 2);
        if !parse_u64_ok(prefix) {
            IdChoice::Invalid
        } else {
            let ms = dec_val(prefix) as u64;
            let first_seq: u64 = if ms == 0 {
                1
            } else {
                0
            };
            match stream_entries_of(m, k) {
                None => IdChoice::WrongType,
                Some(es) => candidate_at(es, ms, first_seq),
            }
        }
    } else {
        match spec_parse_stream_id(id_str) {
            Some(id) => IdChoice::Chosen(id),
            None => IdChoice::Invalid,
        }
    }
}

/// The field pairs of an XADD argument vector.
pub open spec fn xadd_fields(args: Seq<Seq<u8>>) -> Seq<(Seq<u8>, Seq<u8>)> {
    Seq::new(((args.len() - 2) / 2) as nat, |j: int| (args[2 + 2 * j], args[3 + 2 * j]))
}

/// The state change and reply of XADD: append an entry under a chosen
/// identifier that must exceed `0-0` and the stream's newest identifier.
pub open spec fn spec_xadd(m: Map<Seq<u8>, RecordView>, args: Seq<Seq<u8>>, now_ms: u64) -> (
    Map<Seq<u8>, RecordView>,
    Seq<u8>,
) {
    if args.len() < 4 || args.len() % 2 != 0 {
        (m, resp_error(ascii_bytes("ERR wrong number of arguments for 'xadd' command"@)))
    } else {
        let k = args[0];
        match spec_choose_id(m, k, args[1], now_ms) {
            IdChoice::WrongType => (m, resp_error(ascii_bytes("ERR wrong type for 'xadd' command"@))),
            IdChoice::Invalid => (m, resp_error(ascii_bytes("ERR invalid stream ID"@))),
            IdChoice::Exhausted => (
                m,
                resp_error(
                    ascii_bytes(
                        "ERR The ID specified in XADD is equal or smaller than the target stream top item"@,
                    ),
                ),
            ),
            IdChoice::Chosen(id) => {
                if !id_lt(zero_id(), id) {
                    (
                        m,
                        resp_error(
                            ascii_bytes("ERR The ID specified in XADD must be greater than 0-0"@),
                        ),
                    )
                } else {
                    match stream_entries_of(m, k) {
                        None => (m, resp_error(ascii_bytes("ERR wrong type for 'xadd' command"@))),
                        Some(es) => {
                            if es.len() > 0 && !id_lt(es.last().id, id) {
                                (
                                    m,
                                    resp_error(
                                        ascii_bytes(
                                            "ERR The ID specified in XADD is equal or smaller than the target stream top item"@,
                                        ),
                                    ),
                                )
                            } else {
                                (
                                    m.insert(
                                        k,
                                        RecordView {
                                            value: ValueTypeView::Stream(
                                                es.push(
                                                    EntryView { id, fields: xadd_fields(args) },
                                                ),
                                            ),
                                            expiry: Expiry::Never,
                                        },
                                    ),
                                    resp_bulk(id_bytes(id)),
                                )
                            }
                        },
                    }
                }
            },
        }
    }
}

/// The keyspace pairs after XADD, storage order included.
pub open spec fn spec_xadd_pairs(
    pairs: Seq<(Seq<u8>, RecordView)>,
    args: Seq<Seq<u8>>,
    now_ms: u64,
) -> Seq<(Seq<u8>, RecordView)> {
    let m = kv_map(pairs);
    if args.len() < 4 || args.len() % 2 != 0 {
        pairs
    } else {
        let k = args[0];
        match spec_choose_id(m, k, args[1], now_ms) {
            IdChoice::Chosen(id) => {
                if !id_lt(zero_id(), id) {
                    pairs
                } else {
                    match stream_entries_of(m, k) {
                        None => pairs,
                        Some(es) => {
                            if es.len() > 0 && !id_lt(es.last().id, id) {
                                pairs
                            } else {
                                crate::kv::assoc_insert(
                                    pairs,
                                    k,
                                    RecordView {
                                        value: ValueTypeView::Stream(
                                            es.push(EntryView { id, fields: xadd_fields(args) }),
                                        ),
                                        expiry: Expiry::Never,
                                    },
                                )
                            }
                        },
                    }
                }
            },
            _ => pairs,
        }
    }
}

/// Collects the field pairs of an XADD argument vector.
fn collect_fields(args: &Vec<Vec<u8>>) -> (r: Vec<(Vec<u8>, Vec<u8>)>)
    requires
        args@.len() >= 2,
        args@.len() % 2 == 0,
    ensures
        fields_view(r@) == xadd_fields(args_view(args@)),
{
    let mut out: Vec<(Vec<u8>, Vec<u8>)> = Vec::new();
    let mut i: usize = 2;
    while i + 1 < args.len()
        invariant
            args@.len() >= 2,
            args@.len() % 2 == 0,
            2 <= i <= args@.len(),
            i % 2 == 0,
            out@.len() == (i - 2) / 2,
            forall|j: int|
                0 <= j < out@.len() ==> #[trigger] fields_view(out@)[j] == xadd_fields(
                    args_view(args@),
                )[j],
        decreases args@.len() - i,
    {
        let ghost prev = out@;
        let name = vstd::slice::slice_to_vec(args[i].as_slice());
        let value = vstd::slice::slice_to_vec(args[i + 1].as_slice());
        out.push((name, value));
        proof {
            assert forall|j: int| 0 <= j < out@.len() implies #[trigger] fields_view(out@)[j]
                == xadd_fields(args_view(args@))[j] by {
                if j < out@.len() - 1 {
                    assert(out@[j] == prev[j]);
                    assert(fields_view(prev)[j] == xadd_fields(args_view(args@))[j]);
                } else {
                    assert(out@[j] == (name, value));
                    assert(fields_view(out@)[j] == (args@[i as int]@, args@[i + 1]@));
                    assert(xadd_fields(args_view(args@))[j] == (
                        args_view(args@)[i as int],
                        args_view(args@)[i + 1],
                    ));
                }
            }
        }
        i = i + 2;
    }
    proof {
        assert(fields_view(out@) =~= xadd_fields(args_view(args@)));
    }
    out
}

/// What the first pass over the key decided: the duplicated stream to
/// extend, or the error to report.
enum XaddTarget {
    Extend(Stream),
    Fresh,
    WrongType,
    TopItem,
}

/// Handles XADD.
pub fn handle_xadd(db: &mut RedisDatabase, args: &Vec<Vec<u8>>, now_ms: u64) -> (r: Vec<u8>)
    requires
        db_inv(old(db)),
    ensures
        db_inv(final(db)),
        (final(db).data_map(), r@) == spec_xadd(old(db).data_map(), args_view(args@), now_ms),
        crate::database::store_view(final(db).data@) == spec_xadd_pairs(
            crate::database::store_view(old(db).data@),
            args_view(args@),
            now_ms,
        ),
        final(db).replication_info == old(db).replication_info,
        final(db).slave_connections == old(db).slave_connections,
        final(db).ack_counter == old(db).ack_counter,
{
    proof {
        reveal_strlit("ERR wrong number of arguments for 'xadd' command");
        reveal_strlit("ERR wrong type for 'xadd' command");
        reveal_strlit("ERR invalid stream ID");
        reveal_strlit("ERR The ID specified in XADD is equal or smaller than the target stream top item");
        reveal_strlit("ERR The ID specified in XADD must be greater than 0-0");
        reveal_strlit("*");
    }
    if args.len() < 4 || args.len() % 2 != 0 {
        return error_reply("ERR wrong number of arguments for 'xadd' command");
    }
    let key = args[0].as_slice();
    let id_str = args[1].as_slice();

    // First pass: choose the identifier, mirroring `spec_choose_id`.
    let star_lit = str_bytes("*");
    let n = id_str.len();
    let chosen: Option<StreamID> = if bytes_eq(id_str, star_lit.as_slice()) {
        match db.get(key) {
            None => Some(StreamID { milliseconds_time: now_ms, sequence_number: 0 }),
            Some(record) => match record.get_value() {
                RedisValueType::StreamValue(st) => {
                    match st.find_last_seq_at(now_ms) {
                        Some(q) => {
                            if q < u64::MAX {
                                Some(
                                    StreamID { milliseconds_time: now_ms, sequence_number: q + 1 },
                                )
                            } else {
                                return error_reply(
                                    "ERR The ID specified in XADD is equal or smaller than the target stream top item",
                                );
                            }
                        },
                        None => Some(StreamID { milliseconds_time: now_ms, sequence_number: 0 }),
                    }
                },
                _ => {
                    return error_reply("ERR wrong type for 'xadd' command");
                },
            },
        }
    } else if n >= 2 && id_str[n - 2] == crate::stream::DASH && id_str[n - 1] == 42 {
        let prefix = &id_str[0..n - 2];
        proof {
            assert(prefix@ =~= args@[1]@.take(args@[1]@.len() - 2));
        }
        match crate::resp::parse_u64(prefix) {
            None => {
                return error_reply("ERR invalid stream ID");
            },
            Some(ms) => {
                let first_seq: u64 = if ms == 0 {
                    1
                } else {
                    0
                };
                match db.get(key) {
                    None => Some(StreamID { milliseconds_time: ms, sequence_number: first_seq }),
                    Some(record) => match record.get_value() {
                        RedisValueType::StreamValue(st) => {
                            match st.find_last_seq_at(ms) {
                                Some(q) => {
                                    if q < u64::MAX {
                                        Some(
                                            StreamID {
                                                milliseconds_time: ms,
                                                sequence_number: q + 1,
                                            },
                                        )
                                    } else {
                                        return error_reply(
                                            "ERR The ID specified in XADD is equal or smaller than the target stream top item",
                                        );
                                    }
                                },
                                None => Some(
                                    StreamID { milliseconds_time: ms, sequence_number: first_seq },
                                ),
                            }
                        },
                        _ => {
                            return error_reply("ERR wrong type for 'xadd' command");
                        },
                    },
                }
            },
        }
    } else {
        match StreamID::from_str(id_str) {
            Some(id) => Some(id),
            None => {
                return error_reply("ERR invalid stream ID");
            },
        }
    };
    let id = chosen.unwrap();

    // The chosen identifier must exceed 0-0.
    let zero = StreamID::zero();
    if !id.is_valid(&zero) {
        return error_reply("ERR The ID specified in XADD must be greater than 0-0");
    }

    // Second pass: validate against the newest entry and extend.
    let target: XaddTarget = match db.get(key) {
        None => XaddTarget::Fresh,
        Some(record) => match record.get_value() {
            RedisValueType::StreamValue(st) => {
                match st.last_id() {
                    Some(last) => {
                        if !id.is_valid(&last) {
                            XaddTarget::TopItem
                        } else {
                            XaddTarget::Extend(st.duplicate())
                        }
                    },
                    None => XaddTarget::Extend(st.duplicate()),
                }
            },
            _ => XaddTarget::WrongType,
        },
    };
    match target {
        XaddTarget::WrongType => error_reply("ERR wrong type for 'xadd' command"),
        XaddTarget::TopItem => error_reply(
            "ERR The ID specified in XADD is equal or smaller than the target stream top item",
        ),
        XaddTarget::Fresh => {
            let fields = collect_fields(args);
            proof {
                assert(fields_view(fields@).len() <= (usize::MAX - 2) / 2);
            }
            let mut st = Stream::new();
            st.append(id, fields);
            let key_vec = vstd::slice::slice_to_vec(key);
            let ghost entry = EntryView { id, fields: xadd_fields(args_view(args@)) };
            proof {
                assert(st@ =~= Seq::<EntryView>::empty().push(entry));
                lemma_streams_ok_insert(
                    old(db).data_map(),
                    key@,
                    RecordView { value: ValueTypeView::Stream(st@), expiry: Expiry::Never },
                );
            }
            db.insert(
                key_vec,
                RedisValue { value: RedisValueType::StreamValue(st), expiry: Expiry::Never },
            );
            let formatted = id.format();
            bulk_reply(formatted.as_slice())
        },
        XaddTarget::Extend(mut st) => {
            let fields = collect_fields(args);
            proof {
                assert(fields_view(fields@).len() <= (usize::MAX - 2) / 2);
                if st@.len() > 0 {
                    assert(id_lt(st@.last().id, id));
                }
            }
            st.append(id, fields);
            let key_vec = vstd::slice::slice_to_vec(key);
            proof {
                lemma_streams_ok_insert(
                    old(db).data_map(),
                    key@,
                    RecordView { value: ValueTypeView::Stream(st@), expiry: Expiry::Never },
                );
            }
            db.insert(
                key_vec,
                RedisValue { value: RedisValueType::StreamValue(st), expiry: Expiry::Never },
            );
            let formatted = id.format();
            bulk_reply(formatted.as_slice())
        },
    }
}

/// The concatenated bulk encodings of one entry's field pairs.
pub open spec fn cat_fields(fs: Seq<(Seq<u8>, Seq<u8>)>) -> Seq<u8>
    decreases fs.len(),
{
    if fs.len() == 0 {
        Seq::empty()
    } else {
        cat_fields(fs.drop_last()) + resp_bulk(fs.last().0) + resp_bulk(fs.last().1)
    }
}

/// The reply bytes of one entry: a two-element array of the identifier
/// and the flattened field pairs.
pub open spec fn entry_bytes(e: EntryView) -> Seq<u8> {
    array_header(2) + resp_bulk(id_bytes(e.id)) + array_header((2 * e.fields.len()) as nat)
        + cat_fields(e.fields)
}

/// The concatenated reply bytes of a sequence of entries.
pub open spec fn cat_entries(es: Seq<EntryView>) -> Seq<u8>
    decreases es.len(),
{
    if es.len() == 0 {
        Seq::empty()
    } else {
        cat_entries(es.drop_last()) + entry_bytes(es.last())
    }
}

/// An array reply of entries.
pub open spec fn entries_reply(es: Seq<EntryView>) -> Seq<u8> {
    array_header(es.len()) + cat_entries(es)
}

/// Appends the reply bytes of one entry to `out`.
pub fn push_entry(e: &StreamEntry, out: &mut Vec<u8>)
    requires
        crate::stream::entry_sized(e@),
    ensures
        final(out)@ == old(out)@ + entry_bytes(e@),
{
    push_array_header(2, out);
    let formatted = e.id.format();
    push_bulk(formatted.as_slice(), out);
    push_array_header((e.fields.len() as u64) * 2, out);
    let ghost mid = out@;
    let mut i: usize = 0;
    while i < e.fields.len()
        invariant
            i <= e.fields@.len(),
            out@ == mid + cat_fields(fields_view(e.fields@).take(i as int)),
        decreases e.fields@.len() - i,
    {
        let pair = &e.fields[i];
        push_bulk(pair.0.as_slice(), out);
        push_bulk(pair.1.as_slice(), out);
        proof {
            let fv = fields_view(e.fields@);
            assert(fv.take(i + 1 as int).drop_last() =~= fv.take(i as int));
            assert(fv.take(i + 1 as int).last() == fv[i as int]);
            assert(fv[i as int] == (e.fields@[i as int].0@, e.fields@[i as int].1@));
            assert(out@ =~= mid + cat_fields(fv.take(i + 1 as int)));
        }
        i = i + 1;
    }
    proof {
        let fv = fields_view(e.fields@);
        assert(fv.take(fv.len() as int) =~= fv);
        assert(out@ =~= old(out)@ + entry_bytes(e@));
    }
}

/// Appends an array reply of entries to `out`.
pub fn push_entries_array(entries: &Vec<StreamEntry>, out: &mut Vec<u8>)
    requires
        crate::stream::entries_sized(entries@.map_values(|e: StreamEntry| e@)),
    ensures
        final(out)@ == old(out)@ + entries_reply(entries@.map_values(|e: StreamEntry| e@)),
{
    push_array_header(entries.len() as u64, out);
    let ghost mid = out@;
    let ghost evs = entries@.map_values(|e: StreamEntry| e@);
    let mut i: usize = 0;
    while i < entries.len()
        invariant
            i <= entries@.len(),
            evs == entries@.map_values(|e: StreamEntry| e@),
            crate::stream::entries_sized(evs),
            out@ == mid + cat_entries(evs.take(i as int)),
        decreases entries@.len() - i,
    {
        proof {
            assert(crate::stream::entry_sized(evs[i as int]));
            assert(entries@[i as int]@ == evs[i as int]);
        }
        push_entry(&entries[i], out);
        proof {
            assert(evs.take(i + 1 as int).drop_last() =~= evs.take(i as int));
            assert(evs.take(i + 1 as int).last() == evs[i as int]);
            assert(out@ =~= mid + cat_entries(evs.take(i + 1 as int)));
        }
        i = i + 1;
    }
    proof {
        assert(evs.take(evs.len() as int) =~= evs);
        assert(out@ =~= old(out)@ + entries_reply(evs));
    }
}

/// Reply to XRANGE: the entries with identifiers in the closed range,
/// an empty array for an absent key, and errors for a malformed range
/// or a key of another kind.
pub open spec fn spec_xrange(m: Map<Seq<u8>, RecordView>, args: Seq<Seq<u8>>) -> Seq<u8> {
    if args.len() < 3 {
        resp_error(ascii_bytes("ERR wrong number of arguments for 'xrange' command"@))
    } else {
        match stream_entries_of(m, args[0]) {
            None => resp_error(ascii_bytes("ERR wrong type for 'xrange' command"@)),
            Some(es) => {
                let start = if args[1] == ascii_bytes("-"@) {
                    Some(zero_id())
                } else {
                    spec_parse_stream_id(args[1])
                };
                let end = if args[2] == ascii_bytes("+"@) {
                    Some(max_id())
                } else {
                    spec_parse_stream_id(args[2])
                };
                match start {
                    None => resp_error(ascii_bytes("ERR invalid start StreamID"@)),
                    Some(lo) => match end {
                        None => resp_error(ascii_bytes("ERR invalid end StreamID"@)),
                        Some(hi) => entries_reply(sel_range(es, lo, hi)),
                    },
                }
            },
        }
    }
}

/// Handles XRANGE.
pub fn handle_xrange(db: &RedisDatabase, args: &Vec<Vec<u8>>) -> (r: Vec<u8>)
    requires
        db_inv(db),
    ensures
        r@ == spec_xrange(db.data_map(), args_view(args@)),
{
    proof {
        reveal_strlit("ERR wrong number of arguments for 'xrange' command");
        reveal_strlit("ERR wrong type for 'xrange' command");
        reveal_strlit("ERR invalid start StreamID");
        reveal_strlit("ERR invalid end StreamID");
        reveal_strlit("-");
        reveal_strlit("+");
    }
    if args.len() < 3 {
        return error_reply("ERR wrong number of arguments for 'xrange' command");
    }
    let dash_lit = str_bytes("-");
    let plus_lit = str_bytes("+");
    let start: Option<StreamID> = if bytes_eq(args[1].as_slice(), dash_lit.as_slice()) {
        Some(StreamID::zero())
    } else {
        StreamID::from_str(args[1].as_slice())
    };
    let end: Option<StreamID> = if bytes_eq(args[2].as_slice(), plus_lit.as_slice()) {
        Some(StreamID::max_id())
    } else {
        StreamID::from_str(args[2].as_slice())
    };
    match db.get(args[0].as_slice()) {
        None => {
            match start {
                None => error_reply("ERR invalid start StreamID"),
                Some(_) => match end {
                    None => error_reply("ERR invalid end StreamID"),
                    Some(_) => {
                        let empty: Vec<StreamEntry> = Vec::new();
                        let mut out: Vec<u8> = Vec::new();
                        push_entries_array(&empty, &mut out);
                        proof {
                            assert(empty@.map_values(|e: StreamEntry| e@) =~= Seq::<
                                EntryView,
                            >::empty());
                            assert(sel_range(Seq::<EntryView>::empty(), start.unwrap(), end.unwrap())
                                =~= Seq::<EntryView>::empty());
                            assert(out@ =~= spec_xrange(db.data_map(), args_view(args@)));
                        }
                        out
                    },
                },
            }
        },
        Some(record) => match record.get_value() {
            RedisValueType::StreamValue(st) => {
                match start {
                    None => error_reply("ERR invalid start StreamID"),
                    Some(lo) => match end {
                        None => error_reply("ERR invalid end StreamID"),
                        Some(hi) => {
                            let entries = st.range_entries(lo, hi);
                            proof {
                                crate::stream::lemma_sel_range_sized(st@, lo, hi);
                            }
                            let mut out: Vec<u8> = Vec::new();
                            push_entries_array(&entries, &mut out);
                            proof {
                                assert(out@ =~= spec_xrange(db.data_map(), args_view(args@)));
                            }
                            out
                        },
                    },
                }
            },
            _ => error_reply("ERR wrong type for 'xrange' command"),
        },
    }
}

/// One watched stream: a key and the identifier already seen; a tail
/// read returns entries strictly after it.
pub open spec fn watch_view(w: Seq<(Vec<u8>, StreamID)>) -> Seq<(Seq<u8>, StreamID)> {
    w.map_values(|p: (Vec<u8>, StreamID)| (p.0@, p.1))
}

/// The error for a watched key that holds another kind of value.
pub open spec fn err_not_stream(k: Seq<u8>) -> Seq<u8> {
    resp_error(ascii_bytes("ERR key '"@) + k + ascii_bytes("' is not a stream"@))
}

/// The entries a tail read takes from the stream under `k`: those after
/// `from`; an absent key contributes nothing.
pub open spec fn stream_sel(m: Map<Seq<u8>, RecordView>, k: Seq<u8>, from: StreamID) -> Seq<
    EntryView,
> {
    match stream_entries_of(m, k) {
        Some(es) => sel_after(es, from),
        None => Seq::empty(),
    }
}

/// The reply block of one stream with data: the key and its entries.
pub open spec fn xread_stream_bytes(k: Seq<u8>, es: Seq<EntryView>) -> Seq<u8> {
    array_header(2) + resp_bulk(k) + entries_reply(es)
}

/// What one pass over the watched streams gathers: an error for a key
/// of the wrong kind, or the count of streams with data and their
/// concatenated reply blocks.
pub enum XreadGather {
    Error(Seq<u8>),
    Data(nat, Seq<u8>),
}

/// Gathers the tail entries of the watched streams, in order.
pub open spec fn spec_xread_gather(
    m: Map<Seq<u8>, RecordView>,
    w: Seq<(Seq<u8>, StreamID)>,
) -> XreadGather
    decreases w.len(),
{
    if w.len() == 0 {
        XreadGather::Data(0, Seq::empty())
    } else {
        let k = w[0].0;
        if m.contains_key(k) && !(m[k].value is Stream) {
            XreadGather::Error(err_not_stream(k))
        } else {
            let es = stream_sel(m, k, w[0].1);
            match spec_xread_gather(m, w.skip(1)) {
                XreadGather::Error(e) => XreadGather::Error(e),
                XreadGather::Data(c, b) => if es.len() > 0 {
                    XreadGather::Data(c + 1, xread_stream_bytes(k, es) + b)
                } else {
                    XreadGather::Data(c, b)
                },
            }
        }
    }
}

/// One poll over the watched streams: the reply when any stream has
/// data or a key is of the wrong kind, else nothing.
pub open spec fn spec_xread_poll(
    m: Map<Seq<u8>, RecordView>,
    w: Seq<(Seq<u8>, StreamID)>,
) -> Option<Seq<u8>> {
    match spec_xread_gather(m, w) {
        XreadGather::Error(e) => Some(e),
        XreadGather::Data(c, b) => if c > 0 {
            Some(array_header(c) + b)
        } else {
            None
        },
    }
}

/// Polls the watched streams once. The transport repeats this, between
/// sleeps, while a blocking read waits for data.
pub fn xread_poll(db: &RedisDatabase, watch: &Vec<(Vec<u8>, StreamID)>) -> (r: Option<Vec<u8>>)
    requires
        db_inv(db),
    ensures
        match r {
            Some(v) => spec_xread_poll(db.data_map(), watch_view(watch@)) == Some(v@),
            None => spec_xread_poll(db.data_map(), watch_view(watch@)) is None,
        },
{
    proof {
        reveal_strlit("ERR key '");
        reveal_strlit("' is not a stream");
    }
    let ghost m = db.data_map();
    let ghost wv = watch_view(watch@);
    let mut count: usize = 0;
    let mut body: Vec<u8> = Vec::new();
    let mut i: usize = 0;
    proof {
        assert(wv.skip(0) =~= wv);
        match spec_xread_gather(m, wv) {
            XreadGather::Error(e) => {},
            XreadGather::Data(c, b) => {
                assert(body@ + b =~= b);
            },
        }
    }
    while i < watch.len()
        invariant
            db_inv(db),
            m == db.data_map(),
            wv == watch_view(watch@),
            i <= wv.len(),
            count <= i,
            spec_xread_gather(m, wv) == (match spec_xread_gather(m, wv.skip(i as int)) {
                XreadGather::Error(e) => XreadGather::Error(e),
                XreadGather::Data(c, b) => XreadGather::Data((count + c) as nat, body@ + b),
            }),
        decreases wv.len() - i,
    {
        let key = watch[i].0.as_slice();
        let from = watch[i].1;
        proof {
            assert(wv.skip(i as int)[0] == (watch@[i as int].0@, watch@[i as int].1));
            assert(wv.skip(i as int).skip(1) =~= wv.skip(i + 1 as int));
        }
        match db.get(key) {
            None => {
                proof {
                    assert(stream_sel(m, key@, from) =~= Seq::<EntryView>::empty());
                }
            },
            Some(record) => {
                match record.get_value() {
                    RedisValueType::StreamValue(st) => {
                        let entries = st.entries_after(from);
                        if entries.len() > 0 {
                            let ghost prev_body = body@;
                            push_array_header(2, &mut body);
                            push_bulk(key, &mut body);
                            proof {
                                crate::stream::lemma_sel_after_sized(st@, from);
                            }
                            push_entries_array(&entries, &mut body);
                            count = count + 1;
                            proof {
                                assert(body@ =~= prev_body + xread_stream_bytes(
                                    key@,
                                    sel_after(st@, from),
                                ));
                                match spec_xread_gather(m, wv.skip(i + 1 as int)) {
                                    XreadGather::Error(e) => {},
                                    XreadGather::Data(c, b) => {
                                        assert(prev_body + (xread_stream_bytes(
                                            key@,
                                            sel_after(st@, from),
                                        ) + b) =~= body@ + b);
                                    },
                                }
                            }
                        }
                    },
                    _ => {
                        proof {
                            reveal_strlit("ERR key '");
                            reveal_strlit("' is not a stream");
                        }
                        let mut err: Vec<u8> = Vec::new();
                        err.push(crate::resp::SIGIL_ERROR);
                        let head = str_bytes("ERR key '");
                        err.extend_from_slice(head.as_slice());
                        err.extend_from_slice(key);
                        let tail = str_bytes("' is not a stream");
                        err.extend_from_slice(tail.as_slice());
                        crate::resp::push_crlf(&mut err);
                        proof {
                            assert(err@ =~= err_not_stream(key@));
                        }
                        return Some(err);
                    },
                }
            },
        }
        i = i + 1;
    }
    proof {
        assert(wv.skip(wv.len() as int) =~= Seq::<(Seq<u8>, StreamID)>::empty());
    }
    if count > 0 {
        let mut out: Vec<u8> = Vec::new();
        push_array_header(count as u64, &mut out);
        out.extend_from_slice(body.as_slice());
        proof {
            assert(out@ =~= array_header(count as nat) + body@);
        }
        Some(out)
    } else {
        None
    }
}

/// The error for a tail-read identifier that does not parse.
pub open spec fn err_invalid_sid(id_str: Seq<u8>) -> Seq<u8> {
    resp_error(ascii_bytes("ERR invalid StreamID '"@) + id_str + ascii_bytes("'"@))
}

/// Resolution of the watched streams, or the first error met.
pub enum XreadResolve {
    Resolved(Seq<(Seq<u8>, StreamID)>),
    Failed(Seq<u8>),
}

/// Resolves each identifier argument against its stream, in order: `$`
/// becomes the stream's newest identifier (or `0-0` when there is
/// none); anything else must parse as `<ms>-<seq>`. A watched key that
/// holds another kind of value stops the resolution.
pub open spec fn resolve_watch(
    m: Map<Seq<u8>, RecordView>,
    keys: Seq<Seq<u8>>,
    ids: Seq<Seq<u8>>,
) -> XreadResolve
    decreases keys.len(),
{
    if keys.len() == 0 {
        XreadResolve::Resolved(Seq::empty())
    } else {
        let k = keys[0];
        match stream_entries_of(m, k) {
            None => XreadResolve::Failed(err_not_stream(k)),
            Some(es) => {
                let from = if ids[0] == ascii_bytes("$"@) {
                    if es.len() > 0 {
                        Some(es.last().id)
                    } else {
                        Some(zero_id())
                    }
                } else {
                    spec_parse_stream_id(ids[0])
                };
                match from {
                    None => XreadResolve::Failed(err_invalid_sid(ids[0])),
                    Some(id) => match resolve_watch(m, keys.skip(1), ids.skip(1)) {
                        XreadResolve::Resolved(w) => XreadResolve::Resolved(seq![(k, id)] + w),
                        XreadResolve::Failed(e) => XreadResolve::Failed(e),
                    },
                }
            },
        }
    }
}

/// What a tail read decides: a reply now, or the watch list and timeout
/// the transport should block on (a timeout of zero means no deadline).
pub enum XreadOutcome {
    Reply(Vec<u8>),
    Block(u64, Vec<(Vec<u8>, StreamID)>),
}

/// The spec-level outcome of a tail read.
pub enum XreadOutcomeSpec {
    Reply(Seq<u8>),
    Block(u64, Seq<(Seq<u8>, StreamID)>),
}

/// The outcome of XREAD: parse the optional blocking prefix, resolve
/// the watched streams, and reply at once when any of them has data.
pub open spec fn spec_xread(m: Map<Seq<u8>, RecordView>, args: Seq<Seq<u8>>) -> XreadOutcomeSpec {
    if args.len() == 0 {
        XreadOutcomeSpec::Reply(
            resp_error(ascii_bytes("ERR wrong number of arguments for 'xread' command"@)),
        )
    } else {
        let blocking = upper_bytes(args[0]) == ascii_bytes("BLOCK"@);
        if blocking && args.len() < 2 {
            XreadOutcomeSpec::Reply(
                resp_error(ascii_bytes("ERR wrong number of arguments for 'xread' command"@)),
            )
        } else if blocking && !parse_u64_ok(args[1]) {
            XreadOutcomeSpec::Reply(resp_error(ascii_bytes("ERR invalid blocking timeout"@)))
        } else {
            let start: int = if blocking {
                2
            } else {
                0
            };
            if args.len() <= start {
                XreadOutcomeSpec::Reply(
                    resp_error(ascii_bytes("ERR wrong number of arguments for 'xread' command"@)),
                )
            } else if upper_bytes(args[start]) != ascii_bytes("STREAMS"@) {
                XreadOutcomeSpec::Reply(
                    resp_error(ascii_bytes("ERR missing 'STREAMS' argument"@)),
                )
            } else if args.len() < start + 3 || (args.len() - (start + 1)) % 2 != 0 {
                XreadOutcomeSpec::Reply(
                    resp_error(ascii_bytes("ERR wrong number of arguments for 'xread' command"@)),
                )
            } else {
                let num = (args.len() - (start + 1)) / 2;
                let keys = args.subrange(start + 1, start + 1 + num);
                let ids = args.subrange(start + 1 + num, args.len() as int);
                match resolve_watch(m, keys, ids) {
                    XreadResolve::Failed(e) => XreadOutcomeSpec::Reply(e),
                    XreadResolve::Resolved(w) => match spec_xread_poll(m, w) {
                        Some(rep) => XreadOutcomeSpec::Reply(rep),
                        None => if blocking {
                            XreadOutcomeSpec::Block(dec_val(args[1]) as u64, w)
                        } else {
                            XreadOutcomeSpec::Reply(array_header(0))
                        },
                    },
                }
            }
        }
    }
}

/// Handles XREAD. A blocking read with no data yet hands the transport
/// the resolved watch list; the transport polls `xread_poll` until data
/// arrives or its deadline passes.
pub fn handle_xread(db: &RedisDatabase, args: &Vec<Vec<u8>>) -> (r: XreadOutcome)
    requires
        db_inv(db),
    ensures
        match r {
            XreadOutcome::Reply(v) => spec_xread(db.data_map(), args_view(args@))
                == XreadOutcomeSpec::Reply(v@),
            XreadOutcome::Block(ms, w) => spec_xread(db.data_map(), args_view(args@))
                == XreadOutcomeSpec::Block(ms, watch_view(w@)),
        },
{
    proof {
        reveal_strlit("ERR wrong number of arguments for 'xread' command");
        reveal_strlit("ERR invalid blocking timeout");
        reveal_strlit("ERR missing 'STREAMS' argument");
        reveal_strlit("BLOCK");
        reveal_strlit("STREAMS");
        reveal_strlit("$");
    }
    if args.len() == 0 {
        return XreadOutcome::Reply(
            error_reply("ERR wrong number of arguments for 'xread' command"),
        );
    }
    let first = uppercase(args[0].as_slice());
    let block_lit = str_bytes("BLOCK");
    let blocking = bytes_eq(first.as_slice(), block_lit.as_slice());
    let mut block_ms: u64 = 0;
    if blocking {
        if args.len() < 2 {
            return XreadOutcome::Reply(
                error_reply("ERR wrong number of arguments for 'xread' command"),
            );
        }
        match crate::resp::parse_u64(args[1].as_slice()) {
            Some(ms) => {
                block_ms = ms;
            },
            None => {
                return XreadOutcome::Reply(error_reply("ERR invalid blocking timeout"));
            },
        }
    }
    let start: usize = if blocking {
        2
    } else {
        0
    };
    if args.len() <= start {
        return XreadOutcome::Reply(
            error_reply("ERR wrong number of arguments for 'xread' command"),
        );
    }
    let marker = uppercase(args[start].as_slice());
    let streams_lit = str_bytes("STREAMS");
    if !bytes_eq(marker.as_slice(), streams_lit.as_slice()) {
        return XreadOutcome::Reply(error_reply("ERR missing 'STREAMS' argument"));
    }
    if args.len() < start + 3 || (args.len() - (start + 1)) % 2 != 0 {
        return XreadOutcome::Reply(
            error_reply("ERR wrong number of arguments for 'xread' command"),
        );
    }
    let num = (args.len() - (start + 1)) / 2;
    let ghost av = args_view(args@);
    let ghost keys = av.subrange(start + 1, start + 1 + num);
    let ghost ids = av.subrange(start + 1 + num, av.len() as int);
    let ghost m = db.data_map();
    let mut watch: Vec<(Vec<u8>, StreamID)> = Vec::new();
    let mut j: usize = 0;
    proof {
        assert(keys.skip(0) =~= keys);
        assert(ids.skip(0) =~= ids);
        match resolve_watch(m, keys, ids) {
            XreadResolve::Resolved(w) => {
                assert(watch_view(watch@) + w =~= w);
            },
            XreadResolve::Failed(e) => {},
        }
    }
    while j < num
        invariant
            db_inv(db),
            m == db.data_map(),
            av == args_view(args@),
            av.len() <= usize::MAX,
            start + 1 + 2 * num <= av.len(),
            num <= av.len(),
            av.len() == start + 1 + 2 * num,
            keys == av.subrange(start as int + 1, start + 1 + num),
            ids == av.subrange(start + 1 + num, av.len() as int),
            j <= num,
            watch@.len() == j,
            spec_xread(m, av) == (match resolve_watch(m, keys, ids) {
                XreadResolve::Failed(e) => XreadOutcomeSpec::Reply(e),
                XreadResolve::Resolved(w) => match spec_xread_poll(m, w) {
                    Some(rep) => XreadOutcomeSpec::Reply(rep),
                    None => if blocking {
                        XreadOutcomeSpec::Block(block_ms, w)
                    } else {
                        XreadOutcomeSpec::Reply(array_header(0))
                    },
                },
            }),
            resolve_watch(m, keys, ids) == (match resolve_watch(
                m,
                keys.skip(j as int),
                ids.skip(j as int),
            ) {
                XreadResolve::Resolved(w) => XreadResolve::Resolved(watch_view(watch@) + w),
                XreadResolve::Failed(e) => XreadResolve::Failed(e),
            }),
        decreases num - j,
    {
        proof {
            reveal_strlit("$");
            reveal_strlit("ERR key '");
            reveal_strlit("' is not a stream");
            reveal_strlit("ERR invalid StreamID '");
            reveal_strlit("'");
            assert(keys.skip(j as int)[0] == av[start + 1 + j]);
            assert(ids.skip(j as int)[0] == av[start + 1 + num + j]);
            assert(keys.skip(j as int).skip(1) =~= keys.skip(j + 1 as int));
            assert(ids.skip(j as int).skip(1) =~= ids.skip(j + 1 as int));
        }
        let key = args[start + 1 + j].as_slice();
        let id_str = args[start + 1 + num + j].as_slice();
        let dollar_lit = str_bytes("$");
        let resolved: StreamID = match db.get(key) {
            None => {
                if bytes_eq(id_str, dollar_lit.as_slice()) {
                    StreamID::zero()
                } else {
                    match StreamID::from_str(id_str) {
                        Some(id) => id,
                        None => {
                            let mut err: Vec<u8> = Vec::new();
                            err.push(crate::resp::SIGIL_ERROR);
                            let head = str_bytes("ERR invalid StreamID '");
                            err.extend_from_slice(head.as_slice());
                            err.extend_from_slice(id_str);
                            err.push(39);
                            crate::resp::push_crlf(&mut err);
                            proof {
                                assert(ascii_bytes("'"@) =~= seq![39u8]);
                                assert(err@ =~= err_invalid_sid(id_str@));
                            }
                            return XreadOutcome::Reply(err);
                        },
                    }
                }
            },
            Some(record) => {
                match record.get_value() {
                    RedisValueType::StreamValue(st) => {
                        if bytes_eq(id_str, dollar_lit.as_slice()) {
                            match st.last_id() {
                                Some(last) => last,
                                None => StreamID::zero(),
                            }
                        } else {
                            match StreamID::from_str(id_str) {
                                Some(id) => id,
                                None => {
                                    let mut err: Vec<u8> = Vec::new();
                                    err.push(crate::resp::SIGIL_ERROR);
                                    let head = str_bytes("ERR invalid StreamID '");
                                    err.extend_from_slice(head.as_slice());
                                    err.extend_from_slice(id_str);
                                    err.push(39);
                                    crate::resp::push_crlf(&mut err);
                                    proof {
                                        assert(ascii_bytes("'"@) =~= seq![39u8]);
                                        assert(err@ =~= err_invalid_sid(id_str@));
                                    }
                                    return XreadOutcome::Reply(err);
                                },
                            }
                        }
                    },
                    _ => {
                        let mut err: Vec<u8> = Vec::new();
                        err.push(crate::resp::SIGIL_ERROR);
                        let head = str_bytes("ERR key '");
                        err.extend_from_slice(head.as_slice());
                        err.extend_from_slice(key);
                        let tail = str_bytes("' is not a stream");
                        err.extend_from_slice(tail.as_slice());
                        crate::resp::push_crlf(&mut err);
                        proof {
                            assert(err@ =~= err_not_stream(key@));
                        }
                        return XreadOutcome::Reply(err);
                    },
                }
            },
        };
        let ghost prev_watch = watch@;
        let key_vec = vstd::slice::slice_to_vec(key);
        watch.push((key_vec, resolved));
        proof {
            assert(watch_view(watch@) =~= watch_view(prev_watch).push((key@, resolved)));
            match resolve_watch(m, keys.skip(j + 1 as int), ids.skip(j + 1 as int)) {
                XreadResolve::Resolved(w) => {
                    assert(watch_view(prev_watch) + (seq![(key@, resolved)] + w) =~= watch_view(
                        watch@,
                    ) + w);
                },
                XreadResolve::Failed(e) => {},
            }
        }
        j = j + 1;
    }
    proof {
        assert(keys.skip(num as int) =~= Seq::<Seq<u8>>::empty());
        assert(ids.skip(num as int) =~= Seq::<Seq<u8>>::empty());
        match resolve_watch(m, keys, ids) {
            XreadResolve::Resolved(w) => {
                assert(watch_view(watch@) + Seq::<(Seq<u8>, StreamID)>::empty() =~= watch_view(
                    watch@,
                ));
            },
            XreadResolve::Failed(e) => {},
        }
    }
    match xread_poll(db, &watch) {
        Some(rep) => XreadOutcome::Reply(rep),
        None => {
            if blocking {
                XreadOutcome::Block(block_ms, watch)
            } else {
                let mut out: Vec<u8> = Vec::new();
                push_array_header(0, &mut out);
                proof {
                    assert(out@ =~= array_header(0));
                }
                XreadOutcome::Reply(out)
            }
        },
    }
}

} // verus!
