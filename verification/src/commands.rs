//! Command handlers: pure functions from server state and arguments to
//! reply bytes.
//!
//! Every handler carries a spec-level mirror stating, over the map view
//! of the keyspace and the replication table, exactly which reply it
//! produces and how the state changes, for every argument vector. The
//! clock is a plain millisecond argument; the transport supplies it.

use vstd::prelude::*;

use crate::codec::upper_bytes;
use crate::codec::uppercase;
use crate::database::Expiry;
use crate::database::RecordView;
use crate::database::RedisDatabase;
use crate::database::RedisValue;
use crate::database::RedisValueType;
use crate::database::ReplValueView;
use crate::database::ValueTypeView;
use crate::database::expired_at;
use crate::database::expiry_of;
use crate::database::live;
use crate::database::store_view;
use crate::kv::assoc_find;
use crate::kv::bytes_eq;
use crate::kv::kv_map;
use crate::kv::lemma_kv_map_absent;
use crate::kv::lemma_kv_map_index;
use crate::kv::unique_keys;
use crate::resp::array_header;
use crate::resp::ascii_bytes;
use crate::resp::bulk_reply;
use crate::resp::crlf;
use crate::resp::dec_digits;
use crate::resp::dec_val;
use crate::resp::error_reply;
use crate::resp::null_bulk;
use crate::resp::null_bulk_reply;
use crate::resp::push_bulk;
use crate::resp::push_crlf;
use crate::resp::resp_bulk;
use crate::resp::resp_error;
use crate::resp::resp_int;
use crate::resp::resp_simple;
use crate::resp::simple_reply;
use crate::resp::str_bytes;
use crate::resp::format_u64;
use crate::resp::push_array_header;
use crate::resp::parse_u64;
use crate::stream::parse_u64_ok;

verus! {

/// `:`, the separator inside a report line.
pub const COLON: u8 = 58;

/// The views of the argument vectors.
pub open spec fn args_view(args: Seq<Vec<u8>>) -> Seq<Seq<u8>> {
    args.map_values(|v: Vec<u8>| v@)
}

/// Reply to PING: `+PONG`, an echoed argument, or an arity error.
pub open spec fn spec_ping(args: Seq<Seq<u8>>) -> Seq<u8> {
    if args.len() == 0 {
        resp_simple(ascii_bytes("PONG"@))
    } else if args.len() == 1 {
        resp_bulk(args[0])
    } else {
        resp_error(ascii_bytes("ERR wrong number of arguments for 'ping' command"@))
    }
}

/// Handles PING.
pub fn handle_ping(args: &Vec<Vec<u8>>) -> (r: Vec<u8>)
    ensures
        r@ == spec_ping(args_view(args@)),
{
    proof {
        reveal_strlit("PONG");
        reveal_strlit("ERR wrong number of arguments for 'ping' command");
    }
    if args.len() == 0 {
        simple_reply("PONG")
    } else if args.len() == 1 {
        bulk_reply(args[0].as_slice())
    } else {
        error_reply("ERR wrong number of arguments for 'ping' command")
    }
}

/// Reply to ECHO: the single argument as a bulk string.
pub open spec fn spec_echo(args: Seq<Seq<u8>>) -> Seq<u8> {
    if args.len() == 1 {
        resp_bulk(args[0])
    } else {
        resp_error(ascii_bytes("ERR wrong number of arguments for 'echo' command"@))
    }
}

/// Handles ECHO.
pub fn handle_echo(args: &Vec<Vec<u8>>) -> (r: Vec<u8>)
    ensures
        r@ == spec_echo(args_view(args@)),
{
    proof {
        reveal_strlit("ERR wrong number of arguments for 'echo' command");
    }
    if args.len() == 1 {
        bulk_reply(args[0].as_slice())
    } else {
        error_reply("ERR wrong number of arguments for 'echo' command")
    }
}

/// The views of the configuration pairs.
pub open spec fn config_view(cfg: Seq<(Vec<u8>, Vec<u8>)>) -> Seq<(Seq<u8>, Seq<u8>)> {
    cfg.map_values(|p: (Vec<u8>, Vec<u8>)| (p.0@, p.1@))
}

/// Reply to CONFIG GET: a two-element array of name and value, the null
/// bulk for an unknown name, or a syntax error.
pub open spec fn spec_config(cfg: Map<Seq<u8>, Seq<u8>>, args: Seq<Seq<u8>>) -> Seq<u8> {
    if args.len() == 2 && upper_bytes(args[0]) == ascii_bytes("GET"@) {
        if cfg.contains_key(args[1]) {
            array_header(2) + resp_bulk(args[1]) + resp_bulk(cfg[args[1]])
        } else {
            null_bulk()
        }
    } else {
        resp_error(ascii_bytes("ERR syntax error"@))
    }
}

/// Handles CONFIG GET against the static configuration map.
pub fn handle_config(config_map: &Vec<(Vec<u8>, Vec<u8>)>, args: &Vec<Vec<u8>>) -> (r: Vec<u8>)
    requires
        unique_keys(config_view(config_map@)),
    ensures
        r@ == spec_config(kv_map(config_view(config_map@)), args_view(args@)),
{
    proof {
        reveal_strlit("GET");
        reveal_strlit("ERR syntax error");
    }
    if args.len() == 2 {
        let verb = uppercase(args[0].as_slice());
        let get_lit = str_bytes("GET");
        if bytes_eq(verb.as_slice(), get_lit.as_slice()) {
            match assoc_find(config_map, args[1].as_slice()) {
                Some(i) => {
                    proof {
                        lemma_kv_map_index(config_view(config_map@), i as int);
                    }
                    let mut out: Vec<u8> = Vec::new();
                    push_array_header(2, &mut out);
                    push_bulk(args[1].as_slice(), &mut out);
                    push_bulk(config_map[i].1.as_slice(), &mut out);
                    proof {
                        assert(out@ =~= spec_config(
                            kv_map(config_view(config_map@)),
                            args_view(args@),
                        ));
                    }
                    out
                },
                None => {
                    proof {
                        lemma_kv_map_absent(config_view(config_map@), args@[1]@);
                    }
                    null_bulk_reply()
                },
            }
        } else {
            error_reply("ERR syntax error")
        }
    } else {
        error_reply("ERR syntax error")
    }
}

/// The state change and reply of SET: insert the value, with a deadline
/// when `PX` is given; reject a malformed deadline or arity.
pub open spec fn spec_set(m: Map<Seq<u8>, RecordView>, args: Seq<Seq<u8>>, now_ms: u64) -> (
    Map<Seq<u8>, RecordView>,
    Seq<u8>,
) {
    if args.len() == 2 {
        (
            m.insert(args[0], RecordView { value: ValueTypeView::Str(args[1]), expiry: Expiry::Never }),
            resp_simple(ascii_bytes("OK"@)),
        )
    } else if args.len() == 4 && upper_bytes(args[2]) == ascii_bytes("PX"@) {
        if parse_u64_ok(args[3]) {
            (
                m.insert(
                    args[0],
                    RecordView {
                        value: ValueTypeView::Str(args[1]),
                        expiry: expiry_of(Some(dec_val(args[3]) as u64), now_ms),
                    },
                ),
                resp_simple(ascii_bytes("OK"@)),
            )
        } else {
            (m, resp_error(ascii_bytes("ERR value is not an integer or out of range"@)))
        }
    } else {
        (m, resp_error(ascii_bytes("ERR wrong number of arguments for 'set' command"@)))
    }
}

/// The keyspace pairs after SET, storage order included.
pub open spec fn spec_set_pairs(
    pairs: Seq<(Seq<u8>, RecordView)>,
    args: Seq<Seq<u8>>,
    now_ms: u64,
) -> Seq<(Seq<u8>, RecordView)> {
    if args.len() == 2 {
        crate::kv::assoc_insert(
            pairs,
            args[0],
            RecordView { value: ValueTypeView::Str(args[1]), expiry: Expiry::Never },
        )
    } else if args.len() == 4 && upper_bytes(args[2]) == ascii_bytes("PX"@) && parse_u64_ok(
        args[3],
    ) {
        crate::kv::assoc_insert(
            pairs,
            args[0],
            RecordView {
                value: ValueTypeView::Str(args[1]),
                expiry: expiry_of(Some(dec_val(args[3]) as u64), now_ms),
            },
        )
    } else {
        pairs
    }
}

/// Handles SET.
pub fn handle_set(db: &mut RedisDatabase, args: &Vec<Vec<u8>>, now_ms: u64) -> (r: Vec<u8>)
    requires
        old(db).wf(),
    ensures
        final(db).wf(),
        (final(db).data_map(), r@) == spec_set(old(db).data_map(), args_view(args@), now_ms),
        store_view(final(db).data@) == spec_set_pairs(
            store_view(old(db).data@),
            args_view(args@),
            now_ms,
        ),
        final(db).replication_info == old(db).replication_info,
        final(db).slave_connections == old(db).slave_connections,
        final(db).ack_counter == old(db).ack_counter,
{
    proof {
        reveal_strlit("OK");
        reveal_strlit("PX");
        reveal_strlit("ERR value is not an integer or out of range");
        reveal_strlit("ERR wrong number of arguments for 'set' command");
    }
    if args.len() == 2 {
        let key = vstd::slice::slice_to_vec(args[0].as_slice());
        let value = vstd::slice::slice_to_vec(args[1].as_slice());
        db.insert(key, RedisValue { value: RedisValueType::StringValue(value), expiry: Expiry::Never });
        simple_reply("OK")
    } else if args.len() == 4 {
        let modifier = uppercase(args[2].as_slice());
        let px_lit = str_bytes("PX");
        if bytes_eq(modifier.as_slice(), px_lit.as_slice()) {
            match parse_u64(args[3].as_slice()) {
                Some(ttl) => {
                    let key = vstd::slice::slice_to_vec(args[0].as_slice());
                    let value = vstd::slice::slice_to_vec(args[1].as_slice());
                    let record = RedisValue::new(
                        RedisValueType::StringValue(value),
                        Some(ttl),
                        now_ms,
                    );
                    db.insert(key, record);
                    simple_reply("OK")
                },
                None => error_reply("ERR value is not an integer or out of range"),
            }
        } else {
            error_reply("ERR wrong number of arguments for 'set' command")
        }
    } else {
        error_reply("ERR wrong number of arguments for 'set' command")
    }
}

/// The state change and reply of GET: the value's bytes, or the null
/// bulk for an absent or expired key (an expired key is removed).
pub open spec fn spec_get(m: Map<Seq<u8>, RecordView>, args: Seq<Seq<u8>>, now_ms: u64) -> (
    Map<Seq<u8>, RecordView>,
    Seq<u8>,
) {
    if args.len() != 1 {
        (m, resp_error(ascii_bytes("ERR wrong number of arguments for 'get' command"@)))
    } else {
        let k = args[0];
        if !m.contains_key(k) {
            (m, null_bulk())
        } else if expired_at(m[k].expiry, now_ms) {
            (m.remove(k), null_bulk())
        } else if m[k].value is Stream {
            (m, resp_error(ascii_bytes("ERR wrong type for 'get' command"@)))
        } else {
            (m, resp_bulk(crate::database::value_bytes(m[k].value)))
        }
    }
}

/// The keyspace pairs after GET: an expired key is dropped in place.
pub open spec fn spec_get_pairs(
    pairs: Seq<(Seq<u8>, RecordView)>,
    args: Seq<Seq<u8>>,
    now_ms: u64,
) -> Seq<(Seq<u8>, RecordView)> {
    let m = kv_map(pairs);
    if args.len() == 1 && m.contains_key(args[0]) && expired_at(m[args[0]].expiry, now_ms) {
        crate::kv::assoc_remove(pairs, args[0])
    } else {
        pairs
    }
}

/// Renders a value for a bulk reply: the decimal numeral of an integer
/// or a byte string itself. A stream renders to nothing.
pub fn render_value(v: &RedisValueType) -> (r: Vec<u8>)
    ensures
        r@ == crate::database::value_bytes(v@),
{
    match v {
        RedisValueType::IntegerValue(n) => format_u64(*n),
        RedisValueType::StringValue(s) => vstd::slice::slice_to_vec(s.as_slice()),
        RedisValueType::StreamValue(_) => Vec::new(),
    }
}

/// Handles GET, removing the key if it is seen expired.
pub fn handle_get(db: &mut RedisDatabase, args: &Vec<Vec<u8>>, now_ms: u64) -> (r: Vec<u8>)
    requires
        old(db).wf(),
    ensures
        final(db).wf(),
        (final(db).data_map(), r@) == spec_get(old(db).data_map(), args_view(args@), now_ms),
        store_view(final(db).data@) == spec_get_pairs(
            store_view(old(db).data@),
            args_view(args@),
            now_ms,
        ),
        final(db).replication_info == old(db).replication_info,
        final(db).slave_connections == old(db).slave_connections,
        final(db).ack_counter == old(db).ack_counter,
{
    proof {
        reveal_strlit("ERR wrong number of arguments for 'get' command");
        reveal_strlit("ERR wrong type for 'get' command");
    }
    if args.len() != 1 {
        return error_reply("ERR wrong number of arguments for 'get' command");
    }
    let key = args[0].as_slice();
    let outcome: u8 = match db.get(key) {
        None => 0,
        Some(record) => {
            if record.is_expired(now_ms) {
                1
            } else {
                match record.get_value() {
                    RedisValueType::StreamValue(_) => 2,
                    _ => 3,
                }
            }
        },
    };
    if outcome == 0 {
        null_bulk_reply()
    } else if outcome == 1 {
        db.remove(key);
        null_bulk_reply()
    } else if outcome == 2 {
        error_reply("ERR wrong type for 'get' command")
    } else {
        let rendered = match db.get(key) {
            Some(record) => render_value(record.get_value()),
            None => Vec::new(),
        };
        bulk_reply(rendered.as_slice())
    }
}

/// Reply to TYPE: `+string`, `+stream`, or `+none` for a key that is
/// absent or expired.
pub open spec fn spec_type(m: Map<Seq<u8>, RecordView>, args: Seq<Seq<u8>>, now_ms: u64) -> Seq<
    u8,
> {
    if args.len() != 1 {
        resp_error(ascii_bytes("ERR wrong number of arguments for 'type' command"@))
    } else if live(m, args[0], now_ms) {
        if m[args[0]].value is Stream {
            resp_simple(ascii_bytes("stream"@))
        } else {
            resp_simple(ascii_bytes("string"@))
        }
    } else {
        resp_simple(ascii_bytes("none"@))
    }
}

/// Handles TYPE. Expiry is respected but the record is left in place.
pub fn handle_type(db: &RedisDatabase, args: &Vec<Vec<u8>>, now_ms: u64) -> (r: Vec<u8>)
    requires
        db.wf(),
    ensures
        r@ == spec_type(db.data_map(), args_view(args@), now_ms),
{
    proof {
        reveal_strlit("ERR wrong number of arguments for 'type' command");
        reveal_strlit("stream");
        reveal_strlit("string");
        reveal_strlit("none");
    }
    if args.len() != 1 {
        return error_reply("ERR wrong number of arguments for 'type' command");
    }
    match db.get(args[0].as_slice()) {
        Some(record) => {
            if record.is_expired(now_ms) {
                simple_reply("none")
            } else {
                match record.get_value() {
                    RedisValueType::StreamValue(_) => simple_reply("stream"),
                    _ => simple_reply("string"),
                }
            }
        },
        None => simple_reply("none"),
    }
}

/// The concatenated bulk encodings of the keys of `pairs`.
pub open spec fn cat_keys(pairs: Seq<(Seq<u8>, RecordView)>) -> Seq<u8>
    decreases pairs.len(),
{
    if pairs.len() == 0 {
        Seq::empty()
    } else {
        cat_keys(pairs.drop_last()) + resp_bulk(pairs.last().0)
    }
}

/// Reply to KEYS: an array of every key, in storage order.
pub open spec fn spec_keys(pairs: Seq<(Seq<u8>, RecordView)>) -> Seq<u8> {
    array_header(pairs.len()) + cat_keys(pairs)
}

/// Handles KEYS. The pattern is not consulted; every key is listed.
pub fn handle_keys(db: &RedisDatabase) -> (r: Vec<u8>)
    ensures
        r@ == spec_keys(store_view(db.data@)),
{
    let mut out: Vec<u8> = Vec::new();
    push_array_header(db.data.len() as u64, &mut out);
    let mut i: usize = 0;
    while i < db.data.len()
        invariant
            i <= db.data@.len(),
            out@ == array_header(store_view(db.data@).len()) + cat_keys(
                store_view(db.data@).take(i as int),
            ),
        decreases db.data@.len() - i,
    {
        push_bulk(db.data[i].0.as_slice(), &mut out);
        proof {
            let pairs = store_view(db.data@);
            assert(pairs.take(i + 1 as int).drop_last() =~= pairs.take(i as int));
            assert(pairs.take(i + 1 as int).last() == pairs[i as int]);
            assert(out@ =~= array_header(pairs.len()) + cat_keys(pairs.take(i + 1 as int)));
        }
        i = i + 1;
    }
    proof {
        let pairs = store_view(db.data@);
        assert(pairs.take(pairs.len() as int) =~= pairs);
    }
    out
}

/// The state change and reply of INCR: create at 1, or add one to an
/// integer value, keeping its expiry; reject non-numeric values and
/// values at the top of the range.
pub open spec fn spec_incr(m: Map<Seq<u8>, RecordView>, args: Seq<Seq<u8>>, now_ms: u64) -> (
    Map<Seq<u8>, RecordView>,
    Seq<u8>,
) {
    if args.len() != 1 {
        (m, resp_error(ascii_bytes("ERR wrong number of arguments for 'incr' command"@)))
    } else {
        let k = args[0];
        if !live(m, k, now_ms) {
            (
                m.insert(k, RecordView { value: ValueTypeView::Int(1), expiry: Expiry::Never }),
                resp_int(1),
            )
        } else {
            match m[k].value {
                ValueTypeView::Int(n) => if n < u64::MAX {
                    (
                        m.insert(
                            k,
                            RecordView {
                                value: ValueTypeView::Int((n + 1) as u64),
                                expiry: m[k].expiry,
                            },
                        ),
                        resp_int((n + 1) as nat),
                    )
                } else {
                    (m, resp_error(ascii_bytes("ERR increment or decrement would overflow"@)))
                },
                ValueTypeView::Str(s) => if parse_u64_ok(s) {
                    if dec_val(s) < u64::MAX {
                        (
                            m.insert(
                                k,
                                RecordView {
                                    value: ValueTypeView::Int((dec_val(s) + 1) as u64),
                                    expiry: m[k].expiry,
                                },
                            ),
                            resp_int(dec_val(s) + 1),
                        )
                    } else {
                        (m, resp_error(ascii_bytes("ERR increment or decrement would overflow"@)))
                    }
                } else {
                    (m, resp_error(ascii_bytes("ERR value is not an integer or out of range"@)))
                },
                ValueTypeView::Stream(_) => (
                    m,
                    resp_error(ascii_bytes("ERR value is not an integer or out of range"@)),
                ),
            }
        }
    }
}

/// The keyspace pairs after INCR, storage order included.
pub open spec fn spec_incr_pairs(
    pairs: Seq<(Seq<u8>, RecordView)>,
    args: Seq<Seq<u8>>,
    now_ms: u64,
) -> Seq<(Seq<u8>, RecordView)> {
    let m = kv_map(pairs);
    if args.len() != 1 {
        pairs
    } else {
        let k = args[0];
        if !live(m, k, now_ms) {
            crate::kv::assoc_insert(
                pairs,
                k,
                RecordView { value: ValueTypeView::Int(1), expiry: Expiry::Never },
            )
        } else {
            match m[k].value {
                ValueTypeView::Int(n) => if n < u64::MAX {
                    crate::kv::assoc_insert(
                        pairs,
                        k,
                        RecordView { value: ValueTypeView::Int((n + 1) as u64), expiry: m[k].expiry },
                    )
                } else {
                    pairs
                },
                ValueTypeView::Str(sv) => if parse_u64_ok(sv) && dec_val(sv) < u64::MAX {
                    crate::kv::assoc_insert(
                        pairs,
                        k,
                        RecordView {
                            value: ValueTypeView::Int((dec_val(sv) + 1) as u64),
                            expiry: m[k].expiry,
                        },
                    )
                } else {
                    pairs
                },
                ValueTypeView::Stream(_) => pairs,
            }
        }
    }
}

/// Handles INCR.
pub fn handle_incr(db: &mut RedisDatabase, args: &Vec<Vec<u8>>, now_ms: u64) -> (r: Vec<u8>)
    requires
        old(db).wf(),
    ensures
        final(db).wf(),
        (final(db).data_map(), r@) == spec_incr(old(db).data_map(), args_view(args@), now_ms),
        store_view(final(db).data@) == spec_incr_pairs(
            store_view(old(db).data@),
            args_view(args@),
            now_ms,
        ),
        final(db).replication_info == old(db).replication_info,
        final(db).slave_connections == old(db).slave_connections,
        final(db).ack_counter == old(db).ack_counter,
{
    proof {
        reveal_strlit("ERR wrong number of arguments for 'incr' command");
        reveal_strlit("ERR increment or decrement would overflow");
        reveal_strlit("ERR value is not an integer or out of range");
    }
    if args.len() != 1 {
        return error_reply("ERR wrong number of arguments for 'incr' command");
    }
    let key = args[0].as_slice();
    // 0: create at 1; 1: step n to n + 1 keeping expiry; 2: overflow;
    // 3: not an integer
    let (outcome, n, expiry): (u8, u64, Expiry) = match db.get(key) {
        None => (0, 0, Expiry::Never),
        Some(record) => {
            if record.is_expired(now_ms) {
                (0, 0, Expiry::Never)
            } else {
                match record.get_value() {
                    RedisValueType::IntegerValue(n) => {
                        if *n < u64::MAX {
                            (1, *n, record.expiry)
                        } else {
                            (2, 0, record.expiry)
                        }
                    },
                    RedisValueType::StringValue(s) => {
                        match parse_u64(s.as_slice()) {
                            Some(v) => {
                                if v < u64::MAX {
                                    (1, v, record.expiry)
                                } else {
                                    (2, 0, record.expiry)
                                }
                            },
                            None => (3, 0, record.expiry),
                        }
                    },
                    RedisValueType::StreamValue(_) => (3, 0, record.expiry),
                }
            }
        },
    };
    if outcome == 0 {
        let key_vec = vstd::slice::slice_to_vec(key);
        db.insert(
            key_vec,
            RedisValue { value: RedisValueType::IntegerValue(1), expiry: Expiry::Never },
        );
        let mut out: Vec<u8> = Vec::new();
        crate::resp::push_int(1, &mut out);
        proof {
            assert(out@ =~= resp_int(1));
        }
        out
    } else if outcome == 1 {
        let key_vec = vstd::slice::slice_to_vec(key);
        db.insert(
            key_vec,
            RedisValue { value: RedisValueType::IntegerValue(n + 1), expiry },
        );
        let mut out: Vec<u8> = Vec::new();
        crate::resp::push_int(n + 1, &mut out);
        proof {
            assert(out@ =~= resp_int((n + 1) as nat));
        }
        out
    } else if outcome == 2 {
        error_reply("ERR increment or decrement would overflow")
    } else {
        error_reply("ERR value is not an integer or out of range")
    }
}


/// The state change and reply of DEL: remove the key and report whether
/// a live record was there.
pub open spec fn spec_del(m: Map<Seq<u8>, RecordView>, args: Seq<Seq<u8>>, now_ms: u64) -> (
    Map<Seq<u8>, RecordView>,
    Seq<u8>,
) {
    if args.len() != 1 {
        (m, resp_error(ascii_bytes("ERR wrong number of arguments for 'del' command"@)))
    } else if live(m, args[0], now_ms) {
        (m.remove(args[0]), resp_int(1))
    } else {
        (m.remove(args[0]), resp_int(0))
    }
}

/// The keyspace pairs after DEL, storage order included.
pub open spec fn spec_del_pairs(
    pairs: Seq<(Seq<u8>, RecordView)>,
    args: Seq<Seq<u8>>,
) -> Seq<(Seq<u8>, RecordView)> {
    if args.len() != 1 {
        pairs
    } else {
        crate::kv::assoc_remove(pairs, args[0])
    }
}

/// Handles DEL.
pub fn handle_del(db: &mut RedisDatabase, args: &Vec<Vec<u8>>, now_ms: u64) -> (r: Vec<u8>)
    requires
        old(db).wf(),
    ensures
        final(db).wf(),
        (final(db).data_map(), r@) == spec_del(old(db).data_map(), args_view(args@), now_ms),
        store_view(final(db).data@) == spec_del_pairs(store_view(old(db).data@), args_view(args@)),
        final(db).replication_info == old(db).replication_info,
        final(db).slave_connections == old(db).slave_connections,
        final(db).ack_counter == old(db).ack_counter,
{
    proof {
        reveal_strlit("ERR wrong number of arguments for 'del' command");
    }
    if args.len() != 1 {
        return error_reply("ERR wrong number of arguments for 'del' command");
    }
    let key = args[0].as_slice();
    let was_live = match db.get(key) {
        Some(record) => !record.is_expired(now_ms),
        None => false,
    };
    db.remove(key);
    let mut out: Vec<u8> = Vec::new();
    if was_live {
        crate::resp::push_int(1, &mut out);
        proof {
            assert(out@ =~= resp_int(1));
        }
    } else {
        crate::resp::push_int(0, &mut out);
        proof {
            assert(out@ =~= resp_int(0));
        }
    }
    out
}

/// The views of the replication pairs.
pub open spec fn repl_pairs_view(s: Seq<(Vec<u8>, crate::database::ReplicationInfoValue)>) -> Seq<
    (Seq<u8>, ReplValueView),
> {
    crate::database::repl_view(s)
}

/// The bytes one replication entry renders to.
pub open spec fn repl_value_bytes(v: ReplValueView) -> Seq<u8> {
    match v {
        ReplValueView::Str(s) => s,
        ReplValueView::Bytes(n) => dec_digits(n as nat),
    }
}

/// The report lines `key:value\r\n`, in storage order.
pub open spec fn info_lines(pairs: Seq<(Seq<u8>, ReplValueView)>) -> Seq<u8>
    decreases pairs.len(),
{
    if pairs.len() == 0 {
        Seq::empty()
    } else {
        info_lines(pairs.drop_last()) + pairs.last().0 + seq![COLON] + repl_value_bytes(
            pairs.last().1,
        ) + crlf()
    }
}

/// Reply to INFO REPLICATION: one bulk string of `key:value` lines.
pub open spec fn spec_info(
    pairs: Seq<(Seq<u8>, ReplValueView)>,
    args: Seq<Seq<u8>>,
) -> Seq<u8> {
    if args.len() == 1 && upper_bytes(args[0]) == ascii_bytes("REPLICATION"@) {
        resp_bulk(info_lines(pairs))
    } else {
        resp_error(ascii_bytes("ERR unknown section for INFO"@))
    }
}

/// Handles INFO REPLICATION.
pub fn handle_info(db: &RedisDatabase, args: &Vec<Vec<u8>>) -> (r: Vec<u8>)
    ensures
        r@ == spec_info(crate::database::repl_view(db.replication_info@), args_view(args@)),
{
    proof {
        reveal_strlit("REPLICATION");
        reveal_strlit("ERR unknown section for INFO");
    }
    if args.len() == 1 {
        let section = uppercase(args[0].as_slice());
        let repl_lit = str_bytes("REPLICATION");
        if bytes_eq(section.as_slice(), repl_lit.as_slice()) {
            let mut body: Vec<u8> = Vec::new();
            let mut i: usize = 0;
            while i < db.replication_info.len()
                invariant
                    i <= db.replication_info@.len(),
                    body@ == info_lines(
                        crate::database::repl_view(db.replication_info@).take(i as int),
                    ),
                decreases db.replication_info@.len() - i,
            {
                let pair = &db.replication_info[i];
                body.extend_from_slice(pair.0.as_slice());
                body.push(COLON);
                let rendered = pair.1.render();
                body.extend_from_slice(rendered.as_slice());
                push_crlf(&mut body);
                proof {
                    let pairs = crate::database::repl_view(db.replication_info@);
                    assert(pairs.take(i + 1 as int).drop_last() =~= pairs.take(i as int));
                    assert(pairs.take(i + 1 as int).last() == pairs[i as int]);
                    assert(body@ =~= info_lines(pairs.take(i + 1 as int)));
                }
                i = i + 1;
            }
            proof {
                let pairs = crate::database::repl_view(db.replication_info@);
                assert(pairs.take(pairs.len() as int) =~= pairs);
            }
            bulk_reply(body.as_slice())
        } else {
            error_reply("ERR unknown section for INFO")
        }
    } else {
        error_reply("ERR unknown section for INFO")
    }
}

/// Reply to REPLCONF: the acknowledgement frame
/// `REPLCONF ACK <offset>` for `GETACK *`, else `+OK`.
pub open spec fn spec_replconf(repl: Map<Seq<u8>, ReplValueView>, args: Seq<Seq<u8>>) -> Seq<u8> {
    if args.len() == 2 && upper_bytes(args[0]) == ascii_bytes("GETACK"@) && args[1] == ascii_bytes(
        "*"@,
    ) {
        let offset: nat = if repl.contains_key(ascii_bytes("slave_repl_offset"@)) {
            match repl[ascii_bytes("slave_repl_offset"@)] {
                ReplValueView::Bytes(n) => n as nat,
                ReplValueView::Str(_) => 0,
            }
        } else {
            0
        };
        crate::resp::encode_frame(
            seq![ascii_bytes("REPLCONF"@), ascii_bytes("ACK"@), dec_digits(offset)],
        )
    } else {
        resp_simple(ascii_bytes("OK"@))
    }
}

/// Handles REPLCONF. On a replica, `GETACK *` is answered with the
/// current applied-byte offset.
pub fn handle_replconf(db: &RedisDatabase, args: &Vec<Vec<u8>>) -> (r: Vec<u8>)
    requires
        db.wf(),
    ensures
        r@ == spec_replconf(db.repl_map(), args_view(args@)),
{
    proof {
        reveal_strlit("GETACK");
        reveal_strlit("*");
        reveal_strlit("OK");
        reveal_strlit("slave_repl_offset");
        reveal_strlit("REPLCONF");
        reveal_strlit("ACK");
    }
    if args.len() == 2 {
        let sub = uppercase(args[0].as_slice());
        let getack_lit = str_bytes("GETACK");
        let star_lit = str_bytes("*");
        if bytes_eq(sub.as_slice(), getack_lit.as_slice()) && bytes_eq(
            args[1].as_slice(),
            star_lit.as_slice(),
        ) {
            let offset_key = str_bytes("slave_repl_offset");
            let offset: u64 = match db.get_replication_info(offset_key.as_slice()) {
                Some(v) => match v {
                    crate::database::ReplicationInfoValue::ByteValue(n) => *n as u64,
                    crate::database::ReplicationInfoValue::StringValue(_) => 0,
                },
                None => 0,
            };
            let mut items: Vec<Vec<u8>> = Vec::new();
            items.push(str_bytes("REPLCONF"));
            items.push(str_bytes("ACK"));
            items.push(format_u64(offset));
            let out = crate::resp::encode_command(&items);
            proof {
                assert(crate::resp::views_of(items@) =~= seq![
                    ascii_bytes("REPLCONF"@),
                    ascii_bytes("ACK"@),
                    dec_digits(offset as nat),
                ]);
            }
            out
        } else {
            simple_reply("OK")
        }
    } else {
        simple_reply("OK")
    }
}

/// Reply to PSYNC: `+FULLRESYNC <replid> <offset>`, or an error naming
/// the missing state entry.
pub open spec fn spec_psync(repl: Map<Seq<u8>, ReplValueView>, args: Seq<Seq<u8>>) -> Seq<u8> {
    if args.len() == 2 {
        if repl.contains_key(ascii_bytes("master_replid"@)) {
            if repl.contains_key(ascii_bytes("master_repl_offset"@)) {
                resp_simple(
                    ascii_bytes("FULLRESYNC "@) + repl_value_bytes(
                        repl[ascii_bytes("master_replid"@)],
                    ) + seq![32u8] + repl_value_bytes(repl[ascii_bytes("master_repl_offset"@)]),
                )
            } else {
                resp_error(ascii_bytes("ERR master_repl_offset not found"@))
            }
        } else {
            resp_error(ascii_bytes("ERR master_replid not found"@))
        }
    } else {
        resp_error(ascii_bytes("ERR wrong number of arguments for 'psync' command"@))
    }
}

/// Handles PSYNC, announcing a full resynchronisation.
pub fn handle_psync(db: &RedisDatabase, args: &Vec<Vec<u8>>) -> (r: Vec<u8>)
    requires
        db.wf(),
    ensures
        r@ == spec_psync(db.repl_map(), args_view(args@)),
{
    proof {
        reveal_strlit("master_replid");
        reveal_strlit("master_repl_offset");
        reveal_strlit("FULLRESYNC ");
        reveal_strlit("ERR master_repl_offset not found");
        reveal_strlit("ERR master_replid not found");
        reveal_strlit("ERR wrong number of arguments for 'psync' command");
    }
    if args.len() == 2 {
        let replid_key = str_bytes("master_replid");
        let offset_key = str_bytes("master_repl_offset");
        let replid = match db.get_replication_info(replid_key.as_slice()) {
            Some(v) => v.render(),
            None => {
                return error_reply("ERR master_replid not found");
            },
        };
        let offset = match db.get_replication_info(offset_key.as_slice()) {
            Some(v) => v.render(),
            None => {
                return error_reply("ERR master_repl_offset not found");
            },
        };
        let mut msg: Vec<u8> = str_bytes("FULLRESYNC ");
        msg.extend_from_slice(replid.as_slice());
        msg.push(32);
        msg.extend_from_slice(offset.as_slice());
        let mut out: Vec<u8> = Vec::new();
        out.push(crate::resp::SIGIL_SIMPLE);
        out.extend_from_slice(msg.as_slice());
        push_crlf(&mut out);
        proof {
            assert(out@ =~= spec_psync(db.repl_map(), args_view(args@)));
        }
        out
    } else {
        error_reply("ERR wrong number of arguments for 'psync' command")
    }
}

/// Whether a verb's frames are propagated to the replicas: exactly the
/// write commands.
pub open spec fn spec_forward(verb: Seq<u8>) -> bool {
    verb == ascii_bytes("SET"@) || verb == ascii_bytes("DEL"@) || verb == ascii_bytes("INCR"@)
        || verb == ascii_bytes("XADD"@)
}

/// Decides whether a command frame is forwarded to the replicas.
pub fn should_forward_to_slaves(command: &[u8]) -> (r: bool)
    ensures
        r == spec_forward(command@),
{
    proof {
        reveal_strlit("SET");
        reveal_strlit("DEL");
        reveal_strlit("INCR");
        reveal_strlit("XADD");
    }
    let set_lit = str_bytes("SET");
    let del_lit = str_bytes("DEL");
    let incr_lit = str_bytes("INCR");
    let xadd_lit = str_bytes("XADD");
    bytes_eq(command, set_lit.as_slice()) || bytes_eq(command, del_lit.as_slice()) || bytes_eq(
        command,
        incr_lit.as_slice(),
    ) || bytes_eq(command, xadd_lit.as_slice())
}

/// Whether `b` is an ASCII hexadecimal digit.
pub open spec fn is_hex_digit(b: u8) -> bool {
    (48 <= b <= 57) || (97 <= b <= 102) || (65 <= b <= 70)
}

/// The value of one hexadecimal digit.
pub open spec fn hex_val(b: u8) -> nat {
    if 48 <= b <= 57 {
        (b - 48) as nat
    } else if 97 <= b <= 102 {
        (b - 87) as nat
    } else if 65 <= b <= 70 {
        (b - 55) as nat
    } else {
        0
    }
}

/// Whether a byte string is a well-formed hexadecimal rendering.
pub open spec fn valid_hex(s: Seq<u8>) -> bool {
    s.len() % 2 == 0 && forall|i: int| 0 <= i < s.len() ==> is_hex_digit(#[trigger] s[i])
}

/// The bytes a hexadecimal rendering stands for, two digits per byte.
pub open spec fn hex_decode(s: Seq<u8>) -> Seq<u8>
    decreases s.len(),
{
    if s.len() < 2 {
        Seq::empty()
    } else {
        hex_decode(s.take(s.len() - 2)) + seq![
            (hex_val(s[s.len() - 2]) * 16 + hex_val(s[s.len() - 1])) as u8,
        ]
    }
}

/// Decodes a hexadecimal rendering into bytes, two digits per byte.
/// The digits must pair up exactly: an odd-length rendering is rejected
/// whole, with no trailing digit silently dropped, and a byte outside
/// the hexadecimal digits rejects the input instead of stopping the
/// caller.
pub fn hex_to_bytes(hex: &[u8]) -> (r: Option<Vec<u8>>)
    ensures
        match r {
            Some(v) => valid_hex(hex@) && v@ == hex_decode(hex@),
            None => !valid_hex(hex@),
        },
{
    if hex.len() % 2 != 0 {
        return None;
    }
    let mut out: Vec<u8> = Vec::new();
    let mut i: usize = 0;
    while i + 1 < hex.len()
        invariant
            hex@.len() % 2 == 0,
            i <= hex@.len(),
            i % 2 == 0,
            forall|j: int| 0 <= j < i ==> is_hex_digit(#[trigger] hex@[j]),
            out@ == hex_decode(hex@.take(i as int)),
        decreases hex@.len() - i,
    {
        let hi = hex[i];
        let lo = hex[i + 1];
        let hv: u8 = if 48 <= hi && hi <= 57 {
            hi - 48
        } else if 97 <= hi && hi <= 102 {
            hi - 87
        } else if 65 <= hi && hi <= 70 {
            hi - 55
        } else {
            return None;
        };
        let lv: u8 = if 48 <= lo && lo <= 57 {
            lo - 48
        } else if 97 <= lo && lo <= 102 {
            lo - 87
        } else if 65 <= lo && lo <= 70 {
            lo - 55
        } else {
            return None;
        };
        out.push(hv * 16 + lv);
        proof {
            let cur = hex@.take(i + 2 as int);
            assert(cur.take(cur.len() - 2) =~= hex@.take(i as int));
            assert(cur[cur.len() - 2] == hex@[i as int]);
            assert(cur[cur.len() - 1] == hex@[i + 1]);
            assert(out@ =~= hex_decode(cur));
        }
        i = i + 2;
    }
    proof {
        assert(i == hex@.len());
        assert(hex@.take(hex@.len() as int) =~= hex@);
    }
    Some(out)
}

/// The canonical empty snapshot a primary sends after announcing a full
/// resynchronisation: a fixed 88-byte protocol constant.
pub open spec fn spec_empty_rdb() -> Seq<u8> {
    seq![
        82u8, 69u8, 68u8, 73u8, 83u8, 48u8, 48u8, 49u8, 49u8, 250u8, 9u8, 114u8, 101u8, 100u8,
        105u8, 115u8, 45u8, 118u8, 101u8, 114u8, 5u8, 55u8, 46u8, 50u8, 46u8, 48u8, 250u8, 10u8,
        114u8, 101u8, 100u8, 105u8, 115u8, 45u8, 98u8, 105u8, 116u8, 115u8, 192u8, 64u8, 250u8,
        5u8, 99u8, 116u8, 105u8, 109u8, 101u8, 194u8, 109u8, 8u8, 188u8, 101u8, 250u8, 8u8, 117u8,
        115u8, 101u8, 100u8, 45u8, 109u8, 101u8, 109u8, 194u8, 176u8, 196u8, 16u8, 0u8, 250u8,
        8u8, 97u8, 111u8, 102u8, 45u8, 98u8, 97u8, 115u8, 101u8, 192u8, 0u8, 255u8, 240u8, 110u8,
        59u8, 254u8, 192u8, 255u8, 90u8, 162u8,
    ]
}

/// The bytes of the snapshot transfer that follows `+FULLRESYNC`: a
/// bulk-string header, then the snapshot, with no trailing terminator.
pub open spec fn spec_rdb_transfer() -> Seq<u8> {
    seq![crate::resp::SIGIL_BULK] + dec_digits(spec_empty_rdb().len()) + crlf() + spec_empty_rdb()
}

/// Builds the snapshot transfer sent to a synchronising replica.
pub fn send_rdb_file() -> (r: Vec<u8>)
    ensures
        r@ == spec_rdb_transfer(),
{
    let payload: Vec<u8> = vec![
        82u8, 69u8, 68u8, 73u8, 83u8, 48u8, 48u8, 49u8, 49u8, 250u8, 9u8, 114u8, 101u8, 100u8,
        105u8, 115u8, 45u8, 118u8, 101u8, 114u8, 5u8, 55u8, 46u8, 50u8, 46u8, 48u8, 250u8, 10u8,
        114u8, 101u8, 100u8, 105u8, 115u8, 45u8, 98u8, 105u8, 116u8, 115u8, 192u8, 64u8, 250u8,
        5u8, 99u8, 116u8, 105u8, 109u8, 101u8, 194u8, 109u8, 8u8, 188u8, 101u8, 250u8, 8u8, 117u8,
        115u8, 101u8, 100u8, 45u8, 109u8, 101u8, 109u8, 194u8, 176u8, 196u8, 16u8, 0u8, 250u8,
        8u8, 97u8, 111u8, 102u8, 45u8, 98u8, 97u8, 115u8, 101u8, 192u8, 0u8, 255u8, 240u8, 110u8,
        59u8, 254u8, 192u8, 255u8, 90u8, 162u8,
    ];
    proof {
        assert(payload@ =~= spec_empty_rdb());
    }
    let mut out: Vec<u8> = Vec::new();
    out.push(crate::resp::SIGIL_BULK);
    crate::resp::push_dec_u64(payload.len() as u64, &mut out);
    push_crlf(&mut out);
    out.extend_from_slice(payload.as_slice());
    proof {
        assert(out@ =~= spec_rdb_transfer());
    }
    out
}

} // verus!
