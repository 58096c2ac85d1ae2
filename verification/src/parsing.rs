//! Frame dispatch and per-connection transaction state.
//!
//! `parse_redis_message` consumes every complete frame at the front of a
//! buffer: it uppercases the verb, runs the command (or queues it inside
//! a transaction), and, on a replica, advances the applied-byte counter
//! by each frame's length. Its contract is a recursive spec function over
//! the buffer and the server state, so the whole loop is pinned down
//! frame by frame.

use vstd::prelude::*;

use crate::codec::Decoded;
use crate::codec::FrameParse;
use crate::codec::decode_frame;
use crate::codec::parse_frame;
use crate::codec::upper_bytes;
use crate::codec::uppercase;
use crate::commands::args_view;
use crate::commands::config_view;
use crate::commands::spec_config;
use crate::commands::spec_echo;
use crate::commands::spec_get;
use crate::commands::spec_get_pairs;
use crate::commands::spec_incr;
use crate::commands::spec_incr_pairs;
use crate::commands::spec_info;
use crate::commands::spec_keys;
use crate::commands::spec_ping;
use crate::commands::spec_psync;
use crate::commands::spec_replconf;
use crate::commands::spec_set;
use crate::commands::spec_set_pairs;
use crate::commands::spec_type;
use crate::database::RecordView;
use crate::database::RedisDatabase;
use crate::database::ReplValueView;
use crate::database::repl_view;
use crate::database::store_view;
use crate::kv::assoc_insert;
use crate::kv::bytes_eq;
use crate::kv::kv_map;
use crate::kv::unique_keys;
use crate::resp::ascii_bytes;
use crate::resp::encode_frame;
use crate::resp::error_reply;
use crate::resp::resp_error;
use crate::resp::str_bytes;
use crate::resp::array_header;
use crate::stream::StreamID;
use crate::stream_commands::XreadOutcome;
use crate::stream_commands::XreadOutcomeSpec;
use crate::stream_commands::db_inv;
use crate::stream_commands::spec_xadd;
use crate::stream_commands::spec_xadd_pairs;
use crate::stream_commands::spec_xrange;
use crate::stream_commands::spec_xread;
use crate::stream_commands::streams_ok;
use crate::stream_commands::watch_view;

verus! {

/// What running one command produced: a reply to write back, or the
/// watch list and timeout of a blocking tail read.
pub enum Dispatched {
    Reply(Vec<u8>),
    XreadBlock(u64, Vec<(Vec<u8>, StreamID)>),
}

/// The spec value of a `Dispatched`.
pub open spec fn dispatched_view(d: Dispatched) -> XreadOutcomeSpec {
    match d {
        Dispatched::Reply(v) => XreadOutcomeSpec::Reply(v@),
        Dispatched::XreadBlock(ms, w) => XreadOutcomeSpec::Block(ms, watch_view(w@)),
    }
}

/// The state change and outcome of one command: the keyspace pairs it
/// leaves behind and the reply it produces. `WAIT` replies nothing here;
/// the connection layer runs its barrier.
#[verifier::opaque]
pub open spec fn spec_dispatch(
    pairs: Seq<(Seq<u8>, RecordView)>,
    repl: Seq<(Seq<u8>, ReplValueView)>,
    cfg: Map<Seq<u8>, Seq<u8>>,
    verb: Seq<u8>,
    args: Seq<Seq<u8>>,
    now_ms: u64,
) -> (Seq<(Seq<u8>, RecordView)>, XreadOutcomeSpec) {
    let m = kv_map(pairs);
    if verb == ascii_bytes("SET"@) {
        (
            spec_set_pairs(pairs, args, now_ms),
            XreadOutcomeSpec::Reply(spec_set(m, args, now_ms).1),
        )
    } else if verb == ascii_bytes("GET"@) {
        (
            spec_get_pairs(pairs, args, now_ms),
            XreadOutcomeSpec::Reply(spec_get(m, args, now_ms).1),
        )
    } else if verb == ascii_bytes("CONFIG"@) {
        (pairs, XreadOutcomeSpec::Reply(spec_config(cfg, args)))
    } else if verb == ascii_bytes("KEYS"@) {
        (pairs, XreadOutcomeSpec::Reply(spec_keys(pairs)))
    } else if verb == ascii_bytes("ECHO"@) {
        (pairs, XreadOutcomeSpec::Reply(spec_echo(args)))
    } else if verb == ascii_bytes("PING"@) {
        (pairs, XreadOutcomeSpec::Reply(spec_ping(args)))
    } else if verb == ascii_bytes("INFO"@) {
        (pairs, XreadOutcomeSpec::Reply(spec_info(repl, args)))
    } else if verb == ascii_bytes("REPLCONF"@) {
        (pairs, XreadOutcomeSpec::Reply(spec_replconf(kv_map(repl), args)))
    } else if verb == ascii_bytes("PSYNC"@) {
        (pairs, XreadOutcomeSpec::Reply(spec_psync(kv_map(repl), args)))
    } else if verb == ascii_bytes("WAIT"@) {
        (pairs, XreadOutcomeSpec::Reply(Seq::empty()))
    } else if verb == ascii_bytes("TYPE"@) {
        (pairs, XreadOutcomeSpec::Reply(spec_type(m, args, now_ms)))
    } else if verb == ascii_bytes("XADD"@) {
        (
            spec_xadd_pairs(pairs, args, now_ms),
            XreadOutcomeSpec::Reply(spec_xadd(m, args, now_ms).1),
        )
    } else if verb == ascii_bytes("XRANGE"@) {
        (pairs, XreadOutcomeSpec::Reply(spec_xrange(m, args)))
    } else if verb == ascii_bytes("XREAD"@) {
        (pairs, spec_xread(m, args))
    } else if verb == ascii_bytes("INCR"@) {
        (
            spec_incr_pairs(pairs, args, now_ms),
            XreadOutcomeSpec::Reply(spec_incr(m, args, now_ms).1),
        )
    } else if verb == ascii_bytes("DEL"@) {
        (
            crate::commands::spec_del_pairs(pairs, args),
            XreadOutcomeSpec::Reply(crate::commands::spec_del(m, args, now_ms).1),
        )
    } else {
        (pairs, XreadOutcomeSpec::Reply(resp_error(ascii_bytes("ERR unknown command"@))))
    }
}

/// The SET state change keeps every stream well formed.
proof fn lemma_spec_set_streams_ok(m: Map<Seq<u8>, RecordView>, args: Seq<Seq<u8>>, now_ms: u64)
    requires
        streams_ok(m),
    ensures
        streams_ok(spec_set(m, args, now_ms).0),
{
}

/// The GET state change keeps every stream well formed.
proof fn lemma_spec_get_streams_ok(m: Map<Seq<u8>, RecordView>, args: Seq<Seq<u8>>, now_ms: u64)
    requires
        streams_ok(m),
    ensures
        streams_ok(spec_get(m, args, now_ms).0),
{
}

/// The INCR state change keeps every stream well formed.
proof fn lemma_spec_incr_streams_ok(m: Map<Seq<u8>, RecordView>, args: Seq<Seq<u8>>, now_ms: u64)
    requires
        streams_ok(m),
    ensures
        streams_ok(spec_incr(m, args, now_ms).0),
{
}

/// The DEL state change keeps every stream well formed.
proof fn lemma_spec_del_streams_ok(m: Map<Seq<u8>, RecordView>, args: Seq<Seq<u8>>, now_ms: u64)
    requires
        streams_ok(m),
    ensures
        streams_ok(crate::commands::spec_del(m, args, now_ms).0),
{
}

/// Runs one command against the database.
pub fn dispatch_command(
    db: &mut RedisDatabase,
    config_map: &Vec<(Vec<u8>, Vec<u8>)>,
    verb: &[u8],
    args: &Vec<Vec<u8>>,
    now_ms: u64,
) -> (r: Dispatched)
    requires
        db_inv(old(db)),
        unique_keys(config_view(config_map@)),
    ensures
        db_inv(final(db)),
        ({
            let (p2, out) = spec_dispatch(
                store_view(old(db).data@),
                repl_view(old(db).replication_info@),
                kv_map(config_view(config_map@)),
                verb@,
                args_view(args@),
                now_ms,
            );
            store_view(final(db).data@) == p2 && dispatched_view(r) == out
        }),
        final(db).replication_info == old(db).replication_info,
        final(db).slave_connections == old(db).slave_connections,
        final(db).ack_counter == old(db).ack_counter,
{
    proof {
        reveal(spec_dispatch);
        reveal_strlit("SET");
        reveal_strlit("GET");
        reveal_strlit("CONFIG");
        reveal_strlit("KEYS");
        reveal_strlit("ECHO");
        reveal_strlit("PING");
        reveal_strlit("INFO");
        reveal_strlit("REPLCONF");
        reveal_strlit("PSYNC");
        reveal_strlit("WAIT");
        reveal_strlit("TYPE");
        reveal_strlit("XADD");
        reveal_strlit("XRANGE");
        reveal_strlit("XREAD");
        reveal_strlit("INCR");
        reveal_strlit("DEL");
        reveal_strlit("ERR unknown command");
    }
    let ghost m0 = old(db).data_map();
    let ghost a = args_view(args@);
    let set_lit = str_bytes("SET");
    let get_lit = str_bytes("GET");
    let config_lit = str_bytes("CONFIG");
    let keys_lit = str_bytes("KEYS");
    let echo_lit = str_bytes("ECHO");
    let ping_lit = str_bytes("PING");
    let info_lit = str_bytes("INFO");
    let replconf_lit = str_bytes("REPLCONF");
    let psync_lit = str_bytes("PSYNC");
    let wait_lit = str_bytes("WAIT");
    let type_lit = str_bytes("TYPE");
    let xadd_lit = str_bytes("XADD");
    let xrange_lit = str_bytes("XRANGE");
    let xread_lit = str_bytes("XREAD");
    let incr_lit = str_bytes("INCR");
    let del_lit = str_bytes("DEL");
    if bytes_eq(verb, set_lit.as_slice()) {
        let reply = crate::commands::handle_set(db, args, now_ms);
        proof {
            lemma_spec_set_streams_ok(m0, a, now_ms);
        }
        Dispatched::Reply(reply)
    } else if bytes_eq(verb, get_lit.as_slice()) {
        let reply = crate::commands::handle_get(db, args, now_ms);
        proof {
            lemma_spec_get_streams_ok(m0, a, now_ms);
        }
        Dispatched::Reply(reply)
    } else if bytes_eq(verb, config_lit.as_slice()) {
        Dispatched::Reply(crate::commands::handle_config(config_map, args))
    } else if bytes_eq(verb, keys_lit.as_slice()) {
        Dispatched::Reply(crate::commands::handle_keys(db))
    } else if bytes_eq(verb, echo_lit.as_slice()) {
        Dispatched::Reply(crate::commands::handle_echo(args))
    } else if bytes_eq(verb, ping_lit.as_slice()) {
        Dispatched::Reply(crate::commands::handle_ping(args))
    } else if bytes_eq(verb, info_lit.as_slice()) {
        Dispatched::Reply(crate::commands::handle_info(db, args))
    } else if bytes_eq(verb, replconf_lit.as_slice()) {
        Dispatched::Reply(crate::commands::handle_replconf(db, args))
    } else if bytes_eq(verb, psync_lit.as_slice()) {
        Dispatched::Reply(crate::commands::handle_psync(db, args))
    } else if bytes_eq(verb, wait_lit.as_slice()) {
        Dispatched::Reply(Vec::new())
    } else if bytes_eq(verb, type_lit.as_slice()) {
        Dispatched::Reply(crate::commands::handle_type(db, args, now_ms))
    } else if bytes_eq(verb, xadd_lit.as_slice()) {
        Dispatched::Reply(crate::stream_commands::handle_xadd(db, args, now_ms))
    } else if bytes_eq(verb, xrange_lit.as_slice()) {
        Dispatched::Reply(crate::stream_commands::handle_xrange(db, args))
    } else if bytes_eq(verb, xread_lit.as_slice()) {
        match crate::stream_commands::handle_xread(db, args) {
            XreadOutcome::Reply(v) => Dispatched::Reply(v),
            XreadOutcome::Block(ms, w) => Dispatched::XreadBlock(ms, w),
        }
    } else if bytes_eq(verb, incr_lit.as_slice()) {
        let reply = crate::commands::handle_incr(db, args, now_ms);
        proof {
            lemma_spec_incr_streams_ok(m0, a, now_ms);
        }
        Dispatched::Reply(reply)
    } else if bytes_eq(verb, del_lit.as_slice()) {
        let reply = crate::commands::handle_del(db, args, now_ms);
        proof {
            lemma_spec_del_streams_ok(m0, a, now_ms);
        }
        Dispatched::Reply(reply)
    } else {
        Dispatched::Reply(error_reply("ERR unknown command"))
    }
}

/// Per-connection state: the transaction queue, when one is open.
pub struct ClientState {
    pub multi_queue: Option<Vec<(Vec<u8>, Vec<Vec<u8>>)>>,
}

/// The queued commands, as verbs and argument vectors.
pub open spec fn queue_view(q: Seq<(Vec<u8>, Vec<Vec<u8>>)>) -> Seq<(Seq<u8>, Seq<Seq<u8>>)> {
    q.map_values(|p: (Vec<u8>, Vec<Vec<u8>>)| (p.0@, args_view(p.1@)))
}

/// The transaction state, if a transaction is open.
pub open spec fn state_view(s: ClientState) -> Option<Seq<(Seq<u8>, Seq<Seq<u8>>)>> {
    match s.multi_queue {
        Some(q) => Some(queue_view(q@)),
        None => None,
    }
}

impl ClientState {
    /// A connection outside any transaction.
    pub fn new() -> (r: Self)
        ensures
            state_view(r) is None,
    {
        ClientState { multi_queue: None }
    }

    /// Whether a transaction is open.
    pub fn in_transaction(&self) -> (r: bool)
        ensures
            r == (state_view(*self) is Some),
    {
        self.multi_queue.is_some()
    }
}

/// The concatenation of a batch of reply byte strings.
pub open spec fn cat_blobs(rs: Seq<Seq<u8>>) -> Seq<u8>
    decreases rs.len(),
{
    if rs.len() == 0 {
        Seq::empty()
    } else {
        cat_blobs(rs.drop_last()) + rs.last()
    }
}

/// The reply of EXEC: an array header for the queued commands, followed
/// by each command's own reply bytes, in order.
pub open spec fn exec_reply(replies: Seq<Seq<u8>>) -> Seq<u8> {
    array_header(replies.len()) + cat_blobs(replies)
}

/// The keyspace pairs and replies after running the queued commands in
/// order. A blocking tail read inside a transaction gets the empty
/// array, as if nothing were ready.
pub open spec fn spec_run_queue(
    pairs: Seq<(Seq<u8>, RecordView)>,
    repl: Seq<(Seq<u8>, ReplValueView)>,
    cfg: Map<Seq<u8>, Seq<u8>>,
    q: Seq<(Seq<u8>, Seq<Seq<u8>>)>,
    now_ms: u64,
) -> (Seq<(Seq<u8>, RecordView)>, Seq<Seq<u8>>)
    decreases q.len(),
{
    if q.len() == 0 {
        (pairs, Seq::empty())
    } else {
        let (p1, out) = spec_dispatch(pairs, repl, cfg, q[0].0, q[0].1, now_ms);
        let reply = match out {
            XreadOutcomeSpec::Reply(v) => v,
            XreadOutcomeSpec::Block(_, _) => array_header(0),
        };
        let (pf, rest) = spec_run_queue(p1, repl, cfg, q.skip(1), now_ms);
        (pf, seq![reply] + rest)
    }
}

/// Runs the queued commands and frames their replies as one array:
/// the element count, then each reply's own bytes.
pub fn execute_queued_commands(
    queue: &Option<Vec<(Vec<u8>, Vec<Vec<u8>>)>>,
    db: &mut RedisDatabase,
    config_map: &Vec<(Vec<u8>, Vec<u8>)>,
    now_ms: u64,
) -> (r: Vec<u8>)
    requires
        db_inv(old(db)),
        unique_keys(config_view(config_map@)),
    ensures
        db_inv(final(db)),
        ({
            let q = match *queue {
                Some(qv) => queue_view(qv@),
                None => Seq::empty(),
            };
            let (pf, replies) = spec_run_queue(
                store_view(old(db).data@),
                repl_view(old(db).replication_info@),
                kv_map(config_view(config_map@)),
                q,
                now_ms,
            );
            store_view(final(db).data@) == pf && r@ == exec_reply(replies)
        }),
        final(db).replication_info == old(db).replication_info,
        final(db).slave_connections == old(db).slave_connections,
        final(db).ack_counter == old(db).ack_counter,
{
    let ghost repl0 = repl_view(db.replication_info@);
    let ghost cfg = kv_map(config_view(config_map@));
    let mut replies: Vec<Vec<u8>> = Vec::new();
    match queue {
        None => {},
        Some(q) => {
            let ghost qv = queue_view(q@);
            let mut i: usize = 0;
            proof {
                assert(qv.skip(0) =~= qv);
                let (pf, rest) = spec_run_queue(store_view(db.data@), repl0, cfg, qv, now_ms);
                assert(crate::resp::views_of(replies@) + rest =~= rest);
            }
            while i < q.len()
                invariant
                    db_inv(db),
                    unique_keys(config_view(config_map@)),
                    repl0 == repl_view(db.replication_info@),
                    cfg == kv_map(config_view(config_map@)),
                    qv == queue_view(q@),
                    i <= qv.len(),
                    db.replication_info == old(db).replication_info,
                    db.slave_connections == old(db).slave_connections,
                    db.ack_counter == old(db).ack_counter,
                    spec_run_queue(
                        store_view(old(db).data@),
                        repl0,
                        cfg,
                        qv,
                        now_ms,
                    ) == (({
                        let (pf, rest) = spec_run_queue(
                            store_view(db.data@),
                            repl0,
                            cfg,
                            qv.skip(i as int),
                            now_ms,
                        );
                        (pf, crate::resp::views_of(replies@) + rest)
                    })),
                decreases qv.len() - i,
            {
                proof {
                    assert(qv.skip(i as int)[0] == (q@[i as int].0@, args_view(q@[i as int].1@)));
                    assert(qv.skip(i as int).skip(1) =~= qv.skip(i + 1 as int));
                }
                let pair = &q[i];
                let ghost replies_prev = replies@;
                let out = dispatch_command(db, config_map, pair.0.as_slice(), &pair.1, now_ms);
                let reply: Vec<u8> = match out {
                    Dispatched::Reply(v) => v,
                    Dispatched::XreadBlock(_, _) => {
                        let mut e: Vec<u8> = Vec::new();
                        crate::resp::push_array_header(0, &mut e);
                        proof {
                            assert(e@ =~= array_header(0));
                        }
                        e
                    },
                };
                replies.push(reply);
                proof {
                    let (pf2, rest2) = spec_run_queue(
                        store_view(db.data@),
                        repl0,
                        cfg,
                        qv.skip(i + 1 as int),
                        now_ms,
                    );
                    assert(crate::resp::views_of(replies@) =~= crate::resp::views_of(
                        replies_prev,
                    ).push(replies@.last()@));
                    assert(crate::resp::views_of(replies_prev) + (seq![replies@.last()@] + rest2)
                        =~= crate::resp::views_of(replies@) + rest2);
                }
                i = i + 1;
            }
            proof {
                assert(qv.skip(qv.len() as int) =~= Seq::<(Seq<u8>, Seq<Seq<u8>>)>::empty());
                assert(crate::resp::views_of(replies@) + Seq::<Seq<u8>>::empty() =~= crate::resp::views_of(
                    replies@,
                ));
            }
        },
    }
    let mut out: Vec<u8> = Vec::new();
    crate::resp::push_array_header(replies.len() as u64, &mut out);
    let ghost rv = crate::resp::views_of(replies@);
    let mut j: usize = 0;
    while j < replies.len()
        invariant
            rv == crate::resp::views_of(replies@),
            j <= rv.len(),
            out@ == array_header(rv.len()) + cat_blobs(rv.take(j as int)),
        decreases rv.len() - j,
    {
        out.extend_from_slice(replies[j].as_slice());
        proof {
            assert(rv.take(j + 1 as int).drop_last() =~= rv.take(j as int));
            assert(rv.take(j + 1 as int).last() == rv[j as int]);
            assert(rv[j as int] == replies@[j as int]@);
            assert(out@ =~= array_header(rv.len()) + cat_blobs(rv.take(j + 1 as int)));
        }
        j = j + 1;
    }
    proof {
        assert(rv.take(rv.len() as int) =~= rv);
    }
    out
}

/// One processed frame: the uppercased verb, its arguments, the outcome,
/// the frame's byte length (zero for transaction-control replies), and
/// the frames the fan-out owes the replicas for it. A write run directly
/// is propagated by the transport from the received bytes; a transaction
/// hands its executed writes here, re-framed, since their queued frames
/// were answered `+QUEUED` and never forwarded.
pub struct StepResult {
    pub command: Option<Vec<u8>>,
    pub args: Vec<Vec<u8>>,
    pub out: Dispatched,
    pub byte_length: usize,
    pub propagate: Option<Vec<Vec<u8>>>,
}

/// The spec value of one processed frame.
pub struct StepItem {
    pub verb: Option<Seq<u8>>,
    pub args: Seq<Seq<u8>>,
    pub out: XreadOutcomeSpec,
    pub byte_length: nat,
    pub propagate: Seq<Seq<u8>>,
}

/// The spec value of a `StepResult`.
pub open spec fn step_view(s: StepResult) -> StepItem {
    StepItem {
        verb: match s.command {
            Some(v) => Some(v@),
            None => None,
        },
        args: args_view(s.args@),
        out: dispatched_view(s.out),
        byte_length: s.byte_length as nat,
        propagate: match s.propagate {
            Some(v) => crate::resp::views_of(v@),
            None => Seq::empty(),
        },
    }
}

/// The spec values of the processed frames.
pub open spec fn results_view(rs: Seq<StepResult>) -> Seq<StepItem> {
    rs.map_values(|s: StepResult| step_view(s))
}

/// The server state a connection acts on: keyspace pairs, replication
/// pairs, and the open transaction queue.
pub struct SessState {
    pub pairs: Seq<(Seq<u8>, RecordView)>,
    pub repl: Seq<(Seq<u8>, ReplValueView)>,
    pub queue: Option<Seq<(Seq<u8>, Seq<Seq<u8>>)>>,
}

/// The current spec state of database and connection.
pub open spec fn sess_state(db: RedisDatabase, st: ClientState) -> SessState {
    SessState {
        pairs: store_view(db.data@),
        repl: repl_view(db.replication_info@),
        queue: state_view(st),
    }
}

/// On a replica, one applied frame advances the applied-byte counter by
/// the frame's length (saturating); elsewhere nothing changes.
pub open spec fn spec_slave_account(
    repl: Seq<(Seq<u8>, ReplValueView)>,
    used: nat,
) -> Seq<(Seq<u8>, ReplValueView)> {
    let rm = kv_map(repl);
    if rm.contains_key(ascii_bytes("role"@)) && rm[ascii_bytes("role"@)] == ReplValueView::Str(
        ascii_bytes("slave"@),
    ) {
        let cur: nat = if rm.contains_key(ascii_bytes("slave_repl_offset"@)) {
            match rm[ascii_bytes("slave_repl_offset"@)] {
                ReplValueView::Bytes(n) => n as nat,
                ReplValueView::Str(_) => 0,
            }
        } else {
            0
        };
        let next: nat = if cur + used > usize::MAX {
            usize::MAX as nat
        } else {
            cur + used
        };
        assoc_insert(repl, ascii_bytes("slave_repl_offset"@), ReplValueView::Bytes(next as usize))
    } else {
        repl
    }
}

/// Advances the applied-byte counter on a replica.
pub fn slave_account(db: &mut RedisDatabase, used: usize)
    requires
        old(db).wf(),
    ensures
        final(db).wf(),
        repl_view(final(db).replication_info@) == spec_slave_account(
            repl_view(old(db).replication_info@),
            used as nat,
        ),
        final(db).data == old(db).data,
        final(db).slave_connections == old(db).slave_connections,
        final(db).ack_counter == old(db).ack_counter,
{
    proof {
        reveal_strlit("role");
        reveal_strlit("slave");
        reveal_strlit("slave_repl_offset");
    }
    let role_key = str_bytes("role");
    let slave_lit = str_bytes("slave");
    let offset_key = str_bytes("slave_repl_offset");
    let is_slave = match db.get_replication_info(role_key.as_slice()) {
        Some(v) => match v {
            crate::database::ReplicationInfoValue::StringValue(s) => bytes_eq(
                s.as_slice(),
                slave_lit.as_slice(),
            ),
            _ => false,
        },
        None => false,
    };
    if is_slave {
        let cur: usize = match db.get_replication_info(offset_key.as_slice()) {
            Some(v) => match v {
                crate::database::ReplicationInfoValue::ByteValue(n) => *n,
                _ => 0,
            },
            None => 0,
        };
        let next: usize = if cur > usize::MAX - used {
            usize::MAX
        } else {
            cur + used
        };
        db.update_replication_info(
            offset_key,
            crate::database::ReplicationInfoValue::ByteValue(next),
        );
    }
}

/// Copies a vector of arguments, preserving its value.
pub fn copy_args(args: &Vec<Vec<u8>>) -> (r: Vec<Vec<u8>>)
    ensures
        args_view(r@) == args_view(args@),
{
    let mut out: Vec<Vec<u8>> = Vec::new();
    let mut i: usize = 0;
    while i < args.len()
        invariant
            i <= args@.len(),
            out@.len() == i,
            args_view(out@) =~= args_view(args@.take(i as int)),
        decreases args@.len() - i,
    {
        let ghost prev = out@;
        out.push(vstd::slice::slice_to_vec(args[i].as_slice()));
        proof {
            assert forall|k: int| 0 <= k < out@.len() implies args_view(out@)[k] == args_view(
                args@.take(i + 1 as int),
            )[k] by {
                if k < out@.len() - 1 {
                    assert(out@[k] == prev[k]);
                    assert(args_view(prev)[k] == args_view(args@.take(i as int))[k]);
                }
            }
            assert(args_view(out@) =~= args_view(args@.take(i + 1 as int)));
        }
        i = i + 1;
    }
    proof {
        assert(args@.take(args@.len() as int) =~= args@);
        assert(args_view(out@) =~= args_view(args@));
    }
    out
}

/// The write commands a transaction ran, each re-framed as an array of
/// bulk strings for fan-out to the replicas.
pub open spec fn spec_exec_forwards(q: Seq<(Seq<u8>, Seq<Seq<u8>>)>) -> Seq<Seq<u8>>
    decreases q.len(),
{
    if q.len() == 0 {
        Seq::empty()
    } else {
        let rest = spec_exec_forwards(q.skip(1));
        if crate::commands::spec_forward(q[0].0) {
            seq![encode_frame(seq![q[0].0] + q[0].1)] + rest
        } else {
            rest
        }
    }
}

/// Re-frames the write commands of an executed transaction for fan-out.
pub fn exec_forward_frames(queue: &Vec<(Vec<u8>, Vec<Vec<u8>>)>) -> (r: Vec<Vec<u8>>)
    ensures
        crate::resp::views_of(r@) == spec_exec_forwards(queue_view(queue@)),
{
    let ghost qv = queue_view(queue@);
    let mut out: Vec<Vec<u8>> = Vec::new();
    let mut i: usize = 0;
    proof {
        assert(qv.skip(0) =~= qv);
        assert(crate::resp::views_of(out@) + spec_exec_forwards(qv) =~= spec_exec_forwards(qv));
    }
    while i < queue.len()
        invariant
            qv == queue_view(queue@),
            i <= qv.len(),
            spec_exec_forwards(qv) == crate::resp::views_of(out@) + spec_exec_forwards(
                qv.skip(i as int),
            ),
        decreases qv.len() - i,
    {
        proof {
            assert(qv.skip(i as int)[0] == (queue@[i as int].0@, args_view(queue@[i as int].1@)));
            assert(qv.skip(i as int).skip(1) =~= qv.skip(i + 1 as int));
        }
        let pair = &queue[i];
        if crate::commands::should_forward_to_slaves(pair.0.as_slice()) {
            let mut items = copy_args(&pair.1);
            items.insert(0, vstd::slice::slice_to_vec(pair.0.as_slice()));
            proof {
                assert(crate::resp::views_of(items@) =~= seq![queue@[i as int].0@] + args_view(
                    queue@[i as int].1@,
                ));
            }
            let frame = crate::resp::encode_command(&items);
            let ghost prev = out@;
            out.push(frame);
            proof {
                assert(crate::resp::views_of(out@) =~= crate::resp::views_of(prev).push(
                    out@.last()@,
                ));
                assert(crate::resp::views_of(prev) + (seq![out@.last()@] + spec_exec_forwards(
                    qv.skip(i + 1 as int),
                )) =~= crate::resp::views_of(out@) + spec_exec_forwards(qv.skip(i + 1 as int)));
            }
        }
        i = i + 1;
    }
    proof {
        assert(qv.skip(qv.len() as int) =~= Seq::<(Seq<u8>, Seq<Seq<u8>>)>::empty());
        assert(crate::resp::views_of(out@) + Seq::<Seq<u8>>::empty() =~= crate::resp::views_of(
            out@,
        ));
    }
    out
}

/// How one frame is processed: transaction control runs here, a queued
/// command is remembered with a `+QUEUED` reply and no length, and any
/// other command is dispatched, a replica accounting its byte length.
/// EXEC also hands over the executed writes, re-framed, for fan-out.
#[verifier::opaque]
pub open spec fn spec_frame_step(
    st: SessState,
    cfg: Map<Seq<u8>, Seq<u8>>,
    items: Seq<Seq<u8>>,
    used: nat,
    now_ms: u64,
) -> (SessState, StepItem) {
    let verb_opt: Option<Seq<u8>> = if items.len() == 0 {
        None
    } else {
        Some(upper_bytes(items[0]))
    };
    let verb: Seq<u8> = match verb_opt {
        Some(v) => v,
        None => Seq::empty(),
    };
    let args: Seq<Seq<u8>> = if items.len() == 0 {
        Seq::empty()
    } else {
        items.skip(1)
    };
    if verb == ascii_bytes("MULTI"@) {
        match st.queue {
            Some(_) => (
                st,
                StepItem {
                    verb: verb_opt,
                    args: Seq::empty(),
                    out: XreadOutcomeSpec::Reply(
                        resp_error(ascii_bytes("ERR MULTI already started"@)),
                    ),
                    byte_length: 0,
                    propagate: Seq::empty(),
                },
            ),
            None => (
                SessState { pairs: st.pairs, repl: st.repl, queue: Some(Seq::empty()) },
                StepItem {
                    verb: verb_opt,
                    args: Seq::empty(),
                    out: XreadOutcomeSpec::Reply(crate::resp::resp_simple(ascii_bytes("OK"@))),
                    byte_length: 0,
                    propagate: Seq::empty(),
                },
            ),
        }
    } else if verb == ascii_bytes("EXEC"@) {
        match st.queue {
            Some(q) => {
                let (pf, replies) = spec_run_queue(st.pairs, st.repl, cfg, q, now_ms);
                (
                    SessState { pairs: pf, repl: st.repl, queue: None },
                    StepItem {
                        verb: verb_opt,
                        args: Seq::empty(),
                        out: XreadOutcomeSpec::Reply(exec_reply(replies)),
                        byte_length: 0,
                        propagate: spec_exec_forwards(q),
                    },
                )
            },
            None => (
                st,
                StepItem {
                    verb: verb_opt,
                    args: Seq::empty(),
                    out: XreadOutcomeSpec::Reply(resp_error(ascii_bytes("ERR EXEC without MULTI"@))),
                    byte_length: 0,
                    propagate: Seq::empty(),
                },
            ),
        }
    } else if verb == ascii_bytes("DISCARD"@) {
        match st.queue {
            Some(_) => (
                SessState { pairs: st.pairs, repl: st.repl, queue: None },
                StepItem {
                    verb: verb_opt,
                    args: Seq::empty(),
                    out: XreadOutcomeSpec::Reply(crate::resp::resp_simple(ascii_bytes("OK"@))),
                    byte_length: 0,
                    propagate: Seq::empty(),
                },
            ),
            None => (
                st,
                StepItem {
                    verb: verb_opt,
                    args: Seq::empty(),
                    out: XreadOutcomeSpec::Reply(
                        resp_error(ascii_bytes("ERR DISCARD without MULTI"@)),
                    ),
                    byte_length: 0,
                    propagate: Seq::empty(),
                },
            ),
        }
    } else {
        match st.queue {
            Some(q) => (
                SessState { pairs: st.pairs, repl: st.repl, queue: Some(q.push((verb, args))) },
                StepItem {
                    verb: verb_opt,
                    args,
                    out: XreadOutcomeSpec::Reply(crate::resp::resp_simple(ascii_bytes("QUEUED"@))),
                    byte_length: 0,
                    propagate: Seq::empty(),
                },
            ),
            None => {
                let (p2, out) = spec_dispatch(st.pairs, st.repl, cfg, verb, args, now_ms);
                (
                    SessState {
                        pairs: p2,
                        repl: spec_slave_account(st.repl, used),
                        queue: None,
                    },
                    StepItem { verb: verb_opt, args, out, byte_length: used, propagate: Seq::empty() },
                )
            },
        }
    }
}

/// Processes one decoded frame.
pub fn frame_step(
    db: &mut RedisDatabase,
    config_map: &Vec<(Vec<u8>, Vec<u8>)>,
    client_state: &mut ClientState,
    items: Vec<Vec<u8>>,
    used: usize,
    now_ms: u64,
) -> (r: StepResult)
    requires
        db_inv(old(db)),
        unique_keys(config_view(config_map@)),
    ensures
        db_inv(final(db)),
        ({
            let (st2, item) = spec_frame_step(
                sess_state(*old(db), *old(client_state)),
                kv_map(config_view(config_map@)),
                crate::resp::views_of(items@),
                used as nat,
                now_ms,
            );
            store_view(final(db).data@) == st2.pairs && repl_view(final(db).replication_info@)
                == st2.repl && state_view(*final(client_state)) == st2.queue && step_view(r)
                == item
        }),
        final(db).slave_connections == old(db).slave_connections,
        final(db).ack_counter == old(db).ack_counter,
{
    proof {
        reveal(spec_frame_step);
        reveal_strlit("MULTI");
        reveal_strlit("EXEC");
        reveal_strlit("DISCARD");
        reveal_strlit("OK");
        reveal_strlit("QUEUED");
        reveal_strlit("ERR MULTI already started");
        reveal_strlit("ERR EXEC without MULTI");
        reveal_strlit("ERR DISCARD without MULTI");
    }
    let ghost iv = crate::resp::views_of(items@);
    let mut items = items;
    let (command, args): (Option<Vec<u8>>, Vec<Vec<u8>>) = if items.len() == 0 {
        (None, Vec::new())
    } else {
        let rest = items.split_off(1);
        let verb = uppercase(items[0].as_slice());
        (Some(verb), rest)
    };
    proof {
        if iv.len() == 0 {
            assert(args_view(args@) =~= Seq::<Seq<u8>>::empty());
        } else {
            assert(args_view(args@) =~= iv.skip(1));
            assert(command.unwrap()@ == upper_bytes(iv[0]));
        }
    }
    let no_args1: Vec<Vec<u8>> = Vec::new();
    let no_args2: Vec<Vec<u8>> = Vec::new();
    let no_args3: Vec<Vec<u8>> = Vec::new();
    let no_args4: Vec<Vec<u8>> = Vec::new();
    let no_args5: Vec<Vec<u8>> = Vec::new();
    let no_args6: Vec<Vec<u8>> = Vec::new();
    proof {
        assert(args_view(no_args1@) =~= Seq::<Seq<u8>>::empty());
        assert(args_view(no_args2@) =~= Seq::<Seq<u8>>::empty());
        assert(args_view(no_args3@) =~= Seq::<Seq<u8>>::empty());
        assert(args_view(no_args4@) =~= Seq::<Seq<u8>>::empty());
        assert(args_view(no_args5@) =~= Seq::<Seq<u8>>::empty());
        assert(args_view(no_args6@) =~= Seq::<Seq<u8>>::empty());
    }
    let multi_lit = str_bytes("MULTI");
    let exec_lit = str_bytes("EXEC");
    let discard_lit = str_bytes("DISCARD");
    let is_multi = match &command {
        Some(v) => bytes_eq(v.as_slice(), multi_lit.as_slice()),
        None => false,
    };
    let is_exec = match &command {
        Some(v) => bytes_eq(v.as_slice(), exec_lit.as_slice()),
        None => false,
    };
    let is_discard = match &command {
        Some(v) => bytes_eq(v.as_slice(), discard_lit.as_slice()),
        None => false,
    };
    if is_multi {
        if client_state.in_transaction() {
            StepResult {
                command,
                args: no_args1,
                out: Dispatched::Reply(error_reply("ERR MULTI already started")),
                byte_length: 0,
                propagate: None,
            }
        } else {
            client_state.multi_queue = Some(Vec::new());
            proof {
                assert(queue_view(Seq::<(Vec<u8>, Vec<Vec<u8>>)>::empty()) =~= Seq::<
                    (Seq<u8>, Seq<Seq<u8>>),
                >::empty());
            }
            StepResult {
                command,
                args: no_args2,
                out: Dispatched::Reply(crate::resp::simple_reply("OK")),
                byte_length: 0,
                propagate: None,
            }
        }
    } else if is_exec {
        if client_state.in_transaction() {
            let forwards = match &client_state.multi_queue {
                Some(q) => exec_forward_frames(q),
                None => Vec::new(),
            };
            let reply = execute_queued_commands(&client_state.multi_queue, db, config_map, now_ms);
            client_state.multi_queue = None;
            StepResult {
                command,
                args: no_args3,
                out: Dispatched::Reply(reply),
                byte_length: 0,
                propagate: Some(forwards),
            }
        } else {
            StepResult {
                command,
                args: no_args4,
                out: Dispatched::Reply(error_reply("ERR EXEC without MULTI")),
                byte_length: 0,
                propagate: None,
            }
        }
    } else if is_discard {
        if client_state.in_transaction() {
            client_state.multi_queue = None;
            StepResult {
                command,
                args: no_args5,
                out: Dispatched::Reply(crate::resp::simple_reply("OK")),
                byte_length: 0,
                propagate: None,
            }
        } else {
            StepResult {
                command,
                args: no_args6,
                out: Dispatched::Reply(error_reply("ERR DISCARD without MULTI")),
                byte_length: 0,
                propagate: None,
            }
        }
    } else {
        if client_state.in_transaction() {
            let verb_copy: Vec<u8> = match &command {
                Some(v) => vstd::slice::slice_to_vec(v.as_slice()),
                None => Vec::new(),
            };
            let args_copy = copy_args(&args);
            let ghost old_q = client_state.multi_queue.unwrap()@;
            match &mut client_state.multi_queue {
                Some(qv) => {
                    qv.push((verb_copy, args_copy));
                },
                None => {},
            }
            proof {
                let gverb: Seq<u8> = if iv.len() == 0 {
                    Seq::empty()
                } else {
                    upper_bytes(iv[0])
                };
                let gargs: Seq<Seq<u8>> = if iv.len() == 0 {
                    Seq::empty()
                } else {
                    iv.skip(1)
                };
                assert(verb_copy@ == gverb);
                assert(args_view(args_copy@) == gargs);
                assert(queue_view(client_state.multi_queue.unwrap()@) =~= queue_view(old_q).push(
                    (gverb, gargs),
                ));
            }
            StepResult {
                command,
                args,
                out: Dispatched::Reply(crate::resp::simple_reply("QUEUED")),
                byte_length: 0,
                propagate: None,
            }
        } else {
            let out = match &command {
                Some(v) => dispatch_command(db, config_map, v.as_slice(), &args, now_ms),
                None => {
                    let empty_verb: Vec<u8> = Vec::new();
                    dispatch_command(db, config_map, empty_verb.as_slice(), &args, now_ms)
                },
            };
            slave_account(db, used);
            StepResult { command, args, out, byte_length: used, propagate: None }
        }
    }
}

/// The result of an unusable frame prefix.
pub open spec fn invalid_item() -> StepItem {
    StepItem {
        verb: None,
        args: Seq::empty(),
        out: XreadOutcomeSpec::Reply(resp_error(ascii_bytes("ERR invalid format"@))),
        byte_length: 0,
        propagate: Seq::empty(),
    }
}

/// Processes every complete frame at the front of the buffer, threading
/// the server state through, and says how many bytes were consumed. A
/// truncated frame stops the loop consuming nothing more; an invalid
/// prefix yields one error result and stops.
pub open spec fn spec_parse_loop(
    st: SessState,
    cfg: Map<Seq<u8>, Seq<u8>>,
    buf: Seq<u8>,
    now_ms: u64,
) -> (SessState, Seq<StepItem>, nat)
    decreases buf.len(),
{
    match parse_frame(buf) {
        FrameParse::Incomplete => (st, Seq::empty(), 0),
        FrameParse::Invalid => (st, seq![invalid_item()], 0),
        FrameParse::Complete(items, used) => {
            if 0 < used <= buf.len() {
                let (st1, item) = spec_frame_step(st, cfg, items, used, now_ms);
                let (st2, rest, rest_used) = spec_parse_loop(st1, cfg, buf.skip(used as int), now_ms);
                (st2, seq![item] + rest, used + rest_used)
            } else {
                (st, Seq::empty(), 0)
            }
        },
    }
}

/// Extracts and runs every complete frame at the front of `message`.
/// Returns the per-frame results and the bytes consumed; the caller
/// keeps the unconsumed tail for the next read.
#[verifier::rlimit(60)]
pub fn parse_redis_message(
    message: &[u8],
    db: &mut RedisDatabase,
    config_map: &Vec<(Vec<u8>, Vec<u8>)>,
    client_state: &mut ClientState,
    now_ms: u64,
) -> (r: (Vec<StepResult>, usize))
    requires
        db_inv(old(db)),
        unique_keys(config_view(config_map@)),
    ensures
        db_inv(final(db)),
        ({
            let (st2, items, used) = spec_parse_loop(
                sess_state(*old(db), *old(client_state)),
                kv_map(config_view(config_map@)),
                message@,
                now_ms,
            );
            store_view(final(db).data@) == st2.pairs && repl_view(final(db).replication_info@)
                == st2.repl && state_view(*final(client_state)) == st2.queue && results_view(
                r.0@,
            ) == items && r.1 as nat == used
        }),
        final(db).slave_connections == old(db).slave_connections,
        final(db).ack_counter == old(db).ack_counter,
        r.1 <= message@.len(),
{
    proof {
        reveal_strlit("ERR invalid format");
    }
    let ghost st0 = sess_state(*old(db), *old(client_state));
    let ghost cfg = kv_map(config_view(config_map@));
    let ghost buf = message@;
    let mut results: Vec<StepResult> = Vec::new();
    let mut cursor: usize = 0;
    proof {
        assert(buf.skip(0) =~= buf);
        let (st2, items2, used2) = spec_parse_loop(st0, cfg, buf, now_ms);
        assert(results_view(results@) + items2 =~= items2);
    }
    loop
        invariant_except_break
            db_inv(db),
            unique_keys(config_view(config_map@)),
            cfg == kv_map(config_view(config_map@)),
            buf == message@,
            cursor <= buf.len(),
            db.slave_connections == old(db).slave_connections,
            db.ack_counter == old(db).ack_counter,
            ({
                let (stf, itemsf, usedf) = spec_parse_loop(st0, cfg, buf, now_ms);
                let (st2, items2, used2) = spec_parse_loop(
                    sess_state(*db, *client_state),
                    cfg,
                    buf.skip(cursor as int),
                    now_ms,
                );
                stf == st2 && itemsf == results_view(results@) + items2 && usedf == cursor + used2
            }),
        ensures
            db_inv(db),
            cursor <= buf.len(),
            db.slave_connections == old(db).slave_connections,
            db.ack_counter == old(db).ack_counter,
            ({
                let (stf, itemsf, usedf) = spec_parse_loop(st0, cfg, buf, now_ms);
                stf == sess_state(*db, *client_state) && itemsf == results_view(results@) && usedf
                    == cursor as nat
            }),
        decreases buf.len() - cursor,
    {
        let tail = &message[cursor..message.len()];
        proof {
            assert(tail@ =~= buf.skip(cursor as int));
        }
        match decode_frame(tail) {
            Decoded::Incomplete => {
                proof {
                    let (st2, items2, used2) = spec_parse_loop(
                        sess_state(*db, *client_state),
                        cfg,
                        buf.skip(cursor as int),
                        now_ms,
                    );
                    assert(results_view(results@) + Seq::<StepItem>::empty() =~= results_view(
                        results@,
                    ));
                }
                break ;
            },
            Decoded::Invalid => {
                proof {
                    reveal_strlit("ERR invalid format");
                }
                let ghost results_prev = results@;
                results.push(
                    StepResult {
                        command: None,
                        args: Vec::new(),
                        out: Dispatched::Reply(error_reply("ERR invalid format")),
                        byte_length: 0,
                        propagate: None,
                    },
                );
                proof {
                    assert(args_view(Seq::<Vec<u8>>::empty()) =~= Seq::<Seq<u8>>::empty());
                    assert(results_view(results@) =~= results_view(results_prev).push(
                        invalid_item(),
                    ));
                    assert(results_view(results_prev) + seq![invalid_item()] =~= results_view(
                        results@,
                    ));
                }
                break ;
            },
            Decoded::Frame(items, used) => {
                let ghost s_before = sess_state(*db, *client_state);
                let ghost results_prev = results@;
                proof {
                    let (st1, item) = spec_frame_step(
                        s_before,
                        cfg,
                        crate::resp::views_of(items@),
                        used as nat,
                        now_ms,
                    );
                    assert(buf.skip(cursor as int).skip(used as int) =~= buf.skip(
                        (cursor + used) as int,
                    ));
                }
                let sr = frame_step(db, config_map, client_state, items, used, now_ms);
                results.push(sr);
                proof {
                    let (st1, item) = spec_frame_step(
                        s_before,
                        cfg,
                        crate::resp::views_of(items@),
                        used as nat,
                        now_ms,
                    );
                    let (st2, rest2, used2) = spec_parse_loop(
                        sess_state(*db, *client_state),
                        cfg,
                        buf.skip((cursor + used) as int),
                        now_ms,
                    );
                    assert(results_view(results@) =~= results_view(results_prev).push(item));
                    assert(results_view(results_prev) + (seq![item] + rest2) =~= results_view(
                        results@,
                    ) + rest2);
                }
                cursor = cursor + used;
            },
        }
    }
    (results, cursor)
}

} // verus!
