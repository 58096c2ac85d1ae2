//! Connection-layer decisions on a primary: write fan-out accounting,
//! the replica registry, and the acknowledgement barrier.
//!
//! The transport owns the sockets; it calls these functions to decide
//! what to send and to keep the shared counters exact. A registered
//! replica is a plain handle number plus its last acknowledged offset;
//! the transport maps handle numbers to connections.

use vstd::prelude::*;

use crate::database::RedisDatabase;
use crate::database::ReplValueView;
use crate::database::ReplicaHandle;
use crate::database::ReplicationInfoValue;
use crate::database::repl_view;
use crate::kv::assoc_insert;
use crate::kv::kv_map;
use crate::resp::ascii_bytes;
use crate::resp::encode_frame;
use crate::resp::resp_int;
use crate::resp::str_bytes;

verus! {

/// Addition that stops at the top of the counter's range.
pub open spec fn sat_add(a: nat, b: nat) -> nat {
    if a + b > usize::MAX {
        usize::MAX as nat
    } else {
        a + b
    }
}

/// The byte counter stored under `key`, or zero.
pub open spec fn offset_of(repl: Seq<(Seq<u8>, ReplValueView)>, key: Seq<u8>) -> nat {
    let rm = kv_map(repl);
    if rm.contains_key(key) {
        match rm[key] {
            ReplValueView::Bytes(n) => n as nat,
            ReplValueView::Str(_) => 0,
        }
    } else {
        0
    }
}

/// The replication table after a primary propagates one frame of
/// `frame_len` bytes: `master_repl_offset` grows by the frame's length.
pub open spec fn spec_record_propagated(
    repl: Seq<(Seq<u8>, ReplValueView)>,
    frame_len: nat,
) -> Seq<(Seq<u8>, ReplValueView)> {
    let next = sat_add(offset_of(repl, ascii_bytes("master_repl_offset"@)), frame_len);
    assoc_insert(repl, ascii_bytes("master_repl_offset"@), ReplValueView::Bytes(next as usize))
}

/// After fan-out of one write frame, advances `master_repl_offset` by
/// the frame's byte length, once for the whole fan-out.
pub fn record_propagated_write(db: &mut RedisDatabase, frame_len: usize)
    requires
        old(db).wf(),
    ensures
        final(db).wf(),
        repl_view(final(db).replication_info@) == spec_record_propagated(
            repl_view(old(db).replication_info@),
            frame_len as nat,
        ),
        final(db).data == old(db).data,
        final(db).slave_connections == old(db).slave_connections,
        final(db).ack_counter == old(db).ack_counter,
{
    proof {
        reveal_strlit("master_repl_offset");
    }
    let offset_key = str_bytes("master_repl_offset");
    let cur: usize = match db.get_replication_info(offset_key.as_slice()) {
        Some(v) => match v {
            ReplicationInfoValue::ByteValue(n) => *n,
            _ => 0,
        },
        None => 0,
    };
    let next: usize = if cur > usize::MAX - frame_len {
        usize::MAX
    } else {
        cur + frame_len
    };
    db.update_replication_info(offset_key, ReplicationInfoValue::ByteValue(next));
}

/// The acknowledgement-request frame `REPLCONF GETACK *`.
pub open spec fn spec_getack_frame() -> Seq<u8> {
    encode_frame(seq![ascii_bytes("REPLCONF"@), ascii_bytes("GETACK"@), ascii_bytes("*"@)])
}

/// Builds the acknowledgement-request frame a barrier broadcasts.
pub fn replconf_getack_frame() -> (r: Vec<u8>)
    ensures
        r@ == spec_getack_frame(),
{
    proof {
        reveal_strlit("REPLCONF");
        reveal_strlit("GETACK");
        reveal_strlit("*");
    }
    let mut items: Vec<Vec<u8>> = Vec::new();
    items.push(str_bytes("REPLCONF"));
    items.push(str_bytes("GETACK"));
    items.push(str_bytes("*"));
    let out = crate::resp::encode_command(&items);
    proof {
        assert(crate::resp::views_of(items@) =~= seq![
            ascii_bytes("REPLCONF"@),
            ascii_bytes("GETACK"@),
            ascii_bytes("*"@),
        ]);
    }
    out
}

/// Adds a replica to the registry after a successful synchronisation
/// handshake, with nothing acknowledged yet.
pub fn register_replica(db: &mut RedisDatabase, id: u64)
    ensures
        final(db).slave_connections@ == old(db).slave_connections@.push(
            ReplicaHandle { id, acked_offset: 0 },
        ),
        final(db).data == old(db).data,
        final(db).replication_info == old(db).replication_info,
        final(db).ack_counter == old(db).ack_counter,
{
    db.slave_connections.push(ReplicaHandle { id, acked_offset: 0 });
}

/// The registry without the handles carrying `id`.
pub open spec fn spec_without_replica(s: Seq<ReplicaHandle>, id: u64) -> Seq<ReplicaHandle>
    decreases s.len(),
{
    if s.len() == 0 {
        Seq::empty()
    } else {
        let rest = spec_without_replica(s.drop_last(), id);
        if s.last().id == id {
            rest
        } else {
            rest.push(s.last())
        }
    }
}

/// Drops a replica from the registry when its connection closes.
pub fn remove_replica(db: &mut RedisDatabase, id: u64)
    ensures
        final(db).slave_connections@ == spec_without_replica(old(db).slave_connections@, id),
        final(db).data == old(db).data,
        final(db).replication_info == old(db).replication_info,
        final(db).ack_counter == old(db).ack_counter,
{
    let mut kept: Vec<ReplicaHandle> = Vec::new();
    let mut i: usize = 0;
    while i < db.slave_connections.len()
        invariant
            i <= db.slave_connections@.len(),
            kept@ =~= spec_without_replica(db.slave_connections@.take(i as int), id),
            db.slave_connections == old(db).slave_connections,
            db.data == old(db).data,
            db.replication_info == old(db).replication_info,
            db.ack_counter == old(db).ack_counter,
        decreases db.slave_connections@.len() - i,
    {
        let h = db.slave_connections[i];
        proof {
            let s = db.slave_connections@;
            assert(s.take(i + 1 as int).drop_last() =~= s.take(i as int));
            assert(s.take(i + 1 as int).last() == s[i as int]);
        }
        if h.id != id {
            kept.push(h);
        }
        proof {
            assert(kept@ =~= spec_without_replica(
                db.slave_connections@.take(i + 1 as int),
                id,
            ));
        }
        i = i + 1;
    }
    proof {
        assert(db.slave_connections@.take(db.slave_connections@.len() as int)
            =~= db.slave_connections@);
    }
    db.slave_connections = kept;
}

/// The registry with the handle carrying `id` acknowledging `offset`.
pub open spec fn spec_record_ack(s: Seq<ReplicaHandle>, id: u64, offset: u64) -> Seq<
    ReplicaHandle,
> {
    Seq::new(
        s.len(),
        |i: int|
            if s[i].id == id {
                ReplicaHandle { id, acked_offset: offset }
            } else {
                s[i]
            },
    )
}

/// Records one acknowledgement from a replica: its handle remembers the
/// offset, and the barrier counter grows by one.
pub fn record_ack(db: &mut RedisDatabase, id: u64, offset: u64)
    ensures
        final(db).slave_connections@ == spec_record_ack(old(db).slave_connections@, id, offset),
        final(db).ack_counter as int == (if old(db).ack_counter < u64::MAX {
            old(db).ack_counter + 1
        } else {
            u64::MAX as int
        }),
        final(db).data == old(db).data,
        final(db).replication_info == old(db).replication_info,
{
    let mut i: usize = 0;
    while i < db.slave_connections.len()
        invariant
            i <= db.slave_connections@.len(),
            db.slave_connections@.len() == old(db).slave_connections@.len(),
            forall|j: int|
                0 <= j < i ==> db.slave_connections@[j] == spec_record_ack(
                    old(db).slave_connections@,
                    id,
                    offset,
                )[j],
            forall|j: int|
                i <= j < db.slave_connections@.len() ==> db.slave_connections@[j] == old(
                    db,
                ).slave_connections@[j],
            db.data == old(db).data,
            db.replication_info == old(db).replication_info,
            db.ack_counter == old(db).ack_counter,
        decreases db.slave_connections@.len() - i,
    {
        if db.slave_connections[i].id == id {
            let updated = ReplicaHandle { id, acked_offset: offset };
            vstd::pervasive::VecAdditionalExecFns::set(&mut db.slave_connections, i, updated);
        }
        i = i + 1;
    }
    proof {
        assert(db.slave_connections@ =~= spec_record_ack(old(db).slave_connections@, id, offset));
    }
    if db.ack_counter < u64::MAX {
        db.ack_counter = db.ack_counter + 1;
    }
}

/// Starts a barrier: resets the acknowledgement counter and, when any
/// replica is registered, counts the request frame as propagated work.
/// Returns the frame to broadcast.
pub fn wait_begin(db: &mut RedisDatabase) -> (r: Vec<u8>)
    requires
        old(db).wf(),
    ensures
        final(db).wf(),
        r@ == spec_getack_frame(),
        final(db).ack_counter == 0,
        final(db).slave_connections == old(db).slave_connections,
        final(db).data == old(db).data,
        repl_view(final(db).replication_info@) == (if old(db).slave_connections@.len() > 0 {
            spec_record_propagated(
                repl_view(old(db).replication_info@),
                spec_getack_frame().len(),
            )
        } else {
            repl_view(old(db).replication_info@)
        }),
{
    db.ack_counter = 0;
    let frame = replconf_getack_frame();
    if db.slave_connections.len() > 0 {
        record_propagated_write(db, frame.len());
    }
    frame
}

/// Polls a barrier: once at least `needed` acknowledgements have
/// arrived since the broadcast, the reply is the count.
pub fn wait_poll(db: &RedisDatabase, needed: u64) -> (r: Option<Vec<u8>>)
    ensures
        match r {
            Some(v) => db.ack_counter >= needed && v@ == resp_int(db.ack_counter as nat),
            None => db.ack_counter < needed,
        },
{
    if db.ack_counter >= needed {
        let mut out: Vec<u8> = Vec::new();
        crate::resp::push_int(db.ack_counter, &mut out);
        proof {
            assert(out@ =~= resp_int(db.ack_counter as nat));
        }
        Some(out)
    } else {
        None
    }
}

/// The barrier's reply when its deadline passes: the count of replicas
/// that acknowledged in time.
pub fn wait_timeout_reply(db: &RedisDatabase) -> (r: Vec<u8>)
    ensures
        r@ == resp_int(db.ack_counter as nat),
{
    let mut out: Vec<u8> = Vec::new();
    crate::resp::push_int(db.ack_counter, &mut out);
    proof {
        assert(out@ =~= resp_int(db.ack_counter as nat));
    }
    out
}

/// Whether a reply announces a full resynchronisation; the connection
/// then sends the snapshot and joins the replica registry.
pub fn is_fullresync_reply(resp: &[u8]) -> (r: bool)
    ensures
        r == (resp@.len() >= 11 && resp@.take(11) == ascii_bytes("+FULLRESYNC"@)),
{
    proof {
        reveal_strlit("+FULLRESYNC");
    }
    if resp.len() < 11 {
        return false;
    }
    let head = &resp[0..11];
    let lit = str_bytes("+FULLRESYNC");
    let eq = crate::kv::bytes_eq(head, lit.as_slice());
    proof {
        assert(head@ =~= resp@.take(11));
    }
    eq
}

/// The value of a counter argument: its decimal reading, or zero when
/// it is not a plain numeral.
pub open spec fn numeral_or_zero(s: Seq<u8>) -> nat {
    if crate::stream::parse_u64_ok(s) {
        crate::resp::dec_val(s)
    } else {
        0
    }
}

/// What a barrier request asks: how many acknowledgements to await and
/// the deadline in milliseconds, or the arity error to reply.
pub enum WaitArgs {
    Run(u64, u64),
    Malformed(Vec<u8>),
}

/// Reads WAIT's two arguments: each is its decimal value, an unreadable
/// numeral counting as zero; any other argument count is malformed.
pub fn parse_wait_command(args: &Vec<Vec<u8>>) -> (r: WaitArgs)
    ensures
        match r {
            WaitArgs::Run(needed, timeout_ms) => crate::commands::args_view(args@).len() == 2
                && needed as nat == numeral_or_zero(args@[0]@) && timeout_ms as nat
                == numeral_or_zero(args@[1]@),
            WaitArgs::Malformed(e) => crate::commands::args_view(args@).len() != 2 && e@
                == crate::resp::resp_error(
                ascii_bytes("ERR wrong number of arguments for 'wait' command"@),
            ),
        },
{
    proof {
        reveal_strlit("ERR wrong number of arguments for 'wait' command");
    }
    if args.len() != 2 {
        return WaitArgs::Malformed(
            crate::resp::error_reply("ERR wrong number of arguments for 'wait' command"),
        );
    }
    let needed = match crate::resp::parse_u64(args[0].as_slice()) {
        Some(v) => v,
        None => 0,
    };
    let timeout_ms = match crate::resp::parse_u64(args[1].as_slice()) {
        Some(v) => v,
        None => 0,
    };
    WaitArgs::Run(needed, timeout_ms)
}

/// Whether a frame is an acknowledgement `REPLCONF ACK <offset>`, and
/// the offset it carries (an unreadable numeral counting as zero).
pub fn parse_ack_frame(items: &Vec<Vec<u8>>) -> (r: Option<u64>)
    ensures
        ({
            let iv = crate::commands::args_view(items@);
            let shape = iv.len() == 3 && crate::codec::upper_bytes(iv[0]) == ascii_bytes(
                "REPLCONF"@,
            ) && crate::codec::upper_bytes(iv[1]) == ascii_bytes("ACK"@);
            match r {
                Some(offset) => shape && offset as nat == numeral_or_zero(iv[2]),
                None => !shape,
            }
        }),
{
    proof {
        reveal_strlit("REPLCONF");
        reveal_strlit("ACK");
    }
    if items.len() != 3 {
        return None;
    }
    let first = crate::codec::uppercase(items[0].as_slice());
    let second = crate::codec::uppercase(items[1].as_slice());
    let replconf_lit = str_bytes("REPLCONF");
    let ack_lit = str_bytes("ACK");
    if !crate::kv::bytes_eq(first.as_slice(), replconf_lit.as_slice()) {
        return None;
    }
    if !crate::kv::bytes_eq(second.as_slice(), ack_lit.as_slice()) {
        return None;
    }
    let offset = match crate::resp::parse_u64(items[2].as_slice()) {
        Some(v) => v,
        None => 0,
    };
    Some(offset)
}

} // verus!
