//! The replica side of replication: role setup, the synchronisation
//! handshake, snapshot intake, and the frames a replica sends back.
//!
//! The handshake is a state machine from reply bytes to the next frame
//! to send; the transport performs each send and hands back what the
//! primary answered. Once the snapshot is consumed, the same connection
//! carries propagated frames, which `parse_redis_message` applies.

use vstd::prelude::*;

use crate::codec::LineParse;
use crate::codec::parse_line;
use crate::codec::read_line;
use crate::codec::LineOut;
use crate::codec::spec_find_byte;
use crate::codec::spec_find_crlf;
use crate::codec::find_byte;
use crate::codec::find_crlf;
use crate::codec::lemma_find_byte;
use crate::codec::lemma_find_crlf;
use crate::database::RedisDatabase;
use crate::database::ReplValueView;
use crate::database::ReplicationInfoValue;
use crate::database::repl_view;
use crate::kv::assoc_insert;
use crate::kv::bytes_eq;
use crate::kv::kv_map;
use crate::parsing::Dispatched;
use crate::parsing::StepItem;
use crate::parsing::StepResult;
use crate::parsing::results_view;
use crate::parsing::step_view;
use crate::resp::SIGIL_BULK;
use crate::resp::ascii_bytes;
use crate::resp::encode_frame;
use crate::resp::resp_simple;
use crate::resp::str_bytes;
use crate::stream_commands::XreadOutcomeSpec;

verus! {

/// Marks this node a primary: role, replication identifier, and a zero
/// offset when none is recorded yet.
pub fn set_master_role(db: &mut RedisDatabase)
    requires
        old(db).wf(),
    ensures
        final(db).wf(),
        ({
            let r0 = repl_view(old(db).replication_info@);
            let r1 = assoc_insert(
                r0,
                ascii_bytes("role"@),
                ReplValueView::Str(ascii_bytes("master"@)),
            );
            let r2 = assoc_insert(
                r1,
                ascii_bytes("master_replid"@),
                ReplValueView::Str(ascii_bytes("8371b4fb1155b71f4a04d3e1bc3e18c4a990aeeb"@)),
            );
            repl_view(final(db).replication_info@) == (if kv_map(r2).contains_key(
                ascii_bytes("master_repl_offset"@),
            ) {
                r2
            } else {
                assoc_insert(r2, ascii_bytes("master_repl_offset"@), ReplValueView::Bytes(0))
            })
        }),
        final(db).data == old(db).data,
        final(db).slave_connections == old(db).slave_connections,
        final(db).ack_counter == old(db).ack_counter,
{
    proof {
        reveal_strlit("role");
        reveal_strlit("master");
        reveal_strlit("master_replid");
        reveal_strlit("8371b4fb1155b71f4a04d3e1bc3e18c4a990aeeb");
        reveal_strlit("master_repl_offset");
    }
    let role_key = str_bytes("role");
    let master_lit = str_bytes("master");
    db.update_replication_info(role_key, ReplicationInfoValue::StringValue(master_lit));
    let replid_key = str_bytes("master_replid");
    let replid = str_bytes("8371b4fb1155b71f4a04d3e1bc3e18c4a990aeeb");
    db.update_replication_info(replid_key, ReplicationInfoValue::StringValue(replid));
    let offset_key = str_bytes("master_repl_offset");
    let has_offset = match db.get_replication_info(offset_key.as_slice()) {
        Some(_) => true,
        None => false,
    };
    if !has_offset {
        db.update_replication_info(offset_key, ReplicationInfoValue::ByteValue(0));
    }
}

/// Marks this node a replica of some primary.
pub fn set_slave_role(db: &mut RedisDatabase)
    requires
        old(db).wf(),
    ensures
        final(db).wf(),
        repl_view(final(db).replication_info@) == assoc_insert(
            repl_view(old(db).replication_info@),
            ascii_bytes("role"@),
            ReplValueView::Str(ascii_bytes("slave"@)),
        ),
        final(db).data == old(db).data,
        final(db).slave_connections == old(db).slave_connections,
        final(db).ack_counter == old(db).ack_counter,
{
    proof {
        reveal_strlit("role");
        reveal_strlit("slave");
    }
    let role_key = str_bytes("role");
    let slave_lit = str_bytes("slave");
    db.update_replication_info(role_key, ReplicationInfoValue::StringValue(slave_lit));
}

/// Reads `+FULLRESYNC <replid> <offset>\r\n`: the identifier runs to the
/// first space, the offset to the line's end; both must be nonempty.
/// Only this exact announcement shape is accepted; looser layouts of
/// whitespace-separated words are rejected.
pub open spec fn spec_parse_fullresync(s: Seq<u8>) -> Option<(Seq<u8>, Seq<u8>)> {
    if s.len() < 12 || s.take(12) != ascii_bytes("+FULLRESYNC "@) {
        None
    } else {
        let rest = s.skip(12);
        match spec_find_byte(rest, 32) {
            None => None,
            Some(i) => {
                let id = rest.take(i);
                let rest2 = rest.skip(i + 1);
                match spec_find_crlf(rest2) {
                    None => None,
                    Some(j) => {
                        let off = rest2.take(j);
                        if id.len() > 0 && off.len() > 0 {
                            Some((id, off))
                        } else {
                            None
                        }
                    },
                }
            },
        }
    }
}

/// Parses the full-resynchronisation announcement into the replication
/// identifier and offset it carries.
pub fn parse_fullresync(message: &[u8]) -> (r: Option<(Vec<u8>, Vec<u8>)>)
    ensures
        match r {
            Some((id, off)) => spec_parse_fullresync(message@) == Some((id@, off@)),
            None => spec_parse_fullresync(message@) is None,
        },
{
    proof {
        reveal_strlit("+FULLRESYNC ");
    }
    if message.len() < 12 {
        return None;
    }
    let head = &message[0..12];
    let lit = str_bytes("+FULLRESYNC ");
    proof {
        assert(head@ =~= message@.take(12));
    }
    if !bytes_eq(head, lit.as_slice()) {
        return None;
    }
    let rest = &message[12..message.len()];
    proof {
        assert(rest@ =~= message@.skip(12));
    }
    let i = match find_byte(rest, 32) {
        None => {
            return None;
        },
        Some(i) => i,
    };
    proof {
        lemma_find_byte(rest@, 32);
    }
    let id = &rest[0..i];
    let rest2 = &rest[i + 1..rest.len()];
    proof {
        assert(id@ =~= rest@.take(i as int));
        assert(rest2@ =~= rest@.skip(i + 1));
    }
    let j = match find_crlf(rest2) {
        None => {
            return None;
        },
        Some(j) => j,
    };
    proof {
        lemma_find_crlf(rest2@);
    }
    let off = &rest2[0..j];
    proof {
        assert(off@ =~= rest2@.take(j as int));
    }
    if id.len() > 0 && off.len() > 0 {
        Some((vstd::slice::slice_to_vec(id), vstd::slice::slice_to_vec(off)))
    } else {
        None
    }
}

/// Reads the declared length of a bulk-string header `$<len>\r\n` at the
/// front of `message`. The digits must follow the sigil directly;
/// whitespace around them is rejected.
pub open spec fn spec_parse_bulk_length(s: Seq<u8>) -> Option<nat> {
    if s.len() == 0 || s[0] != SIGIL_BULK {
        None
    } else {
        match parse_line(s.skip(1)) {
            LineParse::Done(v, used) => Some(v),
            _ => None,
        }
    }
}

/// Parses the length of a bulk-string header.
pub fn parse_bulk_length(message: &[u8]) -> (r: Option<usize>)
    ensures
        match r {
            Some(v) => spec_parse_bulk_length(message@) == Some(v as nat),
            None => spec_parse_bulk_length(message@) is None,
        },
{
    if message.len() == 0 {
        return None;
    }
    if message[0] != SIGIL_BULK {
        return None;
    }
    let rest = &message[1..message.len()];
    proof {
        assert(rest@ =~= message@.skip(1));
    }
    match read_line(rest) {
        LineOut::Done(v, _) => Some(v),
        _ => None,
    }
}

/// How far the snapshot transfer has come: how many buffer bytes the
/// header and payload take, or that more bytes are needed, or that the
/// prefix is not a snapshot transfer at all.
pub enum SnapshotProgress {
    Done(usize),
    NeedMore,
    Bad,
}

/// The snapshot transfer is a bulk header and exactly its declared
/// payload, with no trailing terminator.
pub open spec fn spec_consume_snapshot(s: Seq<u8>) -> SnapshotProgress {
    if s.len() == 0 {
        SnapshotProgress::NeedMore
    } else if s[0] != SIGIL_BULK {
        SnapshotProgress::Bad
    } else {
        match parse_line(s.skip(1)) {
            LineParse::Incomplete => SnapshotProgress::NeedMore,
            LineParse::Invalid => SnapshotProgress::Bad,
            LineParse::Done(l, used) => {
                if s.len() >= 1 + used + l {
                    SnapshotProgress::Done((1 + used + l) as usize)
                } else {
                    SnapshotProgress::NeedMore
                }
            },
        }
    }
}

/// Consumes the snapshot a primary sends after the announcement; the
/// payload itself is discarded, since the propagated frames that follow
/// are the source of truth.
pub fn consume_snapshot(buffer: &[u8]) -> (r: SnapshotProgress)
    ensures
        r == spec_consume_snapshot(buffer@),
        match r {
            SnapshotProgress::Done(used) => 0 < used <= buffer@.len(),
            _ => true,
        },
{
    if buffer.len() == 0 {
        return SnapshotProgress::NeedMore;
    }
    if buffer[0] != SIGIL_BULK {
        return SnapshotProgress::Bad;
    }
    let rest = &buffer[1..buffer.len()];
    proof {
        assert(rest@ =~= buffer@.skip(1));
    }
    match read_line(rest) {
        LineOut::Incomplete => SnapshotProgress::NeedMore,
        LineOut::Invalid => SnapshotProgress::Bad,
        LineOut::Done(l, used) => {
            proof {
                crate::codec::lemma_parse_line_bounds(buffer@.skip(1));
            }
            let header = 1 + used;
            let total = match header.checked_add(l) {
                Some(t) => t,
                None => {
                    return SnapshotProgress::NeedMore;
                },
            };
            if buffer.len() >= total {
                SnapshotProgress::Done(total)
            } else {
                SnapshotProgress::NeedMore
            }
        },
    }
}

/// Where the synchronisation with the primary stands.
#[derive(Clone, Copy, PartialEq, Eq, Structural, Debug)]
pub enum HandshakeState {
    Start,
    AwaitPong,
    AwaitOkPort,
    AwaitOkCapa,
    AwaitFullresync,
    AwaitSnapshot,
    Failed,
}

/// The first handshake frame.
pub fn ping_frame() -> (r: Vec<u8>)
    ensures
        r@ == encode_frame(seq![ascii_bytes("PING"@)]),
{
    proof {
        reveal_strlit("PING");
    }
    let mut items: Vec<Vec<u8>> = Vec::new();
    items.push(str_bytes("PING"));
    let out = crate::resp::encode_command(&items);
    proof {
        assert(crate::resp::views_of(items@) =~= seq![ascii_bytes("PING"@)]);
    }
    out
}

/// The listening-port advertisement.
pub fn replconf_port_frame(port: &[u8]) -> (r: Vec<u8>)
    ensures
        r@ == encode_frame(
            seq![ascii_bytes("REPLCONF"@), ascii_bytes("listening-port"@), port@],
        ),
{
    proof {
        reveal_strlit("REPLCONF");
        reveal_strlit("listening-port");
    }
    let mut items: Vec<Vec<u8>> = Vec::new();
    items.push(str_bytes("REPLCONF"));
    items.push(str_bytes("listening-port"));
    items.push(vstd::slice::slice_to_vec(port));
    let out = crate::resp::encode_command(&items);
    proof {
        assert(crate::resp::views_of(items@) =~= seq![
            ascii_bytes("REPLCONF"@),
            ascii_bytes("listening-port"@),
            port@,
        ]);
    }
    out
}

/// The capability advertisement.
pub fn replconf_capa_frame() -> (r: Vec<u8>)
    ensures
        r@ == encode_frame(
            seq![ascii_bytes("REPLCONF"@), ascii_bytes("capa"@), ascii_bytes("psync2"@)],
        ),
{
    proof {
        reveal_strlit("REPLCONF");
        reveal_strlit("capa");
        reveal_strlit("psync2");
    }
    let mut items: Vec<Vec<u8>> = Vec::new();
    items.push(str_bytes("REPLCONF"));
    items.push(str_bytes("capa"));
    items.push(str_bytes("psync2"));
    let out = crate::resp::encode_command(&items);
    proof {
        assert(crate::resp::views_of(items@) =~= seq![
            ascii_bytes("REPLCONF"@),
            ascii_bytes("capa"@),
            ascii_bytes("psync2"@),
        ]);
    }
    out
}

/// The synchronisation request.
pub fn psync_frame() -> (r: Vec<u8>)
    ensures
        r@ == encode_frame(
            seq![ascii_bytes("PSYNC"@), ascii_bytes("?"@), ascii_bytes("-1"@)],
        ),
{
    proof {
        reveal_strlit("PSYNC");
        reveal_strlit("?");
        reveal_strlit("-1");
    }
    let mut items: Vec<Vec<u8>> = Vec::new();
    items.push(str_bytes("PSYNC"));
    items.push(str_bytes("?"));
    items.push(str_bytes("-1"));
    let out = crate::resp::encode_command(&items);
    proof {
        assert(crate::resp::views_of(items@) =~= seq![
            ascii_bytes("PSYNC"@),
            ascii_bytes("?"@),
            ascii_bytes("-1"@),
        ]);
    }
    out
}

/// What one handshake step decides: the next state, and the replication
/// entries recorded when the announcement arrives.
pub open spec fn spec_handshake_next(
    state: HandshakeState,
    input: Seq<u8>,
    repl: Seq<(Seq<u8>, ReplValueView)>,
) -> (HandshakeState, Seq<(Seq<u8>, ReplValueView)>) {
    match state {
        HandshakeState::Start => (HandshakeState::AwaitPong, repl),
        HandshakeState::AwaitPong => if input == resp_simple(ascii_bytes("PONG"@)) {
            (HandshakeState::AwaitOkPort, repl)
        } else {
            (HandshakeState::Failed, repl)
        },
        HandshakeState::AwaitOkPort => if input == resp_simple(ascii_bytes("OK"@)) {
            (HandshakeState::AwaitOkCapa, repl)
        } else {
            (HandshakeState::Failed, repl)
        },
        HandshakeState::AwaitOkCapa => if input == resp_simple(ascii_bytes("OK"@)) {
            (HandshakeState::AwaitFullresync, repl)
        } else {
            (HandshakeState::Failed, repl)
        },
        HandshakeState::AwaitFullresync => match spec_parse_fullresync(input) {
            Some((id, off)) => {
                let r1 = assoc_insert(
                    repl,
                    ascii_bytes("master_replid"@),
                    ReplValueView::Str(id),
                );
                let r2 = assoc_insert(
                    r1,
                    ascii_bytes("master_repl_offset"@),
                    ReplValueView::Str(off),
                );
                let r3 = assoc_insert(
                    r2,
                    ascii_bytes("slave_repl_offset"@),
                    ReplValueView::Bytes(0),
                );
                (HandshakeState::AwaitSnapshot, r3)
            },
            None => (HandshakeState::Failed, repl),
        },
        HandshakeState::AwaitSnapshot => (HandshakeState::Failed, repl),
        HandshakeState::Failed => (HandshakeState::Failed, repl),
    }
}

/// One handshake step: from the primary's reply to the next state and
/// the frame to send, if one is due now.
pub fn handshake_step(
    state: HandshakeState,
    input: &[u8],
    port: &[u8],
    db: &mut RedisDatabase,
) -> (r: (HandshakeState, Option<Vec<u8>>))
    requires
        old(db).wf(),
    ensures
        final(db).wf(),
        ({
            let (st2, repl2) = spec_handshake_next(
                state,
                input@,
                repl_view(old(db).replication_info@),
            );
            r.0 == st2 && repl_view(final(db).replication_info@) == repl2
        }),
        ({
            let sent: Option<Seq<u8>> = match r.1 {
                Some(v) => Some(v@),
                None => None,
            };
            sent == (match spec_handshake_next(
                state,
                input@,
                repl_view(old(db).replication_info@),
            ).0 {
                HandshakeState::AwaitPong => Some(encode_frame(seq![ascii_bytes("PING"@)])),
                HandshakeState::AwaitOkPort => Some(
                    encode_frame(
                        seq![
                            ascii_bytes("REPLCONF"@),
                            ascii_bytes("listening-port"@),
                            port@,
                        ],
                    ),
                ),
                HandshakeState::AwaitOkCapa => Some(
                    encode_frame(
                        seq![
                            ascii_bytes("REPLCONF"@),
                            ascii_bytes("capa"@),
                            ascii_bytes("psync2"@),
                        ],
                    ),
                ),
                HandshakeState::AwaitFullresync => Some(
                    encode_frame(
                        seq![ascii_bytes("PSYNC"@), ascii_bytes("?"@), ascii_bytes("-1"@)],
                    ),
                ),
                _ => None::<Seq<u8>>,
            })
        }),
        final(db).data == old(db).data,
        final(db).slave_connections == old(db).slave_connections,
        final(db).ack_counter == old(db).ack_counter,
{
    proof {
        reveal_strlit("PONG");
        reveal_strlit("OK");
        reveal_strlit("master_replid");
        reveal_strlit("master_repl_offset");
        reveal_strlit("slave_repl_offset");
    }
    match state {
        HandshakeState::Start => (HandshakeState::AwaitPong, Some(ping_frame())),
        HandshakeState::AwaitPong => {
            let expected = crate::resp::simple_reply("PONG");
            if bytes_eq(input, expected.as_slice()) {
                (HandshakeState::AwaitOkPort, Some(replconf_port_frame(port)))
            } else {
                (HandshakeState::Failed, None)
            }
        },
        HandshakeState::AwaitOkPort => {
            let expected = crate::resp::simple_reply("OK");
            if bytes_eq(input, expected.as_slice()) {
                (HandshakeState::AwaitOkCapa, Some(replconf_capa_frame()))
            } else {
                (HandshakeState::Failed, None)
            }
        },
        HandshakeState::AwaitOkCapa => {
            let expected = crate::resp::simple_reply("OK");
            if bytes_eq(input, expected.as_slice()) {
                (HandshakeState::AwaitFullresync, Some(psync_frame()))
            } else {
                (HandshakeState::Failed, None)
            }
        },
        HandshakeState::AwaitFullresync => {
            match parse_fullresync(input) {
                Some((id, off)) => {
                    let replid_key = str_bytes("master_replid");
                    db.update_replication_info(replid_key, ReplicationInfoValue::StringValue(id));
                    let offset_key = str_bytes("master_repl_offset");
                    db.update_replication_info(offset_key, ReplicationInfoValue::StringValue(off));
                    let slave_key = str_bytes("slave_repl_offset");
                    db.update_replication_info(slave_key, ReplicationInfoValue::ByteValue(0));
                    (HandshakeState::AwaitSnapshot, None)
                },
                None => (HandshakeState::Failed, None),
            }
        },
        HandshakeState::AwaitSnapshot => (HandshakeState::Failed, None),
        HandshakeState::Failed => (HandshakeState::Failed, None),
    }
}

/// The replies a replica sends back to its primary: only those of
/// REPLCONF frames (the acknowledgements); propagated writes are applied
/// silently.
pub open spec fn spec_replconf_outputs(items: Seq<StepItem>) -> Seq<Seq<u8>>
    decreases items.len(),
{
    if items.len() == 0 {
        Seq::empty()
    } else {
        let rest = spec_replconf_outputs(items.skip(1));
        let keep: Option<Seq<u8>> = if items[0].verb == Some(ascii_bytes("REPLCONF"@)) {
            match items[0].out {
                XreadOutcomeSpec::Reply(v) => Some(v),
                XreadOutcomeSpec::Block(_, _) => None,
            }
        } else {
            None
        };
        match keep {
            Some(v) => seq![v] + rest,
            None => rest,
        }
    }
}

/// Picks the acknowledgement replies out of a batch of applied frames.
pub fn replica_outputs(results: &Vec<StepResult>) -> (r: Vec<Vec<u8>>)
    ensures
        crate::resp::views_of(r@) == spec_replconf_outputs(results_view(results@)),
{
    proof {
        reveal_strlit("REPLCONF");
    }
    let replconf_lit = str_bytes("REPLCONF");
    let ghost iv = results_view(results@);
    let mut out: Vec<Vec<u8>> = Vec::new();
    let mut i: usize = 0;
    proof {
        assert(iv.skip(0) =~= iv);
        assert(crate::resp::views_of(out@) + spec_replconf_outputs(iv) =~= spec_replconf_outputs(
            iv,
        ));
    }
    while i < results.len()
        invariant
            iv == results_view(results@),
            replconf_lit@ == ascii_bytes("REPLCONF"@),
            i <= iv.len(),
            spec_replconf_outputs(iv) == crate::resp::views_of(out@) + spec_replconf_outputs(
                iv.skip(i as int),
            ),
        decreases iv.len() - i,
    {
        proof {
            assert(iv.skip(i as int)[0] == iv[i as int]);
            assert(iv.skip(i as int).skip(1) =~= iv.skip(i + 1 as int));
        }
        let res = &results[i];
        let is_replconf = match &res.command {
            Some(v) => bytes_eq(v.as_slice(), replconf_lit.as_slice()),
            None => false,
        };
        let mut pushed = false;
        if is_replconf {
            match &res.out {
                Dispatched::Reply(v) => {
                    let ghost prev = out@;
                    out.push(vstd::slice::slice_to_vec(v.as_slice()));
                    pushed = true;
                    proof {
                        assert(crate::resp::views_of(out@) =~= crate::resp::views_of(prev).push(
                            v@,
                        ));
                        assert(crate::resp::views_of(prev) + (seq![v@] + spec_replconf_outputs(
                            iv.skip(i + 1 as int),
                        )) =~= crate::resp::views_of(out@) + spec_replconf_outputs(
                            iv.skip(i + 1 as int),
                        ));
                    }
                },
                Dispatched::XreadBlock(_, _) => {},
            }
        }
        proof {
            if !pushed {
                assert(iv[i as int] == step_view(results@[i as int]));
                assert(spec_replconf_outputs(iv.skip(i as int)) == spec_replconf_outputs(
                    iv.skip(i + 1 as int),
                ));
            }
        }
        i = i + 1;
    }
    proof {
        assert(iv.skip(iv.len() as int) =~= Seq::<StepItem>::empty());
        assert(crate::resp::views_of(out@) + Seq::<Seq<u8>>::empty() =~= crate::resp::views_of(
            out@,
        ));
    }
    out
}

} // verus!
