//! Laws the command contracts imply, stated and proved once for every
//! input: the agreement of reads on absent-or-expired keys, the
//! monotonicity of stream identifiers, the byte accounting of
//! replication offsets, and the round trips of writes and reads.

use vstd::prelude::*;

use crate::commands::spec_get;
use crate::commands::spec_set;
use crate::commands::spec_type;
use crate::database::Expiry;
use crate::database::RecordView;
use crate::database::ReplValueView;
use crate::database::ValueTypeView;
use crate::database::live;
use crate::database::value_bytes;
use crate::kv::kv_map;
use crate::kv::lemma_assoc_insert_map;
use crate::kv::unique_keys;
use crate::network::offset_of;
use crate::network::sat_add;
use crate::network::spec_record_propagated;
use crate::parsing::spec_slave_account;
use crate::resp::ascii_bytes;
use crate::resp::null_bulk;
use crate::resp::resp_bulk;
use crate::resp::resp_simple;
use crate::stream::EntryView;
use crate::stream::StreamID;
use crate::stream::id_lt;
use crate::stream_commands::spec_xadd;
use crate::stream_commands::IdChoice;
use crate::stream_commands::spec_choose_id;
use crate::stream_commands::stream_entries_of;
use crate::stream_commands::zero_id;

verus! {

/// The identifier an append accepts, when every check passes.
pub open spec fn xadd_accepted_id(
    m: Map<Seq<u8>, RecordView>,
    args: Seq<Seq<u8>>,
    now_ms: u64,
) -> Option<StreamID> {
    if args.len() < 4 || args.len() % 2 != 0 {
        None
    } else {
        match spec_choose_id(m, args[0], args[1], now_ms) {
            IdChoice::Chosen(id) => {
                if !id_lt(zero_id(), id) {
                    None
                } else {
                    match stream_entries_of(m, args[0]) {
                        None => None,
                        Some(es) => {
                            if es.len() > 0 && !id_lt(es.last().id, id) {
                                None
                            } else {
                                Some(id)
                            }
                        },
                    }
                }
            },
            _ => None,
        }
    }
}

/// A key reads as `none` under TYPE exactly when GET answers the null
/// bulk, exactly when the key is absent or expired.
pub proof fn lemma_type_get_absent_agree(
    m: Map<Seq<u8>, RecordView>,
    key: Seq<u8>,
    now_ms: u64,
)
    ensures
        (spec_type(m, seq![key], now_ms) == resp_simple(ascii_bytes("none"@))) <==> !live(
            m,
            key,
            now_ms,
        ),
        (spec_get(m, seq![key], now_ms).1 == null_bulk()) <==> !live(m, key, now_ms),
{
    reveal_strlit("none");
    reveal_strlit("string");
    reveal_strlit("stream");
    reveal_strlit("ERR wrong type for 'get' command");
    let none_reply = resp_simple(ascii_bytes("none"@));
    if live(m, key, now_ms) {
        if m[key].value is Stream {
            assert(spec_type(m, seq![key], now_ms) == resp_simple(ascii_bytes("stream"@)));
            assert(resp_simple(ascii_bytes("stream"@)).len() != none_reply.len());
            let err = crate::resp::resp_error(
                ascii_bytes("ERR wrong type for 'get' command"@),
            );
            assert(err[0] == crate::resp::SIGIL_ERROR);
            assert(null_bulk()[0] == crate::resp::SIGIL_BULK);
            assert(spec_get(m, seq![key], now_ms).1 != null_bulk());
        } else {
            assert(spec_type(m, seq![key], now_ms) == resp_simple(ascii_bytes("string"@)));
            assert(resp_simple(ascii_bytes("string"@)).len() != none_reply.len());
            let b = resp_bulk(value_bytes(m[key].value));
            crate::codec::lemma_dec_digits_all_digits(value_bytes(m[key].value).len());
            assert(b[1] == crate::resp::dec_digits(value_bytes(m[key].value).len())[0]);
            assert(crate::resp::is_digit(b[1]));
            assert(null_bulk()[1] == crate::resp::SIGIL_ERROR);
            assert(b != null_bulk());
        }
    }
}

/// Two accepted appends to one stream return strictly increasing
/// identifiers.
pub proof fn lemma_xadd_ids_increase(
    m: Map<Seq<u8>, RecordView>,
    args1: Seq<Seq<u8>>,
    now1: u64,
    args2: Seq<Seq<u8>>,
    now2: u64,
    id1: StreamID,
    id2: StreamID,
)
    requires
        xadd_accepted_id(m, args1, now1) == Some(id1),
        xadd_accepted_id(spec_xadd(m, args1, now1).0, args2, now2) == Some(id2),
        args1.len() >= 1 && args2.len() >= 1 && args2[0] == args1[0],
    ensures
        id_lt(id1, id2),
{
    let m2 = spec_xadd(m, args1, now1).0;
    let k = args1[0];
    match stream_entries_of(m, k) {
        Some(es) => {
            assert(m2 == m.insert(
                k,
                RecordView {
                    value: ValueTypeView::Stream(
                        es.push(
                            EntryView {
                                id: id1,
                                fields: crate::stream_commands::xadd_fields(args1),
                            },
                        ),
                    ),
                    expiry: Expiry::Never,
                },
            ));
            let es2 = es.push(
                EntryView { id: id1, fields: crate::stream_commands::xadd_fields(args1) },
            );
            assert(stream_entries_of(m2, k) == Some(es2));
            assert(es2.last().id == id1);
            assert(id_lt(es2.last().id, id2));
        },
        None => {
            assert(false);
        },
    }
}

/// After a primary accepts a write at offset `o`, its offset reads
/// `o` plus the frame's byte length.
pub proof fn lemma_master_offset_advances(
    repl: Seq<(Seq<u8>, ReplValueView)>,
    frame_len: nat,
)
    requires
        unique_keys(repl),
        offset_of(repl, ascii_bytes("master_repl_offset"@)) + frame_len <= usize::MAX,
    ensures
        offset_of(
            spec_record_propagated(repl, frame_len),
            ascii_bytes("master_repl_offset"@),
        ) == offset_of(repl, ascii_bytes("master_repl_offset"@)) + frame_len,
        unique_keys(spec_record_propagated(repl, frame_len)),
{
    let key = ascii_bytes("master_repl_offset"@);
    let next = sat_add(offset_of(repl, key), frame_len);
    lemma_assoc_insert_map(repl, key, ReplValueView::Bytes(next as usize));
}

/// After a replica applies one propagated frame, its applied-byte
/// counter reads exactly one frame length more.
pub proof fn lemma_slave_offset_advances(repl: Seq<(Seq<u8>, ReplValueView)>, used: nat)
    requires
        unique_keys(repl),
        kv_map(repl).contains_key(ascii_bytes("role"@)),
        kv_map(repl)[ascii_bytes("role"@)] == ReplValueView::Str(ascii_bytes("slave"@)),
        offset_of(repl, ascii_bytes("slave_repl_offset"@)) + used <= usize::MAX,
    ensures
        offset_of(spec_slave_account(repl, used), ascii_bytes("slave_repl_offset"@))
            == offset_of(repl, ascii_bytes("slave_repl_offset"@)) + used,
        unique_keys(spec_slave_account(repl, used)),
        kv_map(spec_slave_account(repl, used))[ascii_bytes("role"@)] == ReplValueView::Str(
            ascii_bytes("slave"@),
        ),
        kv_map(spec_slave_account(repl, used)).contains_key(ascii_bytes("role"@)),
{
    reveal_strlit("role");
    reveal_strlit("slave_repl_offset");
    let key = ascii_bytes("slave_repl_offset"@);
    let cur = offset_of(repl, key);
    let next: nat = if cur + used > usize::MAX {
        usize::MAX as nat
    } else {
        cur + used
    };
    lemma_assoc_insert_map(repl, key, ReplValueView::Bytes(next as usize));
    assert(ascii_bytes("role"@).len() == 4);
    assert(ascii_bytes("slave_repl_offset"@).len() == 17);
    assert(ascii_bytes("role"@) != key);
}

/// The sum of a batch of frame lengths.
pub open spec fn total_len(lens: Seq<nat>) -> nat
    decreases lens.len(),
{
    if lens.len() == 0 {
        0
    } else {
        lens[0] + total_len(lens.skip(1))
    }
}

/// A replica's state after applying a batch of frames.
pub open spec fn replica_after(
    repl: Seq<(Seq<u8>, ReplValueView)>,
    lens: Seq<nat>,
) -> Seq<(Seq<u8>, ReplValueView)>
    decreases lens.len(),
{
    if lens.len() == 0 {
        repl
    } else {
        replica_after(spec_slave_account(repl, lens[0]), lens.skip(1))
    }
}

/// A primary's state after propagating a batch of frames.
pub open spec fn primary_after(
    repl: Seq<(Seq<u8>, ReplValueView)>,
    lens: Seq<nat>,
) -> Seq<(Seq<u8>, ReplValueView)>
    decreases lens.len(),
{
    if lens.len() == 0 {
        repl
    } else {
        primary_after(spec_record_propagated(repl, lens[0]), lens.skip(1))
    }
}

/// At steady state the counters agree: a replica that has applied
/// exactly the frames its primary propagated reads the same offset the
/// primary does.
pub proof fn lemma_offsets_agree(
    repl_s: Seq<(Seq<u8>, ReplValueView)>,
    repl_m: Seq<(Seq<u8>, ReplValueView)>,
    lens: Seq<nat>,
)
    requires
        unique_keys(repl_s),
        unique_keys(repl_m),
        kv_map(repl_s).contains_key(ascii_bytes("role"@)),
        kv_map(repl_s)[ascii_bytes("role"@)] == ReplValueView::Str(ascii_bytes("slave"@)),
        offset_of(repl_s, ascii_bytes("slave_repl_offset"@)) == offset_of(
            repl_m,
            ascii_bytes("master_repl_offset"@),
        ),
        offset_of(repl_s, ascii_bytes("slave_repl_offset"@)) + total_len(lens) <= usize::MAX,
    ensures
        offset_of(replica_after(repl_s, lens), ascii_bytes("slave_repl_offset"@)) == offset_of(
            primary_after(repl_m, lens),
            ascii_bytes("master_repl_offset"@),
        ),
    decreases lens.len(),
{
    if lens.len() > 0 {
        lemma_slave_offset_advances(repl_s, lens[0]);
        lemma_master_offset_advances(repl_m, lens[0]);
        lemma_offsets_agree(
            spec_slave_account(repl_s, lens[0]),
            spec_record_propagated(repl_m, lens[0]),
            lens.skip(1),
        );
    }
}

/// Writing a key and reading it back yields the written bytes, at any
/// later time.
pub proof fn lemma_set_then_get(
    m: Map<Seq<u8>, RecordView>,
    k: Seq<u8>,
    v: Seq<u8>,
    now1: u64,
    now2: u64,
)
    ensures
        spec_set(m, seq![k, v], now1).1 == resp_simple(ascii_bytes("OK"@)),
        spec_get(spec_set(m, seq![k, v], now1).0, seq![k], now2).1 == resp_bulk(v),
{
    let m2 = spec_set(m, seq![k, v], now1).0;
    assert(m2.contains_key(k));
    assert(m2[k] == RecordView { value: ValueTypeView::Str(v), expiry: Expiry::Never });
}

/// Writing a key already expired and reading it back yields the null
/// bulk, at any later time.
pub proof fn lemma_set_px_zero_then_get(
    m: Map<Seq<u8>, RecordView>,
    k: Seq<u8>,
    v: Seq<u8>,
    now1: u64,
    now2: u64,
)
    ensures
        spec_set(m, seq![k, v, ascii_bytes("PX"@), seq![48u8]], now1).1 == resp_simple(
            ascii_bytes("OK"@),
        ),
        spec_get(
            spec_set(m, seq![k, v, ascii_bytes("PX"@), seq![48u8]], now1).0,
            seq![k],
            now2,
        ).1 == null_bulk(),
{
    reveal_strlit("PX");
    let args = seq![k, v, ascii_bytes("PX"@), seq![48u8]];
    assert(crate::codec::upper_bytes(args[2]) =~= ascii_bytes("PX"@));
    let zero = seq![48u8];
    assert(zero.drop_last() =~= Seq::<u8>::empty());
    assert(crate::resp::dec_val(Seq::<u8>::empty()) == 0);
    assert(zero.last() == 48u8);
    assert(crate::resp::dec_val(zero) == 0);
    assert(crate::stream::parse_u64_ok(zero));
    let m2 = spec_set(m, args, now1).0;
    assert(m2.contains_key(k));
    assert(m2[k].expiry == Expiry::Expired);
}

/// Two clock-generated appends on an empty stream both succeed, the
/// second with the strictly greater identifier, whenever the clock has
/// not moved backwards between them.
pub proof fn lemma_auto_xadd_twice(
    m: Map<Seq<u8>, RecordView>,
    k: Seq<u8>,
    f: Seq<u8>,
    v: Seq<u8>,
    now1: u64,
    now2: u64,
)
    requires
        !m.contains_key(k),
        1 <= now1 <= now2,
    ensures
        ({
            let args = seq![k, ascii_bytes("*"@), f, v];
            let id1 = xadd_accepted_id(m, args, now1);
            let id2 = xadd_accepted_id(spec_xadd(m, args, now1).0, args, now2);
            id1 is Some && id2 is Some && id_lt(id1.unwrap(), id2.unwrap())
        }),
{
    let args = seq![k, ascii_bytes("*"@), f, v];
    assert(args.len() == 4);
    let es0 = Seq::<EntryView>::empty();
    assert(stream_entries_of(m, k) == Some(es0));
    assert(crate::stream::last_seq_at(es0, now1) is None);
    let id1 = StreamID { milliseconds_time: now1, sequence_number: 0 };
    assert(spec_choose_id(m, k, args[1], now1) == IdChoice::Chosen(id1));
    assert(id_lt(zero_id(), id1));
    assert(xadd_accepted_id(m, args, now1) == Some(id1));
    let m2 = spec_xadd(m, args, now1).0;
    let e1 = EntryView { id: id1, fields: crate::stream_commands::xadd_fields(args) };
    let es1 = es0.push(e1);
    assert(m2 == m.insert(
        k,
        RecordView { value: ValueTypeView::Stream(es1), expiry: Expiry::Never },
    ));
    assert(stream_entries_of(m2, k) == Some(es1));
    assert(es1.last() == e1);
    if now2 == now1 {
        assert(crate::stream::last_seq_at(es1, now2) == Some(0u64));
        let id2 = StreamID { milliseconds_time: now2, sequence_number: 1 };
        assert(spec_choose_id(m2, k, args[1], now2) == IdChoice::Chosen(id2));
        assert(id_lt(zero_id(), id2));
        assert(id_lt(id1, id2));
        assert(xadd_accepted_id(m2, args, now2) == Some(id2));
    } else {
        assert(es1.drop_last() =~= es0);
        assert(crate::stream::last_seq_at(es0, now2) is None);
        assert(crate::stream::last_seq_at(es1, now2) is None);
        let id2 = StreamID { milliseconds_time: now2, sequence_number: 0 };
        assert(spec_choose_id(m2, k, args[1], now2) == IdChoice::Chosen(id2));
        assert(id_lt(zero_id(), id2));
        assert(id_lt(id1, id2));
        assert(xadd_accepted_id(m2, args, now2) == Some(id2));
    }
}

} // verus!
