use redis_core::commands::handle_get;
use redis_core::commands::handle_info;
use redis_core::commands::handle_psync;
use redis_core::commands::handle_replconf;
use redis_core::database::RedisDatabase;
use redis_core::network::is_fullresync_reply;
use redis_core::network::record_ack;
use redis_core::network::record_propagated_write;
use redis_core::network::register_replica;
use redis_core::network::remove_replica;
use redis_core::network::parse_ack_frame;
use redis_core::network::parse_wait_command;
use redis_core::network::wait_begin;
use redis_core::network::WaitArgs;
use redis_core::network::wait_poll;
use redis_core::network::wait_timeout_reply;
use redis_core::parsing::parse_redis_message;
use redis_core::parsing::ClientState;
use redis_core::parsing::Dispatched;
use redis_core::replication::consume_snapshot;
use redis_core::replication::handshake_step;
use redis_core::replication::parse_bulk_length;
use redis_core::replication::parse_fullresync;
use redis_core::replication::replica_outputs;
use redis_core::replication::set_master_role;
use redis_core::replication::set_slave_role;
use redis_core::replication::HandshakeState;
use redis_core::replication::SnapshotProgress;
use redis_core::resp::encode_command;

fn args(xs: &[&[u8]]) -> Vec<Vec<u8>> {
    xs.iter().map(|x| x.to_vec()).collect()
}

fn no_config() -> Vec<(Vec<u8>, Vec<u8>)> {
    Vec::new()
}

fn reply_of(out: &Dispatched) -> Vec<u8> {
    match out {
        Dispatched::Reply(v) => v.clone(),
        Dispatched::XreadBlock(_, _) => panic!("expected a plain reply"),
    }
}

#[test]
fn info_reports_the_primary_role() {
    let mut db = RedisDatabase::new();
    set_master_role(&mut db);
    let reply = handle_info(&db, &args(&[b"replication"]));
    let text = String::from_utf8_lossy(&reply).to_string();
    assert!(text.contains("role:master"));
    assert!(text.contains("master_replid:8371b4fb1155b71f4a04d3e1bc3e18c4a990aeeb"));
    assert!(text.contains("master_repl_offset:0"));
}

#[test]
fn psync_announces_full_resynchronisation() {
    let mut db = RedisDatabase::new();
    set_master_role(&mut db);
    let reply = handle_psync(&db, &args(&[b"?", b"-1"]));
    assert_eq!(
        reply,
        b"+FULLRESYNC 8371b4fb1155b71f4a04d3e1bc3e18c4a990aeeb 0\r\n".to_vec()
    );
    assert!(is_fullresync_reply(&reply));
    assert!(!is_fullresync_reply(b"+OK\r\n"));
}

#[test]
fn fullresync_line_parses_into_id_and_offset() {
    let parsed = parse_fullresync(b"+FULLRESYNC abc123 42\r\n").expect("well-formed line");
    assert_eq!(parsed.0, b"abc123".to_vec());
    assert_eq!(parsed.1, b"42".to_vec());
    assert_eq!(parse_fullresync(b"+OK\r\n"), None);
    assert_eq!(parse_fullresync(b"+FULLRESYNC noroom"), None);
}

#[test]
fn bulk_length_header_parses() {
    assert_eq!(parse_bulk_length(b"$88\r\nwhatever"), Some(88));
    assert_eq!(parse_bulk_length(b"*3\r\n"), None);
    assert_eq!(parse_bulk_length(b"$8"), None);
}

#[test]
fn handshake_walks_the_protocol() {
    let mut db = RedisDatabase::new();
    set_slave_role(&mut db);
    let port: &[u8] = b"6380";
    let (st, send) = handshake_step(HandshakeState::Start, b"", port, &mut db);
    assert_eq!(st, HandshakeState::AwaitPong);
    assert_eq!(send, Some(b"*1\r\n$4\r\nPING\r\n".to_vec()));
    let (st, send) = handshake_step(st, b"+PONG\r\n", port, &mut db);
    assert_eq!(st, HandshakeState::AwaitOkPort);
    assert_eq!(
        send,
        Some(b"*3\r\n$8\r\nREPLCONF\r\n$14\r\nlistening-port\r\n$4\r\n6380\r\n".to_vec())
    );
    let (st, send) = handshake_step(st, b"+OK\r\n", port, &mut db);
    assert_eq!(st, HandshakeState::AwaitOkCapa);
    assert_eq!(
        send,
        Some(b"*3\r\n$8\r\nREPLCONF\r\n$4\r\ncapa\r\n$6\r\npsync2\r\n".to_vec())
    );
    let (st, send) = handshake_step(st, b"+OK\r\n", port, &mut db);
    assert_eq!(st, HandshakeState::AwaitFullresync);
    assert_eq!(send, Some(b"*3\r\n$5\r\nPSYNC\r\n$1\r\n?\r\n$2\r\n-1\r\n".to_vec()));
    let (st, send) = handshake_step(st, b"+FULLRESYNC someid 0\r\n", port, &mut db);
    assert_eq!(st, HandshakeState::AwaitSnapshot);
    assert_eq!(send, None);
    let reply = handle_info(&db, &args(&[b"REPLICATION"]));
    let text = String::from_utf8_lossy(&reply).to_string();
    assert!(text.contains("role:slave"));
    assert!(text.contains("master_replid:someid"));
    assert!(text.contains("slave_repl_offset:0"));
}

#[test]
fn handshake_fails_on_an_unexpected_reply() {
    let mut db = RedisDatabase::new();
    let (st, send) = handshake_step(HandshakeState::AwaitPong, b"-ERR no\r\n", b"1", &mut db);
    assert_eq!(st, HandshakeState::Failed);
    assert_eq!(send, None);
}

#[test]
fn snapshot_intake_needs_exactly_the_declared_bytes() {
    let transfer = redis_core::commands::send_rdb_file();
    match consume_snapshot(&transfer) {
        SnapshotProgress::Done(used) => assert_eq!(used, transfer.len()),
        _ => panic!("a whole transfer must be consumed"),
    }
    match consume_snapshot(&transfer[0..transfer.len() - 1]) {
        SnapshotProgress::NeedMore => {},
        _ => panic!("a truncated transfer must wait"),
    }
    match consume_snapshot(b"+OK\r\n") {
        SnapshotProgress::Bad => {},
        _ => panic!("a non-bulk prefix is not a snapshot"),
    }
}

#[test]
fn propagated_writes_advance_the_replica_offset_by_frame_length() {
    let mut replica = RedisDatabase::new();
    set_slave_role(&mut replica);
    let mut state = ClientState::new();
    let frame = encode_command(&vec![b"SET".to_vec(), b"k".to_vec(), b"v".to_vec()]);
    let (results, used) = parse_redis_message(&frame, &mut replica, &no_config(), &mut state, 0);
    assert_eq!(used, frame.len());
    assert_eq!(results[0].byte_length, frame.len());
    let reply = handle_info(&replica, &args(&[b"REPLICATION"]));
    let text = String::from_utf8_lossy(&reply).to_string();
    assert!(text.contains(&format!("slave_repl_offset:{}", frame.len())));
    // The write itself was applied.
    assert_eq!(handle_get(&mut replica, &args(&[b"k"]), 0), b"$1\r\nv\r\n".to_vec());
}

#[test]
fn replica_answers_getack_with_its_offset() {
    let mut replica = RedisDatabase::new();
    set_slave_role(&mut replica);
    let mut state = ClientState::new();
    let set_frame = encode_command(&vec![b"SET".to_vec(), b"k".to_vec(), b"v".to_vec()]);
    parse_redis_message(&set_frame, &mut replica, &no_config(), &mut state, 0);
    let getack = encode_command(&vec![b"REPLCONF".to_vec(), b"GETACK".to_vec(), b"*".to_vec()]);
    let (results, _) = parse_redis_message(&getack, &mut replica, &no_config(), &mut state, 0);
    let outputs = replica_outputs(&results);
    assert_eq!(outputs.len(), 1);
    let expected = format!(
        "*3\r\n$8\r\nREPLCONF\r\n$3\r\nACK\r\n${}\r\n{}\r\n",
        set_frame.len().to_string().len(),
        set_frame.len()
    );
    assert_eq!(outputs[0], expected.into_bytes());
}

#[test]
fn replconf_handshake_subcommands_say_ok() {
    let db = RedisDatabase::new();
    assert_eq!(
        handle_replconf(&db, &args(&[b"listening-port", b"6380"])),
        b"+OK\r\n".to_vec()
    );
    assert_eq!(handle_replconf(&db, &args(&[b"capa", b"psync2"])), b"+OK\r\n".to_vec());
}

#[test]
fn fan_out_reaches_a_replica() {
    // A primary and a replica exchanging plain byte frames in memory.
    let mut primary = RedisDatabase::new();
    set_master_role(&mut primary);
    let mut replica = RedisDatabase::new();
    set_slave_role(&mut replica);
    register_replica(&mut primary, 1);

    let mut client = ClientState::new();
    let frame = encode_command(&vec![b"SET".to_vec(), b"k".to_vec(), b"v".to_vec()]);
    let (results, _) = parse_redis_message(&frame, &mut primary, &no_config(), &mut client, 0);
    assert_eq!(reply_of(&results[0].out), b"+OK\r\n".to_vec());
    assert!(redis_core::commands::should_forward_to_slaves(
        results[0].command.as_ref().unwrap()
    ));
    record_propagated_write(&mut primary, frame.len());

    // The transport hands the same frame to the replica.
    let mut link = ClientState::new();
    parse_redis_message(&frame, &mut replica, &no_config(), &mut link, 0);
    assert_eq!(handle_get(&mut replica, &args(&[b"k"]), 0), b"$1\r\nv\r\n".to_vec());

    // Both offsets read the frame's length.
    let p = String::from_utf8_lossy(&handle_info(&primary, &args(&[b"REPLICATION"]))).to_string();
    assert!(p.contains(&format!("master_repl_offset:{}", frame.len())));
    let r = String::from_utf8_lossy(&handle_info(&replica, &args(&[b"REPLICATION"]))).to_string();
    assert!(r.contains(&format!("slave_repl_offset:{}", frame.len())));
}

#[test]
fn wait_barrier_counts_acknowledgements() {
    let mut primary = RedisDatabase::new();
    set_master_role(&mut primary);
    register_replica(&mut primary, 7);
    let frame = wait_begin(&mut primary);
    assert_eq!(frame, b"*3\r\n$8\r\nREPLCONF\r\n$6\r\nGETACK\r\n$1\r\n*\r\n".to_vec());
    assert_eq!(wait_poll(&primary, 1), None);
    record_ack(&mut primary, 7, 37);
    assert_eq!(wait_poll(&primary, 1), Some(b":1\r\n".to_vec()));
    // The request frame counts as propagated work, once.
    let p = String::from_utf8_lossy(&handle_info(&primary, &args(&[b"REPLICATION"]))).to_string();
    assert!(p.contains(&format!("master_repl_offset:{}", frame.len())));
}

#[test]
fn wait_with_no_replicas_times_out_at_zero() {
    let mut primary = RedisDatabase::new();
    set_master_role(&mut primary);
    wait_begin(&mut primary);
    assert_eq!(wait_poll(&primary, 1), None);
    assert_eq!(wait_timeout_reply(&primary), b":0\r\n".to_vec());
}

#[test]
fn wait_arguments_parse_with_unreadable_numerals_as_zero() {
    match parse_wait_command(&args(&[b"2", b"500"])) {
        WaitArgs::Run(needed, timeout_ms) => {
            assert_eq!(needed, 2);
            assert_eq!(timeout_ms, 500);
        },
        WaitArgs::Malformed(_) => panic!("two arguments must run"),
    }
    match parse_wait_command(&args(&[b"x", b"y"])) {
        WaitArgs::Run(needed, timeout_ms) => {
            assert_eq!(needed, 0);
            assert_eq!(timeout_ms, 0);
        },
        WaitArgs::Malformed(_) => panic!("two arguments must run"),
    }
    match parse_wait_command(&args(&[b"1"])) {
        WaitArgs::Run(_, _) => panic!("one argument is malformed"),
        WaitArgs::Malformed(e) => assert_eq!(
            e,
            b"-ERR wrong number of arguments for 'wait' command\r\n".to_vec()
        ),
    }
}

#[test]
fn ack_frames_are_recognised_and_carry_their_offset() {
    assert_eq!(parse_ack_frame(&args(&[b"REPLCONF", b"ACK", b"42"])), Some(42));
    assert_eq!(parse_ack_frame(&args(&[b"replconf", b"ack", b"42"])), Some(42));
    assert_eq!(parse_ack_frame(&args(&[b"REPLCONF", b"ACK", b"x"])), Some(0));
    assert_eq!(parse_ack_frame(&args(&[b"REPLCONF", b"GETACK", b"*"])), None);
    assert_eq!(parse_ack_frame(&args(&[b"PING"])), None);
}

#[test]
fn executed_transaction_writes_reach_a_replica() {
    let mut primary = RedisDatabase::new();
    set_master_role(&mut primary);
    let mut replica = RedisDatabase::new();
    set_slave_role(&mut replica);

    let mut client = ClientState::new();
    let mut buf = encode_command(&vec![b"MULTI".to_vec()]);
    buf.extend_from_slice(&encode_command(&vec![b"SET".to_vec(), b"k".to_vec(), b"v".to_vec()]));
    buf.extend_from_slice(&encode_command(&vec![b"EXEC".to_vec()]));
    let (results, _) = parse_redis_message(&buf, &mut primary, &no_config(), &mut client, 0);
    let forwards = results[2].propagate.as_ref().expect("EXEC hands over its writes");
    assert_eq!(forwards.len(), 1);

    // The transport hands the re-framed write to the replica.
    let mut link = ClientState::new();
    parse_redis_message(&forwards[0], &mut replica, &no_config(), &mut link, 0);
    assert_eq!(handle_get(&mut replica, &args(&[b"k"]), 0), b"$1\r\nv\r\n".to_vec());
}

#[test]
fn closed_replica_connections_leave_the_registry() {
    let mut primary = RedisDatabase::new();
    register_replica(&mut primary, 1);
    register_replica(&mut primary, 2);
    remove_replica(&mut primary, 1);
    assert_eq!(primary.slave_connections.len(), 1);
    assert_eq!(primary.slave_connections[0].id, 2);
}
