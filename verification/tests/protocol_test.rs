use redis_core::codec::decode_frame;
use redis_core::codec::get_end_of_redis_message;
use redis_core::codec::Decoded;
use redis_core::database::RedisDatabase;
use redis_core::parsing::parse_redis_message;
use redis_core::parsing::ClientState;
use redis_core::parsing::Dispatched;
use redis_core::resp::encode_command;

fn no_config() -> Vec<(Vec<u8>, Vec<u8>)> {
    Vec::new()
}

fn reply_of(out: &Dispatched) -> Vec<u8> {
    match out {
        Dispatched::Reply(v) => v.clone(),
        Dispatched::XreadBlock(_, _) => panic!("expected a plain reply"),
    }
}

#[test]
fn ping_frame_round_trips_to_pong() {
    let mut db = RedisDatabase::new();
    let mut state = ClientState::new();
    let (results, used) = parse_redis_message(
        b"*1\r\n$4\r\nPING\r\n",
        &mut db,
        &no_config(),
        &mut state,
        0,
    );
    assert_eq!(used, 14);
    assert_eq!(results.len(), 1);
    assert_eq!(results[0].command, Some(b"PING".to_vec()));
    assert_eq!(reply_of(&results[0].out), b"+PONG\r\n".to_vec());
}

#[test]
fn echo_frame_round_trips() {
    let mut db = RedisDatabase::new();
    let mut state = ClientState::new();
    let (results, _) = parse_redis_message(
        b"*2\r\n$4\r\nECHO\r\n$5\r\nhello\r\n",
        &mut db,
        &no_config(),
        &mut state,
        0,
    );
    assert_eq!(results.len(), 1);
    assert_eq!(reply_of(&results[0].out), b"$5\r\nhello\r\n".to_vec());
}

#[test]
fn truncated_frames_consume_nothing() {
    let mut db = RedisDatabase::new();
    let mut state = ClientState::new();
    let (results, used) = parse_redis_message(
        b"*1\r\n$4\r\nPI",
        &mut db,
        &no_config(),
        &mut state,
        0,
    );
    assert_eq!(used, 0);
    assert_eq!(results.len(), 0);
}

#[test]
fn bulk_payloads_may_contain_line_terminators() {
    let frame = encode_command(&vec![b"ECHO".to_vec(), b"a\r\nb".to_vec()]);
    let mut db = RedisDatabase::new();
    let mut state = ClientState::new();
    let (results, used) = parse_redis_message(&frame, &mut db, &no_config(), &mut state, 0);
    assert_eq!(used, frame.len());
    assert_eq!(reply_of(&results[0].out), b"$4\r\na\r\nb\r\n".to_vec());
}

#[test]
fn two_frames_in_one_buffer_both_run() {
    let mut buf = encode_command(&vec![b"SET".to_vec(), b"k".to_vec(), b"v".to_vec()]);
    buf.extend_from_slice(&encode_command(&vec![b"GET".to_vec(), b"k".to_vec()]));
    let mut db = RedisDatabase::new();
    let mut state = ClientState::new();
    let (results, used) = parse_redis_message(&buf, &mut db, &no_config(), &mut state, 0);
    assert_eq!(used, buf.len());
    assert_eq!(results.len(), 2);
    assert_eq!(reply_of(&results[0].out), b"+OK\r\n".to_vec());
    assert_eq!(reply_of(&results[1].out), b"$1\r\nv\r\n".to_vec());
    assert_eq!(results[0].byte_length, 27);
}

#[test]
fn invalid_prefix_is_reported() {
    let mut db = RedisDatabase::new();
    let mut state = ClientState::new();
    let (results, used) = parse_redis_message(b"HELLO\r\n", &mut db, &no_config(), &mut state, 0);
    assert_eq!(used, 0);
    assert_eq!(results.len(), 1);
    assert_eq!(reply_of(&results[0].out), b"-ERR invalid format\r\n".to_vec());
}

#[test]
fn unknown_verbs_do_not_end_the_session() {
    let mut buf = encode_command(&vec![b"NOSUCH".to_vec()]);
    buf.extend_from_slice(&encode_command(&vec![b"PING".to_vec()]));
    let mut db = RedisDatabase::new();
    let mut state = ClientState::new();
    let (results, _) = parse_redis_message(&buf, &mut db, &no_config(), &mut state, 0);
    assert_eq!(results.len(), 2);
    assert_eq!(reply_of(&results[0].out), b"-ERR unknown command\r\n".to_vec());
    assert_eq!(reply_of(&results[1].out), b"+PONG\r\n".to_vec());
}

#[test]
fn decode_frame_reports_exact_consumption() {
    match decode_frame(b"*1\r\n$4\r\nPING\r\nextra") {
        Decoded::Frame(items, used) => {
            assert_eq!(used, 14);
            assert_eq!(items, vec![b"PING".to_vec()]);
        },
        _ => panic!("expected a complete frame"),
    }
    assert_eq!(get_end_of_redis_message(b"*1\r\n$4\r\nPING\r\n"), Some(14));
    assert_eq!(get_end_of_redis_message(b"*1\r\n$4\r\nPI"), None);
}

#[test]
fn transactions_queue_and_run() {
    let mut db = RedisDatabase::new();
    let mut state = ClientState::new();
    let mut buf = encode_command(&vec![b"MULTI".to_vec()]);
    buf.extend_from_slice(&encode_command(&vec![b"SET".to_vec(), b"k".to_vec(), b"v".to_vec()]));
    buf.extend_from_slice(&encode_command(&vec![b"GET".to_vec(), b"k".to_vec()]));
    buf.extend_from_slice(&encode_command(&vec![b"EXEC".to_vec()]));
    let (results, _) = parse_redis_message(&buf, &mut db, &no_config(), &mut state, 0);
    assert_eq!(results.len(), 4);
    assert_eq!(reply_of(&results[0].out), b"+OK\r\n".to_vec());
    assert_eq!(reply_of(&results[1].out), b"+QUEUED\r\n".to_vec());
    assert_eq!(reply_of(&results[2].out), b"+QUEUED\r\n".to_vec());
    // EXEC replies one array holding each command's own reply bytes.
    assert_eq!(reply_of(&results[3].out), b"*2\r\n+OK\r\n$1\r\nv\r\n".to_vec());
    // The executed write is handed over, re-framed, for fan-out.
    let forwards = results[3].propagate.as_ref().expect("EXEC hands over its writes");
    assert_eq!(forwards.len(), 1);
    assert_eq!(
        forwards[0],
        encode_command(&vec![b"SET".to_vec(), b"k".to_vec(), b"v".to_vec()])
    );
    // The queued frames themselves were not marked for propagation.
    assert_eq!(results[1].propagate, None);
}

#[test]
fn exec_and_discard_without_multi_are_errors() {
    let mut db = RedisDatabase::new();
    let mut state = ClientState::new();
    let (results, _) = parse_redis_message(
        &encode_command(&vec![b"EXEC".to_vec()]),
        &mut db,
        &no_config(),
        &mut state,
        0,
    );
    assert_eq!(reply_of(&results[0].out), b"-ERR EXEC without MULTI\r\n".to_vec());
    let (results, _) = parse_redis_message(
        &encode_command(&vec![b"DISCARD".to_vec()]),
        &mut db,
        &no_config(),
        &mut state,
        0,
    );
    assert_eq!(reply_of(&results[0].out), b"-ERR DISCARD without MULTI\r\n".to_vec());
}

#[test]
fn discard_drops_the_queue() {
    let mut db = RedisDatabase::new();
    let mut state = ClientState::new();
    let mut buf = encode_command(&vec![b"MULTI".to_vec()]);
    buf.extend_from_slice(&encode_command(&vec![b"SET".to_vec(), b"k".to_vec(), b"v".to_vec()]));
    buf.extend_from_slice(&encode_command(&vec![b"DISCARD".to_vec()]));
    buf.extend_from_slice(&encode_command(&vec![b"GET".to_vec(), b"k".to_vec()]));
    let (results, _) = parse_redis_message(&buf, &mut db, &no_config(), &mut state, 0);
    assert_eq!(reply_of(&results[2].out), b"+OK\r\n".to_vec());
    assert_eq!(reply_of(&results[3].out), b"$-1\r\n".to_vec());
}
