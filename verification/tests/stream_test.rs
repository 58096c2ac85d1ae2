use redis_core::database::RedisDatabase;
use redis_core::stream::StreamID;
use redis_core::stream_commands::handle_xadd;
use redis_core::stream_commands::handle_xrange;
use redis_core::stream_commands::handle_xread;
use redis_core::stream_commands::xread_poll;
use redis_core::stream_commands::XreadOutcome;

fn args(xs: &[&[u8]]) -> Vec<Vec<u8>> {
    xs.iter().map(|x| x.to_vec()).collect()
}

#[test]
fn xadd_explicit_then_xrange_full_range() {
    let mut db = RedisDatabase::new();
    let r = handle_xadd(&mut db, &args(&[b"s", b"1-1", b"a", b"1"]), 0);
    assert_eq!(r, b"$3\r\n1-1\r\n".to_vec());
    let g = handle_xrange(&db, &args(&[b"s", b"-", b"+"]));
    assert_eq!(
        g,
        b"*1\r\n*2\r\n$3\r\n1-1\r\n*2\r\n$1\r\na\r\n$1\r\n1\r\n".to_vec()
    );
}

#[test]
fn xadd_rejects_the_zero_identifier() {
    let mut db = RedisDatabase::new();
    let r = handle_xadd(&mut db, &args(&[b"s", b"0-0", b"a", b"1"]), 0);
    assert_eq!(
        r,
        b"-ERR The ID specified in XADD must be greater than 0-0\r\n".to_vec()
    );
}

#[test]
fn xadd_rejects_non_increasing_identifiers() {
    let mut db = RedisDatabase::new();
    handle_xadd(&mut db, &args(&[b"s", b"5-5", b"a", b"1"]), 0);
    let r = handle_xadd(&mut db, &args(&[b"s", b"5-5", b"a", b"2"]), 0);
    assert_eq!(
        r,
        b"-ERR The ID specified in XADD is equal or smaller than the target stream top item\r\n"
            .to_vec()
    );
}

#[test]
fn auto_identifiers_increase() {
    let mut db = RedisDatabase::new();
    let r1 = handle_xadd(&mut db, &args(&[b"s", b"*", b"a", b"1"]), 5);
    assert_eq!(r1, b"$3\r\n5-0\r\n".to_vec());
    let r2 = handle_xadd(&mut db, &args(&[b"s", b"*", b"a", b"2"]), 5);
    assert_eq!(r2, b"$3\r\n5-1\r\n".to_vec());
    let r3 = handle_xadd(&mut db, &args(&[b"s", b"*", b"a", b"3"]), 9);
    assert_eq!(r3, b"$3\r\n9-0\r\n".to_vec());
}

#[test]
fn partial_identifier_completes_the_sequence_number() {
    let mut db = RedisDatabase::new();
    assert_eq!(
        handle_xadd(&mut db, &args(&[b"s", b"0-*", b"a", b"1"]), 0),
        b"$3\r\n0-1\r\n".to_vec()
    );
    assert_eq!(
        handle_xadd(&mut db, &args(&[b"s", b"7-*", b"a", b"2"]), 0),
        b"$3\r\n7-0\r\n".to_vec()
    );
    assert_eq!(
        handle_xadd(&mut db, &args(&[b"s", b"7-*", b"a", b"3"]), 0),
        b"$3\r\n7-1\r\n".to_vec()
    );
}

#[test]
fn xrange_on_absent_key_is_empty_array() {
    let db = RedisDatabase::new();
    assert_eq!(handle_xrange(&db, &args(&[b"nope", b"-", b"+"])), b"*0\r\n".to_vec());
}

#[test]
fn xrange_honours_closed_bounds() {
    let mut db = RedisDatabase::new();
    handle_xadd(&mut db, &args(&[b"s", b"1-1", b"a", b"1"]), 0);
    handle_xadd(&mut db, &args(&[b"s", b"2-1", b"b", b"2"]), 0);
    handle_xadd(&mut db, &args(&[b"s", b"3-1", b"c", b"3"]), 0);
    let g = handle_xrange(&db, &args(&[b"s", b"2-1", b"3-1"]));
    assert_eq!(
        g,
        b"*2\r\n*2\r\n$3\r\n2-1\r\n*2\r\n$1\r\nb\r\n$1\r\n2\r\n*2\r\n$3\r\n3-1\r\n*2\r\n$1\r\nc\r\n$1\r\n3\r\n"
            .to_vec()
    );
}

#[test]
fn stream_id_parsing_is_strict() {
    assert_eq!(
        StreamID::from_str(b"123-7"),
        Some(StreamID { milliseconds_time: 123, sequence_number: 7 })
    );
    assert_eq!(StreamID::from_str(b"1-2-3"), None);
    assert_eq!(StreamID::from_str(b"12"), None);
    assert_eq!(StreamID::from_str(b"a-1"), None);
    assert_eq!(StreamID::from_str(b"1-"), None);
}

#[test]
fn xread_returns_entries_strictly_after() {
    let mut db = RedisDatabase::new();
    handle_xadd(&mut db, &args(&[b"s", b"1-1", b"a", b"1"]), 0);
    handle_xadd(&mut db, &args(&[b"s", b"2-1", b"b", b"2"]), 0);
    match handle_xread(&db, &args(&[b"STREAMS", b"s", b"1-1"])) {
        XreadOutcome::Reply(v) => assert_eq!(
            v,
            b"*1\r\n*2\r\n$1\r\ns\r\n*1\r\n*2\r\n$3\r\n2-1\r\n*2\r\n$1\r\nb\r\n$1\r\n2\r\n".to_vec()
        ),
        XreadOutcome::Block(_, _) => panic!("expected a reply"),
    }
}

#[test]
fn xread_with_no_data_blocks_or_answers_empty() {
    let mut db = RedisDatabase::new();
    handle_xadd(&mut db, &args(&[b"s", b"1-1", b"a", b"1"]), 0);
    match handle_xread(&db, &args(&[b"STREAMS", b"s", b"1-1"])) {
        XreadOutcome::Reply(v) => assert_eq!(v, b"*0\r\n".to_vec()),
        XreadOutcome::Block(_, _) => panic!("non-blocking read must not block"),
    }
    match handle_xread(&db, &args(&[b"BLOCK", b"500", b"STREAMS", b"s", b"$"])) {
        XreadOutcome::Reply(_) => panic!("expected a blocking outcome"),
        XreadOutcome::Block(ms, watch) => {
            assert_eq!(ms, 500);
            assert_eq!(watch.len(), 1);
            assert_eq!(watch[0].0, b"s".to_vec());
            assert_eq!(
                watch[0].1,
                StreamID { milliseconds_time: 1, sequence_number: 1 }
            );
            // A later append wakes the poll.
            assert_eq!(xread_poll(&db, &watch), None);
            handle_xadd(&mut db, &args(&[b"s", b"2-0", b"c", b"9"]), 0);
            let woke = xread_poll(&db, &watch).expect("new entry wakes the poll");
            assert_eq!(
                woke,
                b"*1\r\n*2\r\n$1\r\ns\r\n*1\r\n*2\r\n$3\r\n2-0\r\n*2\r\n$1\r\nc\r\n$1\r\n9\r\n"
                    .to_vec()
            );
        },
    }
}

#[test]
fn xread_rejects_a_key_of_another_kind() {
    let mut db = RedisDatabase::new();
    redis_core::commands::handle_set(&mut db, &args(&[b"k", b"v"]), 0);
    match handle_xread(&db, &args(&[b"STREAMS", b"k", b"0-0"])) {
        XreadOutcome::Reply(v) => assert_eq!(v, b"-ERR key 'k' is not a stream\r\n".to_vec()),
        XreadOutcome::Block(_, _) => panic!("expected an error reply"),
    }
}
