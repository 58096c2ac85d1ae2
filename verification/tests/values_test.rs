use redis_core::database::Expiry;
use redis_core::database::RedisValue;
use redis_core::database::RedisValueType;
use redis_core::database::ReplicationInfoValue;
use redis_core::resp::bulk_reply;
use redis_core::resp::error_reply;
use redis_core::resp::format_u64;
use redis_core::resp::parse_u64;
use redis_core::resp::simple_reply;
use redis_core::stream::Stream;
use redis_core::stream::StreamID;

#[test]
fn decimal_rendering_and_parsing_round_trip() {
    assert_eq!(format_u64(0), b"0".to_vec());
    assert_eq!(format_u64(1000), b"1000".to_vec());
    assert_eq!(format_u64(u64::MAX), b"18446744073709551615".to_vec());
    assert_eq!(parse_u64(b"18446744073709551615"), Some(u64::MAX));
    assert_eq!(parse_u64(b"18446744073709551616"), None);
    assert_eq!(parse_u64(b""), None);
    assert_eq!(parse_u64(b"12a"), None);
    assert_eq!(parse_u64(b"007"), Some(7));
}

#[test]
fn reply_builders_produce_exact_bytes() {
    assert_eq!(simple_reply("OK"), b"+OK\r\n".to_vec());
    assert_eq!(error_reply("ERR nope"), b"-ERR nope\r\n".to_vec());
    assert_eq!(bulk_reply(b"hi"), b"$2\r\nhi\r\n".to_vec());
    assert_eq!(bulk_reply(b""), b"$0\r\n\r\n".to_vec());
}

#[test]
fn identifiers_order_lexicographically() {
    let zero = StreamID::zero();
    let a = StreamID { milliseconds_time: 1, sequence_number: 0 };
    let b = StreamID { milliseconds_time: 1, sequence_number: 5 };
    let c = StreamID { milliseconds_time: 2, sequence_number: 0 };
    assert!(a.is_valid(&zero));
    assert!(b.is_valid(&a));
    assert!(c.is_valid(&b));
    assert!(!a.is_valid(&b));
    assert!(!a.is_valid(&a));
    assert_eq!(a.format(), b"1-0".to_vec());
}

#[test]
fn generated_identifiers_continue_the_stream() {
    let mut s = Stream::new();
    assert_eq!(s.len(), 0);
    assert_eq!(s.last_id(), None);
    let id1 = StreamID::generate(&s, 10);
    assert_eq!(id1, StreamID { milliseconds_time: 10, sequence_number: 0 });
    s.append(id1, vec![(b"a".to_vec(), b"1".to_vec())]);
    let id2 = StreamID::generate(&s, 10);
    assert_eq!(id2, StreamID { milliseconds_time: 10, sequence_number: 1 });
    let id3 = StreamID::generate_with_time(10, &s);
    assert_eq!(id3, StreamID { milliseconds_time: 10, sequence_number: 1 });
    let id4 = StreamID::generate_with_time(0, &s);
    assert_eq!(id4, StreamID { milliseconds_time: 0, sequence_number: 1 });
    assert_eq!(s.last_id(), Some(id1));
}

#[test]
fn records_expire_at_their_deadline() {
    let v = RedisValue::new(RedisValueType::StringValue(b"x".to_vec()), Some(100), 50);
    assert!(!v.is_expired(50));
    assert!(!v.is_expired(149));
    assert!(v.is_expired(150));
    assert!(v.is_expired(u64::MAX));
    let w = RedisValue::new(RedisValueType::StringValue(b"x".to_vec()), None, 0);
    assert!(!w.is_expired(u64::MAX));
    let z = RedisValue::new(RedisValueType::StringValue(b"x".to_vec()), Some(0), 7);
    assert!(z.is_expired(7));
    assert_eq!(z.expiry, Expiry::Expired);
}

#[test]
fn record_accessors_expose_the_value() {
    let mut v = RedisValue::new(RedisValueType::IntegerValue(41), None, 0);
    match v.get_value() {
        RedisValueType::IntegerValue(n) => assert_eq!(*n, 41),
        _ => panic!("expected an integer"),
    }
    *v.get_mut_value() = RedisValueType::IntegerValue(42);
    match v.get_value() {
        RedisValueType::IntegerValue(n) => assert_eq!(*n, 42),
        _ => panic!("expected an integer"),
    }
}

#[test]
fn value_lengths_follow_the_rendering() {
    assert_eq!(RedisValueType::IntegerValue(1000).len(), 4);
    assert_eq!(RedisValueType::StringValue(b"hello".to_vec()).len(), 5);
    let mut s = Stream::new();
    s.append(
        StreamID { milliseconds_time: 1, sequence_number: 1 },
        vec![(b"a".to_vec(), b"1".to_vec())],
    );
    assert_eq!(RedisValueType::StreamValue(s).len(), 1);
}

#[test]
fn replication_values_render_as_text_or_number() {
    assert_eq!(
        ReplicationInfoValue::StringValue(b"master".to_vec()).render(),
        b"master".to_vec()
    );
    assert_eq!(ReplicationInfoValue::ByteValue(88).render(), b"88".to_vec());
}

#[test]
fn range_and_tail_queries_select_by_order() {
    let mut s = Stream::new();
    for (ms, name) in [(1u64, b"a"), (2u64, b"b"), (3u64, b"c")] {
        s.append(
            StreamID { milliseconds_time: ms, sequence_number: 0 },
            vec![(name.to_vec(), b"1".to_vec())],
        );
    }
    let mid = s.range_entries(
        StreamID { milliseconds_time: 2, sequence_number: 0 },
        StreamID { milliseconds_time: 3, sequence_number: 0 },
    );
    assert_eq!(mid.len(), 2);
    assert_eq!(mid[0].id.milliseconds_time, 2);
    let tail = s.entries_after(StreamID { milliseconds_time: 1, sequence_number: 0 });
    assert_eq!(tail.len(), 2);
    assert_eq!(tail[0].id.milliseconds_time, 2);
    let all = s.range_entries(StreamID::zero(), StreamID::max_id());
    assert_eq!(all.len(), 3);
    assert_eq!(s.entry_at(1).id.milliseconds_time, 2);
    assert_eq!(s.entry_at(1).fields[0].0, b"b".to_vec());
    let copy = s.duplicate();
    assert_eq!(copy.len(), 3);
    assert_eq!(copy.last_id(), s.last_id());
}
