use redis_core::commands::handle_del;
use redis_core::commands::handle_echo;
use redis_core::commands::handle_get;
use redis_core::commands::handle_incr;
use redis_core::commands::handle_keys;
use redis_core::commands::handle_ping;
use redis_core::commands::handle_set;
use redis_core::commands::handle_type;
use redis_core::commands::handle_config;
use redis_core::commands::hex_to_bytes;
use redis_core::commands::send_rdb_file;
use redis_core::commands::should_forward_to_slaves;
use redis_core::database::RedisDatabase;

fn args(xs: &[&[u8]]) -> Vec<Vec<u8>> {
    xs.iter().map(|x| x.to_vec()).collect()
}

#[test]
fn ping_replies_pong() {
    assert_eq!(handle_ping(&args(&[])), b"+PONG\r\n".to_vec());
}

#[test]
fn ping_echoes_single_argument() {
    assert_eq!(handle_ping(&args(&[b"hey"])), b"$3\r\nhey\r\n".to_vec());
}

#[test]
fn echo_replies_bulk() {
    assert_eq!(handle_echo(&args(&[b"hello"])), b"$5\r\nhello\r\n".to_vec());
}

#[test]
fn echo_wrong_arity_is_error() {
    assert_eq!(
        handle_echo(&args(&[])),
        b"-ERR wrong number of arguments for 'echo' command\r\n".to_vec()
    );
}

#[test]
fn set_then_get_round_trips() {
    let mut db = RedisDatabase::new();
    let r = handle_set(&mut db, &args(&[b"k", b"v"]), 0);
    assert_eq!(r, b"+OK\r\n".to_vec());
    let g = handle_get(&mut db, &args(&[b"k"]), 0);
    assert_eq!(g, b"$1\r\nv\r\n".to_vec());
}

#[test]
fn set_preserves_value_bytes_exactly() {
    let mut db = RedisDatabase::new();
    handle_set(&mut db, &args(&[b"k", b"007"]), 0);
    let g = handle_get(&mut db, &args(&[b"k"]), 0);
    assert_eq!(g, b"$3\r\n007\r\n".to_vec());
}

#[test]
fn set_px_zero_reads_null() {
    let mut db = RedisDatabase::new();
    let r = handle_set(&mut db, &args(&[b"k", b"v", b"PX", b"0"]), 5);
    assert_eq!(r, b"+OK\r\n".to_vec());
    let g = handle_get(&mut db, &args(&[b"k"]), 5);
    assert_eq!(g, b"$-1\r\n".to_vec());
}

#[test]
fn expiry_is_lazy_and_exact() {
    let mut db = RedisDatabase::new();
    handle_set(&mut db, &args(&[b"k", b"v", b"PX", b"100"]), 0);
    assert_eq!(handle_get(&mut db, &args(&[b"k"]), 50), b"$1\r\nv\r\n".to_vec());
    assert_eq!(handle_get(&mut db, &args(&[b"k"]), 200), b"$-1\r\n".to_vec());
    // The expired record was removed on access.
    assert_eq!(handle_type(&db, &args(&[b"k"]), 200), b"+none\r\n".to_vec());
}

#[test]
fn type_tracks_get_on_absent_and_expired_keys() {
    let mut db = RedisDatabase::new();
    assert_eq!(handle_type(&db, &args(&[b"k"]), 0), b"+none\r\n".to_vec());
    assert_eq!(handle_get(&mut db, &args(&[b"k"]), 0), b"$-1\r\n".to_vec());
    handle_set(&mut db, &args(&[b"k", b"v"]), 0);
    assert_eq!(handle_type(&db, &args(&[b"k"]), 0), b"+string\r\n".to_vec());
    handle_set(&mut db, &args(&[b"k", b"v", b"PX", b"1"]), 0);
    assert_eq!(handle_type(&db, &args(&[b"k"]), 10), b"+none\r\n".to_vec());
}

#[test]
fn incr_creates_steps_and_rejects() {
    let mut db = RedisDatabase::new();
    assert_eq!(handle_incr(&mut db, &args(&[b"n"]), 0), b":1\r\n".to_vec());
    assert_eq!(handle_incr(&mut db, &args(&[b"n"]), 0), b":2\r\n".to_vec());
    handle_set(&mut db, &args(&[b"s", b"41"]), 0);
    assert_eq!(handle_incr(&mut db, &args(&[b"s"]), 0), b":42\r\n".to_vec());
    handle_set(&mut db, &args(&[b"t", b"abc"]), 0);
    assert_eq!(
        handle_incr(&mut db, &args(&[b"t"]), 0),
        b"-ERR value is not an integer or out of range\r\n".to_vec()
    );
}

#[test]
fn keys_lists_in_storage_order() {
    let mut db = RedisDatabase::new();
    handle_set(&mut db, &args(&[b"a", b"1"]), 0);
    handle_set(&mut db, &args(&[b"b", b"2"]), 0);
    assert_eq!(handle_keys(&db), b"*2\r\n$1\r\na\r\n$1\r\nb\r\n".to_vec());
}

#[test]
fn config_get_answers_known_names() {
    let config: Vec<(Vec<u8>, Vec<u8>)> = vec![(b"dir".to_vec(), b"/data".to_vec())];
    assert_eq!(
        handle_config(&config, &args(&[b"GET", b"dir"])),
        b"*2\r\n$3\r\ndir\r\n$5\r\n/data\r\n".to_vec()
    );
    assert_eq!(handle_config(&config, &args(&[b"GET", b"nope"])), b"$-1\r\n".to_vec());
    assert_eq!(handle_config(&config, &args(&[b"dir"])), b"-ERR syntax error\r\n".to_vec());
}

#[test]
fn forwarding_covers_exactly_the_write_verbs() {
    assert!(should_forward_to_slaves(b"SET"));
    assert!(should_forward_to_slaves(b"DEL"));
    assert!(should_forward_to_slaves(b"INCR"));
    assert!(should_forward_to_slaves(b"XADD"));
    assert!(!should_forward_to_slaves(b"GET"));
    assert!(!should_forward_to_slaves(b"PING"));
    assert!(!should_forward_to_slaves(b"REPLCONF"));
}

#[test]
fn hex_decoding_is_exact() {
    assert_eq!(hex_to_bytes(b"0aff"), Some(vec![0x0a, 0xff]));
    assert_eq!(hex_to_bytes(b"52454449"), Some(vec![0x52, 0x45, 0x44, 0x49]));
    assert_eq!(hex_to_bytes(b"0"), None);
    assert_eq!(hex_to_bytes(b"zz"), None);
    assert_eq!(hex_to_bytes(b""), Some(Vec::new()));
}

#[test]
fn snapshot_transfer_has_header_and_no_terminator() {
    let bytes = send_rdb_file();
    assert_eq!(&bytes[0..5], b"$88\r\n");
    assert_eq!(bytes.len(), 5 + 88);
    assert_eq!(&bytes[5..10], b"REDIS");
    assert!(!bytes.ends_with(b"\r\n"));
}

#[test]
fn del_removes_and_reports_the_count() {
    let mut db = RedisDatabase::new();
    handle_set(&mut db, &args(&[b"k", b"v"]), 0);
    assert_eq!(handle_del(&mut db, &args(&[b"k"]), 0), b":1\r\n".to_vec());
    assert_eq!(handle_get(&mut db, &args(&[b"k"]), 0), b"$-1\r\n".to_vec());
    assert_eq!(handle_del(&mut db, &args(&[b"k"]), 0), b":0\r\n".to_vec());
    handle_set(&mut db, &args(&[b"e", b"v", b"PX", b"1"]), 0);
    assert_eq!(handle_del(&mut db, &args(&[b"e"]), 10), b":0\r\n".to_vec());
}
