use redis_core::commands::handle_get;
use redis_core::database::RedisDatabase;
use redis_core::rdb_parser::decode_size;
use redis_core::rdb_parser::parse_rdb_file;
use redis_core::rdb_parser::read_string;
use redis_core::rdb_parser::read_u8;
use redis_core::rdb_parser::read_uint_le;

fn args(xs: &[&[u8]]) -> Vec<Vec<u8>> {
    xs.iter().map(|x| x.to_vec()).collect()
}

#[test]
fn byte_reader_advances_and_stops() {
    let buf = [7u8, 9u8];
    let mut c = 0usize;
    assert_eq!(read_u8(&buf, &mut c), Some(7));
    assert_eq!(read_u8(&buf, &mut c), Some(9));
    assert_eq!(read_u8(&buf, &mut c), None);
    assert_eq!(c, 2);
}

#[test]
fn little_endian_reader_is_exact() {
    let buf = [0x01u8, 0x02, 0x03, 0x04];
    let mut c = 0usize;
    assert_eq!(read_uint_le(&buf, &mut c, 4), Some(0x04030201));
    assert_eq!(c, 4);
    let mut c = 0usize;
    assert_eq!(read_uint_le(&buf, &mut c, 2), Some(0x0201));
    let mut c = 3usize;
    assert_eq!(read_uint_le(&buf, &mut c, 2), None);
    assert_eq!(c, 3);
}

#[test]
fn size_fields_cover_all_three_widths() {
    let mut c = 0usize;
    assert_eq!(decode_size(&[0x2A], &mut c), Some(42));
    let mut c = 0usize;
    assert_eq!(decode_size(&[0x41, 0x02], &mut c), Some(0x102));
    let mut c = 0usize;
    assert_eq!(decode_size(&[0x80, 0x10, 0x00, 0x00, 0x00], &mut c), Some(16));
    let mut c = 0usize;
    assert_eq!(decode_size(&[0xC0], &mut c), None);
}

#[test]
fn string_records_cover_plain_and_tagged_forms() {
    let mut c = 0usize;
    assert_eq!(read_string(b"\x02hi", &mut c), Some(b"hi".to_vec()));
    assert_eq!(c, 3);
    let mut c = 0usize;
    assert_eq!(read_string(&[0xC0, 200], &mut c), Some(b"200".to_vec()));
    let mut c = 0usize;
    assert_eq!(read_string(&[0xC1, 0x39, 0x30], &mut c), Some(b"12345".to_vec()));
    let mut c = 0usize;
    assert_eq!(read_string(&[0xC3, 1, 2], &mut c), None);
}

#[test]
fn snapshot_load_restores_keys_and_deadlines() {
    // REDIS0011, metadata, one plain entry, one entry expiring at 2000ms,
    // terminator.
    let mut snapshot: Vec<u8> = Vec::new();
    snapshot.extend_from_slice(b"REDIS0011");
    snapshot.push(0xFA);
    snapshot.push(0x04);
    snapshot.extend_from_slice(b"meta");
    snapshot.push(0x03);
    snapshot.extend_from_slice(b"yes");
    snapshot.push(0x00);
    snapshot.push(0x01);
    snapshot.extend_from_slice(b"a");
    snapshot.push(0x02);
    snapshot.extend_from_slice(b"v1");
    snapshot.push(0xFC);
    snapshot.extend_from_slice(&2000u64.to_le_bytes());
    snapshot.push(0x00);
    snapshot.push(0x01);
    snapshot.extend_from_slice(b"b");
    snapshot.push(0x02);
    snapshot.extend_from_slice(b"v2");
    snapshot.push(0xFF);

    let mut db = RedisDatabase::new();
    assert!(parse_rdb_file(&snapshot, &mut db, 1000));
    assert_eq!(handle_get(&mut db, &args(&[b"a"]), 1000), b"$2\r\nv1\r\n".to_vec());
    assert_eq!(handle_get(&mut db, &args(&[b"b"]), 1500), b"$2\r\nv2\r\n".to_vec());
    assert_eq!(handle_get(&mut db, &args(&[b"b"]), 2500), b"$-1\r\n".to_vec());
}

#[test]
fn snapshot_entries_with_past_deadlines_read_absent() {
    // One entry whose millisecond deadline has already passed at load
    // time: it must read as absent, not live forever.
    let mut snapshot: Vec<u8> = Vec::new();
    snapshot.extend_from_slice(b"REDIS0011");
    snapshot.push(0xFC);
    snapshot.extend_from_slice(&100u64.to_le_bytes());
    snapshot.push(0x00);
    snapshot.push(0x01);
    snapshot.extend_from_slice(b"k");
    snapshot.push(0x01);
    snapshot.extend_from_slice(b"v");
    snapshot.push(0xFF);
    let mut db = RedisDatabase::new();
    assert!(parse_rdb_file(&snapshot, &mut db, 200));
    assert_eq!(handle_get(&mut db, &args(&[b"k"]), 200), b"$-1\r\n".to_vec());
    assert_eq!(handle_get(&mut db, &args(&[b"k"]), u64::MAX), b"$-1\r\n".to_vec());
}

#[test]
fn snapshot_load_rejects_a_wrong_magic() {
    let mut db = RedisDatabase::new();
    assert!(!parse_rdb_file(b"NOPES0011\xFF", &mut db, 0));
    assert!(!parse_rdb_file(b"REDIS00x1\xFF", &mut db, 0));
    assert!(!parse_rdb_file(b"REDIS0011\x42", &mut db, 0));
}
