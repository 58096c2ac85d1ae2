//! The snapshot file decoder: size-prefixed records read at startup.
//!
//! A snapshot starts with the ASCII magic and a four-digit version, then
//! metadata records, hash-table hints, optional expiry annotations, and
//! string entries, ending at a terminator byte. Each reader advances a
//! cursor and is specified exactly over the byte sequence; the loader
//! mirrors a recursive spec function that folds the entries into the
//! keyspace.

use vstd::prelude::*;

use crate::database::RecordView;
use crate::database::RedisDatabase;
use crate::database::RedisValue;
use crate::database::RedisValueType;
use crate::database::ValueTypeView;
use crate::database::expiry_of;
use crate::database::store_view;
use crate::kv::assoc_insert;
use crate::resp::dec_digits;
use crate::resp::format_u64;

verus! {

/// The value of a little-endian byte sequence, first byte least
/// significant.
pub open spec fn le_val(s: Seq<u8>) -> nat
    decreases s.len(),
{
    if s.len() == 0 {
        0
    } else {
        (s[0] + 256 * le_val(s.skip(1))) as nat
    }
}

/// Powers of 256.
pub open spec fn pow256(k: nat) -> nat
    decreases k,
{
    if k == 0 {
        1
    } else {
        256 * pow256((k - 1) as nat)
    }
}

/// A little-endian value is bounded by the power of its width.
pub proof fn lemma_le_val_bound(s: Seq<u8>)
    ensures
        le_val(s) < pow256(s.len()),
    decreases s.len(),
{
    if s.len() == 0 {
    } else {
        lemma_le_val_bound(s.skip(1));
        assert(le_val(s) == s[0] + 256 * le_val(s.skip(1)));
        assert(256 * le_val(s.skip(1)) <= 256 * (pow256(s.skip(1).len()) - 1))
            by (nonlinear_arith)
            requires
                le_val(s.skip(1)) <= pow256(s.skip(1).len()) - 1,
        ;
    }
}

/// Powers of 256 do not shrink.
pub proof fn lemma_pow256_le(a: nat, b: nat)
    requires
        a <= b,
    ensures
        pow256(a) <= pow256(b),
    decreases b,
{
    if a < b {
        lemma_pow256_le(a, (b - 1) as nat);
        assert(pow256(b) == 256 * pow256((b - 1) as nat));
        assert(pow256((b - 1) as nat) <= 256 * pow256((b - 1) as nat)) by (nonlinear_arith)
            requires
                pow256((b - 1) as nat) >= 0,
        ;
    }
}

/// Eight little-endian bytes fill exactly the 64-bit range.
pub proof fn lemma_pow256_8()
    ensures
        pow256(8) == 0x10000000000000000,
{
    assert(pow256(0) == 1);
    assert(pow256(1) == 0x100);
    assert(pow256(2) == 0x10000);
    assert(pow256(3) == 0x1000000);
    assert(pow256(4) == 0x100000000);
    assert(pow256(5) == 0x10000000000);
    assert(pow256(6) == 0x1000000000000);
    assert(pow256(7) == 0x100000000000000);
    assert(pow256(8) == 0x10000000000000000);
}

/// Reads one byte and advances the cursor; at the buffer's end the
/// cursor stands still and nothing is read.
pub fn read_u8(buffer: &[u8], cursor: &mut usize) -> (r: Option<u8>)
    ensures
        *old(cursor) < buffer@.len() ==> r == Some(buffer@[*old(cursor) as int]) && *final(cursor)
            == *old(cursor) + 1,
        *old(cursor) >= buffer@.len() ==> r is None && *final(cursor) == *old(cursor),
{
    if *cursor < buffer.len() {
        let b = buffer[*cursor];
        *cursor = *cursor + 1;
        Some(b)
    } else {
        None
    }
}

/// Reads an `n`-byte little-endian integer.
pub fn read_uint_le(buffer: &[u8], cursor: &mut usize, n: usize) -> (r: Option<u64>)
    requires
        n <= 8,
    ensures
        *old(cursor) + n <= buffer@.len() ==> r == Some(
            le_val(buffer@.subrange(*old(cursor) as int, (*old(cursor) + n) as int)) as u64,
        ) && *final(cursor) == *old(cursor) + n,
        *old(cursor) + n > buffer@.len() ==> r is None && *final(cursor) == *old(cursor),
{
    let c0 = *cursor;
    if c0 > buffer.len() || n > buffer.len() - c0 {
        return None;
    }
    let mut value: u64 = 0;
    let mut i: usize = n;
    while i > 0
        invariant
            buffer@.len() <= usize::MAX,
            c0 + n <= buffer@.len(),
            n <= 8,
            i <= n,
            value as nat == le_val(buffer@.subrange((c0 + i) as int, (c0 + n) as int)),
        decreases i,
    {
        let b = buffer[c0 + i - 1];
        proof {
            let cur = buffer@.subrange((c0 + i - 1) as int, (c0 + n) as int);
            assert(cur[0] == buffer@[(c0 + i - 1) as int]);
            assert(cur.skip(1) =~= buffer@.subrange((c0 + i) as int, (c0 + n) as int));
            lemma_le_val_bound(cur);
            lemma_pow256_le(cur.len() as nat, 8);
            lemma_pow256_8();
            assert(le_val(cur) < 0x10000000000000000);
        }
        value = value * 256 + (b as u64);
        i = i - 1;
    }
    proof {
        assert(buffer@.subrange((c0 + n) as int, (c0 + n) as int) =~= Seq::<u8>::empty());
    }
    *cursor = c0 + n;
    Some(value)
}

/// How a size is read: the top two bits of the first byte select a
/// 6-bit, 14-bit, or 32-bit encoding; the tagged integer forms are not
/// sizes.
pub open spec fn spec_decode_size(s: Seq<u8>, c: nat) -> Option<(u64, nat)> {
    if c >= s.len() {
        None
    } else {
        let b = s[c as int];
        if b / 64 == 0 {
            Some(((b % 64) as u64, c + 1))
        } else if b / 64 == 1 {
            if c + 2 <= s.len() {
                Some((((b % 64) * 256 + s[c + 1 as int]) as u64, c + 2))
            } else {
                None
            }
        } else if b / 64 == 2 {
            if c + 5 <= s.len() {
                Some((le_val(s.subrange(c + 1 as int, c + 5 as int)) as u64, c + 5))
            } else {
                None
            }
        } else {
            None
        }
    }
}

/// Decodes one size field.
pub fn decode_size(buffer: &[u8], cursor: &mut usize) -> (r: Option<u64>)
    ensures
        match spec_decode_size(buffer@, *old(cursor) as nat) {
            Some((v, c2)) => r == Some(v) && *final(cursor) as nat == c2,
            None => r is None,
        },
{
    let first = match read_u8(buffer, cursor) {
        Some(b) => b,
        None => {
            return None;
        },
    };
    if first / 64 == 0 {
        Some((first % 64) as u64)
    } else if first / 64 == 1 {
        let second = match read_u8(buffer, cursor) {
            Some(b) => b,
            None => {
                return None;
            },
        };
        Some(((first % 64) as u64) * 256 + (second as u64))
    } else if first / 64 == 2 {
        match read_uint_le(buffer, cursor, 4) {
            Some(v) => Some(v),
            None => None,
        }
    } else {
        None
    }
}

/// How a string record is read: a tagged 8-, 16-, or 32-bit integer
/// rendered in decimal, or a size-prefixed run of bytes.
pub open spec fn spec_read_string(s: Seq<u8>, c: nat) -> Option<(Seq<u8>, nat)> {
    if c >= s.len() {
        None
    } else {
        let b = s[c as int];
        if b / 64 == 3 {
            if b == 0xC0 {
                if c + 2 <= s.len() {
                    Some((dec_digits(s[c + 1 as int] as nat), c + 2))
                } else {
                    None
                }
            } else if b == 0xC1 {
                if c + 3 <= s.len() {
                    Some((dec_digits(le_val(s.subrange(c + 1 as int, c + 3 as int))), c + 3))
                } else {
                    None
                }
            } else if b == 0xC2 {
                if c + 5 <= s.len() {
                    Some((dec_digits(le_val(s.subrange(c + 1 as int, c + 5 as int))), c + 5))
                } else {
                    None
                }
            } else {
                None
            }
        } else {
            match spec_decode_size(s, c) {
                None => None,
                Some((size, c2)) => {
                    if size <= usize::MAX && c2 + size <= s.len() {
                        Some((s.subrange(c2 as int, (c2 + size) as int), (c2 + size) as nat))
                    } else {
                        None
                    }
                },
            }
        }
    }
}

/// Reads one string record.
pub fn read_string(buffer: &[u8], cursor: &mut usize) -> (r: Option<Vec<u8>>)
    ensures
        match spec_read_string(buffer@, *old(cursor) as nat) {
            Some((v, c2)) => r is Some && r.unwrap()@ == v && *final(cursor) as nat == c2,
            None => r is None,
        },
{
    let c0 = *cursor;
    if c0 >= buffer.len() {
        return None;
    }
    let first = buffer[c0];
    if first / 64 == 3 {
        *cursor = c0 + 1;
        if first == 0xC0 {
            match read_u8(buffer, cursor) {
                Some(v) => Some(format_u64(v as u64)),
                None => None,
            }
        } else if first == 0xC1 {
            match read_uint_le(buffer, cursor, 2) {
                Some(v) => {
                    proof {
                        lemma_le_val_bound(buffer@.subrange(c0 + 1 as int, c0 + 3 as int));
                        lemma_pow256_le(2, 8);
                        lemma_pow256_8();
                    }
                    Some(format_u64(v))
                },
                None => None,
            }
        } else if first == 0xC2 {
            match read_uint_le(buffer, cursor, 4) {
                Some(v) => {
                    proof {
                        lemma_le_val_bound(buffer@.subrange(c0 + 1 as int, c0 + 5 as int));
                        lemma_pow256_le(4, 8);
                        lemma_pow256_8();
                    }
                    Some(format_u64(v))
                },
                None => None,
            }
        } else {
            None
        }
    } else {
        let size = match decode_size(buffer, cursor) {
            Some(v) => v,
            None => {
                return None;
            },
        };
        if size > usize::MAX as u64 {
            return None;
        }
        let size = size as usize;
        let start = *cursor;
        if size > buffer.len() - start {
            return None;
        }
        let bytes = vstd::slice::slice_to_vec(&buffer[start..start + size]);
        *cursor = start + size;
        Some(bytes)
    }
}

/// A string record moves the cursor forward and stays in the buffer.
pub proof fn lemma_read_string_advances(s: Seq<u8>, c: nat)
    ensures
        match spec_read_string(s, c) {
            Some((v, c2)) => c < c2 <= s.len(),
            None => true,
        },
{
}

/// A size field moves the cursor forward and stays in the buffer.
pub proof fn lemma_decode_size_advances(s: Seq<u8>, c: nat)
    ensures
        match spec_decode_size(s, c) {
            Some((v, c2)) => c < c2 <= s.len(),
            None => true,
        },
{
}

/// The cursor after the metadata records, or nothing when one of them
/// is malformed.
pub open spec fn spec_rdb_meta(s: Seq<u8>, c: nat) -> Option<nat>
    decreases s.len() - c,
{
    if c >= s.len() {
        Some(c)
    } else if s[c as int] != 0xFA {
        Some(c)
    } else {
        match spec_read_string(s, c + 1) {
            None => None,
            Some((_, c2)) => match spec_read_string(s, c2) {
                None => None,
                Some((_, c3)) => {
                    if c3 <= c || c3 > s.len() {
                        None
                    } else {
                        spec_rdb_meta(s, c3)
                    }
                },
            },
        }
    }
}

/// The time to live derived from an absolute deadline in seconds; a
/// deadline at or before the load clock marks the entry born expired.
pub open spec fn ttl_from_seconds(expire_s: u64, now_ms: u64) -> Option<u64> {
    let now_s = now_ms / 1000;
    if expire_s > now_s {
        let diff = (expire_s - now_s) as u64;
        if diff > u64::MAX / 1000 {
            Some(u64::MAX)
        } else {
            Some((diff * 1000) as u64)
        }
    } else {
        Some(0)
    }
}

/// The time to live derived from an absolute deadline in milliseconds;
/// a deadline at or before the load clock marks the entry born expired.
pub open spec fn ttl_from_millis(expire_ms: u64, now_ms: u64) -> Option<u64> {
    if expire_ms > now_ms {
        Some((expire_ms - now_ms) as u64)
    } else {
        Some(0)
    }
}

/// Folds the snapshot's entries into the keyspace pairs: expiry
/// annotations set the time to live of the next entry, and a deadline
/// already in the past marks it expired from birth, so it reads as
/// absent. Returns the pairs reached and whether the records were all
/// well formed.
#[verifier::opaque]
pub open spec fn spec_rdb_entries(
    pairs: Seq<(Seq<u8>, RecordView)>,
    s: Seq<u8>,
    c: nat,
    ttl: Option<u64>,
    now_ms: u64,
) -> (Seq<(Seq<u8>, RecordView)>, bool)
    decreases s.len() - c,
{
    if c >= s.len() {
        (pairs, true)
    } else {
        let b = s[c as int];
        if b == 0xFF {
            (pairs, true)
        } else if b == 0xFD {
            if c + 5 <= s.len() {
                let expire_s = le_val(s.subrange(c + 1 as int, c + 5 as int)) as u64;
                spec_rdb_entries(pairs, s, c + 5, ttl_from_seconds(expire_s, now_ms), now_ms)
            } else {
                (pairs, false)
            }
        } else if b == 0xFC {
            if c + 9 <= s.len() {
                let expire_ms = le_val(s.subrange(c + 1 as int, c + 9 as int)) as u64;
                spec_rdb_entries(pairs, s, c + 9, ttl_from_millis(expire_ms, now_ms), now_ms)
            } else {
                (pairs, false)
            }
        } else if b == 0xFE {
            match spec_decode_size(s, c + 1) {
                None => (pairs, false),
                Some((_, c2)) => {
                    if c2 <= c || c2 > s.len() {
                        (pairs, false)
                    } else {
                        spec_rdb_entries(pairs, s, c2, ttl, now_ms)
                    }
                },
            }
        } else if b == 0xFB {
            match spec_decode_size(s, c + 1) {
                None => (pairs, false),
                Some((_, c2)) => match spec_decode_size(s, c2) {
                    None => (pairs, false),
                    Some((_, c3)) => {
                        if c3 <= c || c3 > s.len() {
                            (pairs, false)
                        } else {
                            spec_rdb_entries(pairs, s, c3, ttl, now_ms)
                        }
                    },
                },
            }
        } else if b <= 3 {
            match spec_read_string(s, c + 1) {
                None => (pairs, false),
                Some((key, c2)) => match spec_read_string(s, c2) {
                    None => (pairs, false),
                    Some((value, c3)) => {
                        if c3 <= c || c3 > s.len() {
                            (pairs, false)
                        } else {
                            let rec = RecordView {
                                value: ValueTypeView::Str(value),
                                expiry: expiry_of(ttl, now_ms),
                            };
                            spec_rdb_entries(
                                assoc_insert(pairs, key, rec),
                                s,
                                c3,
                                None,
                                now_ms,
                            )
                        }
                    },
                },
            }
        } else {
            (pairs, false)
        }
    }
}

/// Whether the snapshot starts with the magic and a four-digit version.
pub open spec fn spec_rdb_header_ok(s: Seq<u8>) -> bool {
    s.len() >= 9 && s.take(5) == crate::resp::ascii_bytes("REDIS"@) && crate::resp::all_digits(
        s.subrange(5, 9),
    )
}

/// Loads a snapshot into the keyspace. Entries become plain string
/// records; expiry annotations become deadlines against the given
/// clock. Returns false on a malformed snapshot, keeping whatever
/// entries were read before the fault.
#[verifier::rlimit(100)]
pub fn parse_rdb_file(buffer: &[u8], db: &mut RedisDatabase, now_ms: u64) -> (r: bool)
    requires
        crate::stream_commands::db_inv(old(db)),
    ensures
        crate::stream_commands::db_inv(final(db)),
        final(db).replication_info == old(db).replication_info,
        final(db).slave_connections == old(db).slave_connections,
        final(db).ack_counter == old(db).ack_counter,
        ({
            if !spec_rdb_header_ok(buffer@) {
                r == false && final(db).data == old(db).data
            } else {
                match spec_rdb_meta(buffer@, 9) {
                    None => r == false && final(db).data == old(db).data,
                    Some(c1) => {
                        let (p, ok) = spec_rdb_entries(
                            store_view(old(db).data@),
                            buffer@,
                            c1,
                            None,
                            now_ms,
                        );
                        r == ok && store_view(final(db).data@) == p
                    },
                }
            }
        }),
{
    proof {
        reveal_strlit("REDIS");
    }
    if buffer.len() < 9 {
        return false;
    }
    let magic = &buffer[0..5];
    let magic_lit = crate::resp::str_bytes("REDIS");
    proof {
        assert(magic@ =~= buffer@.take(5));
    }
    if !crate::kv::bytes_eq(magic, magic_lit.as_slice()) {
        return false;
    }
    let mut d: usize = 5;
    while d < 9
        invariant
            buffer@.len() >= 9,
            db == old(db),
            crate::stream_commands::db_inv(db),
            5 <= d <= 9,
            forall|j: int| 5 <= j < d ==> crate::resp::is_digit(#[trigger] buffer@[j]),
        decreases 9 - d,
    {
        let b = buffer[d];
        if b < 48 || b > 57 {
            proof {
                assert(buffer@.subrange(5, 9)[d - 5] == buffer@[d as int]);
                assert(!crate::resp::all_digits(buffer@.subrange(5, 9)));
            }
            return false;
        }
        d = d + 1;
    }
    proof {
        assert forall|j: int| 0 <= j < 4 implies crate::resp::is_digit(
            #[trigger] buffer@.subrange(5, 9)[j],
        ) by {
            assert(buffer@.subrange(5, 9)[j] == buffer@[j + 5]);
        }
        assert(spec_rdb_header_ok(buffer@));
    }
    let mut cursor: usize = 9;

    // Metadata records: key and value strings behind each marker byte.
    loop
        invariant_except_break
            buffer@.len() <= usize::MAX,
            9 <= cursor <= buffer@.len(),
            db == old(db),
            crate::stream_commands::db_inv(db),
            spec_rdb_meta(buffer@, 9) == spec_rdb_meta(buffer@, cursor as nat),
        ensures
            9 <= cursor <= buffer@.len(),
            db == old(db),
            spec_rdb_meta(buffer@, 9) == Some(cursor as nat),
        decreases buffer@.len() - cursor,
    {
        if cursor >= buffer.len() {
            break ;
        }
        if buffer[cursor] != 0xFA {
            break ;
        }
        let ghost c0 = cursor as nat;
        let mut c = cursor + 1;
        let first = read_string(buffer, &mut c);
        proof {
            lemma_read_string_advances(buffer@, c0 + 1);
        }
        if first.is_none() {
            return false;
        }
        let ghost c2 = c as nat;
        let second = read_string(buffer, &mut c);
        proof {
            lemma_read_string_advances(buffer@, c2);
        }
        if second.is_none() {
            return false;
        }
        cursor = c;
    }
    let ghost c_start = cursor as nat;
    let ghost pairs0 = store_view(db.data@);

    // Entries: expiry annotations, section markers, and string records.
    let mut ttl: Option<u64> = None;
    loop
        invariant_except_break
            buffer@.len() <= usize::MAX,
            cursor <= buffer@.len(),
            spec_rdb_header_ok(buffer@),
            spec_rdb_meta(buffer@, 9) == Some(c_start),
            pairs0 == store_view(old(db).data@),
            crate::stream_commands::db_inv(db),
            db.replication_info == old(db).replication_info,
            db.slave_connections == old(db).slave_connections,
            db.ack_counter == old(db).ack_counter,
            spec_rdb_entries(pairs0, buffer@, c_start, None, now_ms) == spec_rdb_entries(
                store_view(db.data@),
                buffer@,
                cursor as nat,
                ttl,
                now_ms,
            ),
        ensures
            crate::stream_commands::db_inv(db),
            db.replication_info == old(db).replication_info,
            db.slave_connections == old(db).slave_connections,
            db.ack_counter == old(db).ack_counter,
            spec_rdb_entries(pairs0, buffer@, c_start, None, now_ms) == (
                store_view(db.data@),
                true,
            ),
        decreases buffer@.len() - cursor,
    {
        proof {
            reveal(spec_rdb_entries);
        }
        if cursor >= buffer.len() {
            break ;
        }
        let b = buffer[cursor];
        if b == 0xFF {
            break ;
        } else if b == 0xFD {
            let mut c = cursor + 1;
            match read_uint_le(buffer, &mut c, 4) {
                None => {
                    return false;
                },
                Some(expire_s) => {
                    let now_s = now_ms / 1000;
                    ttl = if expire_s > now_s {
                        let diff = expire_s - now_s;
                        if diff > u64::MAX / 1000 {
                            Some(u64::MAX)
                        } else {
                            Some(diff * 1000)
                        }
                    } else {
                        Some(0)
                    };
                    cursor = c;
                },
            }
        } else if b == 0xFC {
            let mut c = cursor + 1;
            match read_uint_le(buffer, &mut c, 8) {
                None => {
                    return false;
                },
                Some(expire_ms) => {
                    ttl = if expire_ms > now_ms {
                        Some(expire_ms - now_ms)
                    } else {
                        Some(0)
                    };
                    cursor = c;
                },
            }
        } else if b == 0xFE {
            let ghost c0 = cursor as nat;
            let mut c = cursor + 1;
            let size = decode_size(buffer, &mut c);
            proof {
                lemma_decode_size_advances(buffer@, c0 + 1);
            }
            if size.is_none() {
                return false;
            }
            cursor = c;
        } else if b == 0xFB {
            let ghost c0 = cursor as nat;
            let mut c = cursor + 1;
            let first = decode_size(buffer, &mut c);
            proof {
                lemma_decode_size_advances(buffer@, c0 + 1);
            }
            if first.is_none() {
                return false;
            }
            let ghost c2 = c as nat;
            let second = decode_size(buffer, &mut c);
            proof {
                lemma_decode_size_advances(buffer@, c2);
            }
            if second.is_none() {
                return false;
            }
            cursor = c;
        } else if b <= 3 {
            let ghost c0 = cursor as nat;
            let mut c = cursor + 1;
            let key = match read_string(buffer, &mut c) {
                Some(k) => k,
                None => {
                    return false;
                },
            };
            proof {
                lemma_read_string_advances(buffer@, c0 + 1);
            }
            let ghost c2 = c as nat;
            let value = match read_string(buffer, &mut c) {
                Some(v) => v,
                None => {
                    return false;
                },
            };
            proof {
                lemma_read_string_advances(buffer@, c2);
            }
            let record = RedisValue::new(RedisValueType::StringValue(value), ttl, now_ms);
            proof {
                crate::stream_commands::lemma_streams_ok_insert(
                    db.data_map(),
                    key@,
                    record@,
                );
            }
            db.insert(key, record);
            ttl = None;
            cursor = c;
        } else {
            return false;
        }
    }
    true
}

} // verus!
