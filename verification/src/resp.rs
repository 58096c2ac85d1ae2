//! Serialization of protocol replies, and decimal numerals.
//!
//! Every reply the server sends is one of five shapes: simple string,
//! error, integer, bulk string (or the null bulk), or array. Each shape
//! has a spec-level description of its exact byte sequence and an
//! executable builder proved to produce exactly those bytes.

use vstd::prelude::*;

verus! {

/// Carriage return.
pub const CR: u8 = 13;
/// Line feed.
pub const LF: u8 = 10;
/// `+`, the sigil of a simple string reply.
pub const SIGIL_SIMPLE: u8 = 43;
/// `-`, the sigil of an error reply.
pub const SIGIL_ERROR: u8 = 45;
/// `:`, the sigil of an integer reply.
pub const SIGIL_INT: u8 = 58;
/// `$`, the sigil of a bulk string.
pub const SIGIL_BULK: u8 = 36;
/// `*`, the sigil of an array.
pub const SIGIL_ARRAY: u8 = 42;

/// The two-byte line terminator used by the wire protocol.
pub open spec fn crlf() -> Seq<u8> {
    seq![CR, LF]
}

/// Whether `b` is an ASCII decimal digit.
pub open spec fn is_digit(b: u8) -> bool {
    48 <= b <= 57
}

/// Whether every byte of `s` is an ASCII decimal digit.
pub open spec fn all_digits(s: Seq<u8>) -> bool {
    forall|i: int| 0 <= i < s.len() ==> is_digit(#[trigger] s[i])
}

/// The numeric value of a sequence of ASCII decimal digits,
/// most significant first. The empty sequence has value 0.
pub open spec fn dec_val(s: Seq<u8>) -> nat
    decreases s.len(),
{
    if s.len() == 0 {
        0
    } else {
        dec_val(s.drop_last()) * 10 + (s.last() - 48) as nat
    }
}

/// The shortest decimal numeral for `n`, most significant digit first.
pub open spec fn dec_digits(n: nat) -> Seq<u8>
    decreases n,
{
    if n < 10 {
        seq![(48 + n) as u8]
    } else {
        dec_digits(n / 10).push((48 + n % 10) as u8)
    }
}

/// The bytes of an ASCII string, one byte per character.
pub open spec fn ascii_bytes(s: Seq<char>) -> Seq<u8> {
    Seq::new(s.len(), |i: int| s[i] as u8)
}

/// A simple string reply: `+<msg>\r\n`.
pub open spec fn resp_simple(msg: Seq<u8>) -> Seq<u8> {
    seq![SIGIL_SIMPLE] + msg + crlf()
}

/// An error reply: `-<msg>\r\n`.
pub open spec fn resp_error(msg: Seq<u8>) -> Seq<u8> {
    seq![SIGIL_ERROR] + msg + crlf()
}

/// An integer reply: `:<n>\r\n`.
pub open spec fn resp_int(n: nat) -> Seq<u8> {
    seq![SIGIL_INT] + dec_digits(n) + crlf()
}

/// A bulk string reply: `$<len>\r\n<payload>\r\n`.
pub open spec fn resp_bulk(payload: Seq<u8>) -> Seq<u8> {
    seq![SIGIL_BULK] + dec_digits(payload.len()) + crlf() + payload + crlf()
}

/// The null bulk reply: `$-1\r\n`.
pub open spec fn null_bulk() -> Seq<u8> {
    seq![SIGIL_BULK, SIGIL_ERROR, 49u8] + crlf()
}

/// The header of an array reply of `n` elements: `*<n>\r\n`.
pub open spec fn array_header(n: nat) -> Seq<u8> {
    seq![SIGIL_ARRAY] + dec_digits(n) + crlf()
}

/// The concatenation of the bulk encodings of `items`.
pub open spec fn encode_items(items: Seq<Seq<u8>>) -> Seq<u8>
    decreases items.len(),
{
    if items.len() == 0 {
        Seq::empty()
    } else {
        resp_bulk(items[0]) + encode_items(items.skip(1))
    }
}

/// A full command frame: an array of bulk strings.
pub open spec fn encode_frame(items: Seq<Seq<u8>>) -> Seq<u8> {
    array_header(items.len()) + encode_items(items)
}

/// The views of a sequence of byte vectors.
pub open spec fn views_of(items: Seq<Vec<u8>>) -> Seq<Seq<u8>> {
    items.map_values(|v: Vec<u8>| v@)
}

/// Appending one item on the right extends the encoding on the right.
pub proof fn lemma_encode_items_push(items: Seq<Seq<u8>>, item: Seq<u8>)
    ensures
        encode_items(items.push(item)) == encode_items(items) + resp_bulk(item),
    decreases items.len(),
{
    if items.len() == 0 {
        let p = items.push(item);
        assert(p.skip(1) =~= Seq::<Seq<u8>>::empty());
        assert(encode_items(p) == resp_bulk(item) + encode_items(p.skip(1)));
        assert(encode_items(p) =~= encode_items(items) + resp_bulk(item));
    } else {
        assert(items.push(item).skip(1) =~= items.skip(1).push(item));
        lemma_encode_items_push(items.skip(1), item);
        assert(encode_items(items.push(item)) =~= encode_items(items) + resp_bulk(item));
    }
}

/// Appends the decimal numeral of `n` to `out`.
pub fn push_dec_u64(n: u64, out: &mut Vec<u8>)
    ensures
        final(out)@ == old(out)@ + dec_digits(n as nat),
    decreases n,
{
    if n < 10 {
        out.push(48 + n as u8);
        assert(out@ =~= old(out)@ + dec_digits(n as nat));
    } else {
        push_dec_u64(n / 10, out);
        out.push(48 + (n % 10) as u8);
        assert(out@ =~= old(out)@ + dec_digits(n as nat));
    }
}

/// The decimal numeral of `n` as bytes.
pub fn format_u64(n: u64) -> (r: Vec<u8>)
    ensures
        r@ == dec_digits(n as nat),
{
    let mut out: Vec<u8> = Vec::new();
    push_dec_u64(n, &mut out);
    assert(out@ =~= dec_digits(n as nat));
    out
}

/// The bytes of an ASCII string slice.
pub fn str_bytes(s: &str) -> (r: Vec<u8>)
    requires
        s.is_ascii(),
    ensures
        r@ == ascii_bytes(s@),
{
    proof {
        broadcast use vstd::string::is_ascii_spec_bytes;

    }
    let b = s.as_bytes();
    assert(b@ =~= ascii_bytes(s@));
    vstd::slice::slice_to_vec(b)
}

/// Appends the two terminator bytes to `out`.
pub fn push_crlf(out: &mut Vec<u8>)
    ensures
        final(out)@ == old(out)@ + crlf(),
{
    out.push(CR);
    out.push(LF);
    assert(out@ =~= old(out)@ + crlf());
}

/// Appends a simple string reply to `out`.
pub fn push_simple(msg: &str, out: &mut Vec<u8>)
    requires
        msg.is_ascii(),
    ensures
        final(out)@ == old(out)@ + resp_simple(ascii_bytes(msg@)),
{
    out.push(SIGIL_SIMPLE);
    let b = str_bytes(msg);
    out.extend_from_slice(b.as_slice());
    push_crlf(out);
    assert(out@ =~= old(out)@ + resp_simple(ascii_bytes(msg@)));
}

/// Appends an error reply to `out`.
pub fn push_error(msg: &str, out: &mut Vec<u8>)
    requires
        msg.is_ascii(),
    ensures
        final(out)@ == old(out)@ + resp_error(ascii_bytes(msg@)),
{
    out.push(SIGIL_ERROR);
    let b = str_bytes(msg);
    out.extend_from_slice(b.as_slice());
    push_crlf(out);
    assert(out@ =~= old(out)@ + resp_error(ascii_bytes(msg@)));
}

/// Appends an integer reply to `out`.
pub fn push_int(n: u64, out: &mut Vec<u8>)
    ensures
        final(out)@ == old(out)@ + resp_int(n as nat),
{
    out.push(SIGIL_INT);
    push_dec_u64(n, out);
    push_crlf(out);
    assert(out@ =~= old(out)@ + resp_int(n as nat));
}

/// Appends a bulk string reply carrying `payload` to `out`.
pub fn push_bulk(payload: &[u8], out: &mut Vec<u8>)
    ensures
        final(out)@ == old(out)@ + resp_bulk(payload@),
{
    out.push(SIGIL_BULK);
    push_dec_u64(payload.len() as u64, out);
    push_crlf(out);
    out.extend_from_slice(payload);
    push_crlf(out);
    assert(out@ =~= old(out)@ + resp_bulk(payload@));
}

/// Appends the null bulk reply to `out`.
pub fn push_null_bulk(out: &mut Vec<u8>)
    ensures
        final(out)@ == old(out)@ + null_bulk(),
{
    out.push(SIGIL_BULK);
    out.push(SIGIL_ERROR);
    out.push(49);
    push_crlf(out);
    assert(out@ =~= old(out)@ + null_bulk());
}

/// Appends an array header for `n` elements to `out`.
pub fn push_array_header(n: u64, out: &mut Vec<u8>)
    ensures
        final(out)@ == old(out)@ + array_header(n as nat),
{
    out.push(SIGIL_ARRAY);
    push_dec_u64(n, out);
    push_crlf(out);
    assert(out@ =~= old(out)@ + array_header(n as nat));
}

/// A simple string reply by itself.
pub fn simple_reply(msg: &str) -> (r: Vec<u8>)
    requires
        msg.is_ascii(),
    ensures
        r@ == resp_simple(ascii_bytes(msg@)),
{
    let mut out: Vec<u8> = Vec::new();
    push_simple(msg, &mut out);
    assert(out@ =~= resp_simple(ascii_bytes(msg@)));
    out
}

/// An error reply by itself.
pub fn error_reply(msg: &str) -> (r: Vec<u8>)
    requires
        msg.is_ascii(),
    ensures
        r@ == resp_error(ascii_bytes(msg@)),
{
    let mut out: Vec<u8> = Vec::new();
    push_error(msg, &mut out);
    assert(out@ =~= resp_error(ascii_bytes(msg@)));
    out
}

/// A bulk string reply by itself.
pub fn bulk_reply(payload: &[u8]) -> (r: Vec<u8>)
    ensures
        r@ == resp_bulk(payload@),
{
    let mut out: Vec<u8> = Vec::new();
    push_bulk(payload, &mut out);
    assert(out@ =~= resp_bulk(payload@));
    out
}

/// The null bulk reply by itself.
pub fn null_bulk_reply() -> (r: Vec<u8>)
    ensures
        r@ == null_bulk(),
{
    let mut out: Vec<u8> = Vec::new();
    push_null_bulk(&mut out);
    assert(out@ =~= null_bulk());
    out
}

/// Encodes a command frame: an array of bulk strings.
pub fn encode_command(items: &Vec<Vec<u8>>) -> (r: Vec<u8>)
    ensures
        r@ == encode_frame(views_of(items@)),
{
    let mut out: Vec<u8> = Vec::new();
    push_array_header(items.len() as u64, &mut out);
    let mut i: usize = 0;
    while i < items.len()
        invariant
            i <= items.len(),
            out@ == array_header(views_of(items@).len()) + encode_items(
                views_of(items@.take(i as int)),
            ),
        decreases items.len() - i,
    {
        push_bulk(items[i].as_slice(), &mut out);
        proof {
            assert(views_of(items@.take(i + 1 as int)) =~= views_of(items@.take(i as int)).push(
                items@[i as int]@,
            ));
            lemma_encode_items_push(views_of(items@.take(i as int)), items@[i as int]@);
        }
        i = i + 1;
    }
    proof {
        assert(items@.take(items@.len() as int) =~= items@);
    }
    out
}

/// Parses an unsigned 64-bit decimal numeral. Returns the value exactly
/// when the input is a nonempty, all-digit sequence whose value fits.
pub fn parse_u64(s: &[u8]) -> (r: Option<u64>)
    ensures
        ({
            let ok = s@.len() > 0 && all_digits(s@) && dec_val(s@) <= u64::MAX;
            match r {
                Some(v) => ok && v as nat == dec_val(s@),
                None => !ok,
            }
        }),
{
    if s.len() == 0 {
        return None;
    }
    let mut v: u64 = 0;
    let mut i: usize = 0;
    while i < s.len()
        invariant
            0 < s@.len(),
            i <= s@.len(),
            all_digits(s@.take(i as int)),
            v as nat == dec_val(s@.take(i as int)),
        decreases s@.len() - i,
    {
        let b = s[i];
        if b < 48 || b > 57 {
            assert(!all_digits(s@));
            return None;
        }
        let d = (b - 48) as u64;
        proof {
            assert(s@.take(i + 1 as int).drop_last() =~= s@.take(i as int));
            assert(s@.take(i + 1 as int).last() == s@[i as int]);
        }
        let v10 = match v.checked_mul(10) {
            Some(x) => x,
            None => {
                proof {
                    lemma_dec_val_take_bound(s@, i + 1 as int);
                }
                return None;
            },
        };
        v = match v10.checked_add(d) {
            Some(x) => x,
            None => {
                proof {
                    lemma_dec_val_take_bound(s@, i + 1 as int);
                }
                return None;
            },
        };
        i = i + 1;
    }
    proof {
        assert(s@.take(s@.len() as int) =~= s@);
    }
    Some(v)
}

/// If some prefix of `s` already has a value beyond `u64::MAX`, then
/// either `s` holds a non-digit or its own value is beyond `u64::MAX`.
proof fn lemma_dec_val_take_bound(s: Seq<u8>, j: int)
    requires
        0 <= j <= s.len(),
        dec_val(s.take(j)) > u64::MAX,
    ensures
        !all_digits(s) || dec_val(s) > u64::MAX,
    decreases s.len() - j,
{
    if j == s.len() {
        assert(s.take(j) =~= s);
    } else {
        if all_digits(s) {
            assert(s.take(j + 1).drop_last() =~= s.take(j));
            assert(is_digit(s[j]));
            assert(dec_val(s.take(j + 1)) == dec_val(s.take(j)) * 10 + (s[j] - 48) as nat);
            assert(dec_val(s.take(j)) * 10 >= dec_val(s.take(j))) by (nonlinear_arith)
                requires
                    dec_val(s.take(j)) >= 0,
            ;
            lemma_dec_val_take_bound(s, j + 1);
        }
    }
}

/// Parses a decimal numeral that must fit in `usize`.
pub fn parse_usize(s: &[u8]) -> (r: Option<usize>)
    ensures
        ({
            let ok = s@.len() > 0 && all_digits(s@) && dec_val(s@) <= usize::MAX;
            match r {
                Some(v) => ok && v as nat == dec_val(s@),
                None => !ok,
            }
        }),
{
    match parse_u64(s) {
        Some(v) => {
            if v <= usize::MAX as u64 {
                Some(v as usize)
            } else {
                None
            }
        },
        None => None,
    }
}

} // verus!
