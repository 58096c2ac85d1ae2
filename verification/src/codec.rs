//! The wire decoder: framing inbound bytes into arrays of bulk strings.
//!
//! The decoder is specified twice. A spec-level parser (`parse_frame` and
//! its helpers) defines, over mathematical sequences, what a complete,
//! truncated, or invalid frame prefix is. The executable decoder is proved
//! to return exactly what the spec parser says. A round-trip lemma shows
//! that decoding an encoded frame yields the original items and consumes
//! exactly the frame's bytes, whatever follows them.

use vstd::prelude::*;

use crate::resp::CR;
use crate::resp::LF;
use crate::resp::SIGIL_ARRAY;
use crate::resp::SIGIL_BULK;
use crate::resp::all_digits;
use crate::resp::crlf;
use crate::resp::dec_val;
use crate::resp::dec_digits;
use crate::resp::encode_frame;
use crate::resp::encode_items;
use crate::resp::is_digit;
use crate::resp::resp_bulk;
use crate::resp::views_of;
use crate::resp::parse_usize;

verus! {

/// The index of the first `\r\n` pair in `s`, if any.
pub open spec fn spec_find_crlf(s: Seq<u8>) -> Option<int>
    decreases s.len(),
{
    if s.len() < 2 {
        None
    } else if s[0] == CR && s[1] == LF {
        Some(0int)
    } else {
        match spec_find_crlf(s.skip(1)) {
            Some(i) => Some(i + 1),
            None => None,
        }
    }
}

/// `spec_find_crlf` returns the first position of a `\r\n` pair.
pub proof fn lemma_find_crlf(s: Seq<u8>)
    ensures
        match spec_find_crlf(s) {
            Some(i) => 0 <= i && i + 2 <= s.len() && s[i] == CR && s[i + 1] == LF && (forall|
                j: int,
            |
                0 <= j < i ==> !(#[trigger] s[j] == CR && s[j + 1] == LF)),
            None => forall|j: int| 0 <= j && j + 2 <= s.len() ==> !(#[trigger] s[j] == CR && s[j + 1] == LF),
        },
    decreases s.len(),
{
    if s.len() < 2 {
    } else if s[0] == CR && s[1] == LF {
    } else {
        lemma_find_crlf(s.skip(1));
        let t = s.skip(1);
        assert(forall|k: int| 0 <= k < t.len() ==> t[k] == s[k + 1]);
        match spec_find_crlf(t) {
            Some(i) => {
                assert forall|j: int| 0 <= j < i + 1 implies !(#[trigger] s[j] == CR && s[j + 1] == LF) by {
                    if j > 0 {
                        assert(t[j - 1] == s[j]);
                        assert(t[j] == s[j + 1]);
                    }
                }
            },
            None => {
                assert forall|j: int| 0 <= j && j + 2 <= s.len() implies !(#[trigger] s[j] == CR && s[j + 1]
                    == LF) by {
                    if j > 0 {
                        assert(t[j - 1] == s[j]);
                        assert(t[j] == s[j + 1]);
                    }
                }
            },
        }
    }
}

/// Finds the first `\r\n` pair in `bytes`.
pub fn find_crlf(bytes: &[u8]) -> (r: Option<usize>)
    ensures
        match r {
            Some(i) => spec_find_crlf(bytes@) == Some(i as int),
            None => spec_find_crlf(bytes@) == None::<int>,
        },
{
    if bytes.len() < 2 {
        proof {
            lemma_find_crlf(bytes@);
        }
        return None;
    }
    let mut i: usize = 0;
    while i < bytes.len() - 1
        invariant
            2 <= bytes@.len(),
            i <= bytes@.len(),
            forall|j: int| 0 <= j < i ==> !(#[trigger] bytes@[j] == CR && bytes@[j + 1] == LF),
        decreases bytes@.len() - i,
    {
        if bytes[i] == CR && bytes[i + 1] == LF {
            proof {
                lemma_find_crlf(bytes@);
                assert(spec_find_crlf(bytes@) == Some(i as int));
            }
            return Some(i);
        }
        i = i + 1;
    }
    proof {
        lemma_find_crlf(bytes@);
        assert(spec_find_crlf(bytes@) == None::<int>);
    }
    None
}

/// The index of the first occurrence of `b` in `s`, if any.
pub open spec fn spec_find_byte(s: Seq<u8>, b: u8) -> Option<int>
    decreases s.len(),
{
    if s.len() == 0 {
        None
    } else if s[0] == b {
        Some(0int)
    } else {
        match spec_find_byte(s.skip(1), b) {
            Some(i) => Some(i + 1),
            None => None,
        }
    }
}

/// `spec_find_byte` returns the first position of `b`.
pub proof fn lemma_find_byte(s: Seq<u8>, b: u8)
    ensures
        match spec_find_byte(s, b) {
            Some(i) => 0 <= i < s.len() && s[i] == b && (forall|j: int| 0 <= j < i ==> s[j] != b),
            None => forall|j: int| 0 <= j < s.len() ==> s[j] != b,
        },
    decreases s.len(),
{
    if s.len() == 0 {
    } else if s[0] == b {
    } else {
        lemma_find_byte(s.skip(1), b);
        let t = s.skip(1);
        assert(forall|k: int| 0 <= k < t.len() ==> t[k] == s[k + 1]);
        match spec_find_byte(t, b) {
            Some(i) => {
                assert forall|j: int| 0 <= j < i + 1 implies s[j] != b by {
                    if j > 0 {
                        assert(t[j - 1] == s[j]);
                    }
                }
            },
            None => {
                assert forall|j: int| 0 <= j < s.len() implies s[j] != b by {
                    if j > 0 {
                        assert(t[j - 1] == s[j]);
                    }
                }
            },
        }
    }
}

/// Finds the first occurrence of `b` in `bytes`.
pub fn find_byte(bytes: &[u8], b: u8) -> (r: Option<usize>)
    ensures
        match r {
            Some(i) => spec_find_byte(bytes@, b) == Some(i as int),
            None => spec_find_byte(bytes@, b) == None::<int>,
        },
{
    let mut i: usize = 0;
    while i < bytes.len()
        invariant
            i <= bytes@.len(),
            forall|j: int| 0 <= j < i ==> bytes@[j] != b,
        decreases bytes@.len() - i,
    {
        if bytes[i] == b {
            proof {
                lemma_find_byte(bytes@, b);
                assert(spec_find_byte(bytes@, b) == Some(i as int));
            }
            return Some(i);
        }
        i = i + 1;
    }
    proof {
        lemma_find_byte(bytes@, b);
    }
    None
}

/// Result of reading one `<digits>\r\n` line: the value and the bytes
/// used, or a truncated or invalid prefix.
pub enum LineParse {
    Done(nat, nat),
    Incomplete,
    Invalid,
}

/// Reads a decimal length line `<digits>\r\n` from the front of `s`.
/// Truncation (no terminator yet) is `Incomplete`; anything else that is
/// not a plain numeral that fits in `usize` is `Invalid`.
pub open spec fn parse_line(s: Seq<u8>) -> LineParse {
    match spec_find_crlf(s) {
        None => LineParse::Incomplete,
        Some(i) => {
            let digits = s.take(i);
            if digits.len() > 0 && all_digits(digits) && dec_val(digits) <= usize::MAX {
                LineParse::Done(dec_val(digits), (i + 2) as nat)
            } else {
                LineParse::Invalid
            }
        },
    }
}

/// A successfully read line uses between 3 bytes and all of `s`.
pub proof fn lemma_parse_line_bounds(s: Seq<u8>)
    ensures
        match parse_line(s) {
            LineParse::Done(v, used) => 3 <= used <= s.len(),
            _ => true,
        },
{
    lemma_find_crlf(s);
}

/// Executable counterpart of a `LineParse` value.
pub enum LineOut {
    Done(usize, usize),
    Incomplete,
    Invalid,
}

/// Reads a decimal length line from the front of `s`.
pub fn read_line(s: &[u8]) -> (r: LineOut)
    ensures
        match r {
            LineOut::Done(v, used) => parse_line(s@) == LineParse::Done(v as nat, used as nat),
            LineOut::Incomplete => parse_line(s@) == LineParse::Incomplete,
            LineOut::Invalid => parse_line(s@) == LineParse::Invalid,
        },
{
    match find_crlf(s) {
        None => LineOut::Incomplete,
        Some(i) => {
            proof {
                broadcast use vstd::slice::group_slice_axioms;

                lemma_find_crlf(s@);
                assert(vstd::slice::spec_slice_len(s) == s@.len());
                assert(i + 2 <= s@.len());
            }
            let digits = &s[0..i];
            proof {
                assert(digits@ =~= s@.take(i as int));
            }
            match parse_usize(digits) {
                Some(v) => LineOut::Done(v, i + 2),
                None => LineOut::Invalid,
            }
        },
    }
}

/// Result of reading one bulk string `$<len>\r\n<payload>\r\n`:
/// the payload and the bytes used.
pub enum BulkParse {
    Done(Seq<u8>, nat),
    Incomplete,
    Invalid,
}

/// Reads one bulk string from the front of `s`.
pub open spec fn parse_bulk(s: Seq<u8>) -> BulkParse {
    if s.len() == 0 {
        BulkParse::Incomplete
    } else if s[0] != SIGIL_BULK {
        BulkParse::Invalid
    } else {
        match parse_line(s.skip(1)) {
            LineParse::Incomplete => BulkParse::Incomplete,
            LineParse::Invalid => BulkParse::Invalid,
            LineParse::Done(len, used) => {
                let start = 1 + used;
                let total = start + len + 2;
                if s.len() < total {
                    BulkParse::Incomplete
                } else if s[(start + len) as int] == CR && s[(start + len + 1) as int] == LF {
                    BulkParse::Done(s.subrange(start as int, (start + len) as int), total)
                } else {
                    BulkParse::Invalid
                }
            },
        }
    }
}

/// A successfully read bulk string uses between 6 bytes and all of `s`.
pub proof fn lemma_parse_bulk_bounds(s: Seq<u8>)
    ensures
        match parse_bulk(s) {
            BulkParse::Done(item, used) => 6 <= used <= s.len(),
            _ => true,
        },
{
    if s.len() > 0 && s[0] == SIGIL_BULK {
        lemma_parse_line_bounds(s.skip(1));
    }
}

/// Executable counterpart of a `BulkParse` value.
pub enum BulkOut {
    Done(Vec<u8>, usize),
    Incomplete,
    Invalid,
}

/// Reads one bulk string from the front of `s`.
pub fn read_bulk(s: &[u8]) -> (r: BulkOut)
    ensures
        match r {
            BulkOut::Done(item, used) => parse_bulk(s@) == BulkParse::Done(item@, used as nat),
            BulkOut::Incomplete => parse_bulk(s@) == BulkParse::Incomplete,
            BulkOut::Invalid => parse_bulk(s@) == BulkParse::Invalid,
        },
{
    if s.len() == 0 {
        return BulkOut::Incomplete;
    }
    if s[0] != SIGIL_BULK {
        return BulkOut::Invalid;
    }
    let rest = &s[1..s.len()];
    proof {
        assert(rest@ =~= s@.skip(1));
    }
    match read_line(rest) {
        LineOut::Incomplete => BulkOut::Incomplete,
        LineOut::Invalid => BulkOut::Invalid,
        LineOut::Done(len, used) => {
            proof {
                lemma_parse_line_bounds(s@.skip(1));
            }
            let start = 1 + used;
            let end = match start.checked_add(len) {
                Some(e) => e,
                None => {
                    return BulkOut::Incomplete;
                },
            };
            let total = match end.checked_add(2) {
                Some(t) => t,
                None => {
                    return BulkOut::Incomplete;
                },
            };
            if s.len() < total {
                return BulkOut::Incomplete;
            }
            if s[end] == CR && s[end + 1] == LF {
                let payload = vstd::slice::slice_to_vec(&s[start..end]);
                BulkOut::Done(payload, total)
            } else {
                BulkOut::Invalid
            }
        },
    }
}

/// Result of reading a whole frame: the frame's items and bytes used.
pub enum FrameParse {
    Complete(Seq<Seq<u8>>, nat),
    Incomplete,
    Invalid,
}

/// Reads `n` bulk strings from the front of `s`.
pub open spec fn parse_items(s: Seq<u8>, n: nat) -> FrameParse
    decreases n,
{
    if n == 0 {
        FrameParse::Complete(Seq::empty(), 0)
    } else {
        match parse_bulk(s) {
            BulkParse::Incomplete => FrameParse::Incomplete,
            BulkParse::Invalid => FrameParse::Invalid,
            BulkParse::Done(item, used) => match parse_items(s.skip(used as int), (n - 1) as nat) {
                FrameParse::Complete(items, used2) => FrameParse::Complete(
                    seq![item] + items,
                    used + used2,
                ),
                FrameParse::Incomplete => FrameParse::Incomplete,
                FrameParse::Invalid => FrameParse::Invalid,
            },
        }
    }
}

/// Reads one complete frame `*<n>\r\n` followed by `n` bulk strings
/// from the front of `s`.
pub open spec fn parse_frame(s: Seq<u8>) -> FrameParse {
    if s.len() == 0 {
        FrameParse::Incomplete
    } else if s[0] != SIGIL_ARRAY {
        FrameParse::Invalid
    } else {
        match parse_line(s.skip(1)) {
            LineParse::Incomplete => FrameParse::Incomplete,
            LineParse::Invalid => FrameParse::Invalid,
            LineParse::Done(n, used) => match parse_items(s.skip((1 + used) as int), n) {
                FrameParse::Complete(items, used2) => FrameParse::Complete(
                    items,
                    1 + used + used2,
                ),
                FrameParse::Incomplete => FrameParse::Incomplete,
                FrameParse::Invalid => FrameParse::Invalid,
            },
        }
    }
}

/// Executable result of decoding one frame.
pub enum Decoded {
    Frame(Vec<Vec<u8>>, usize),
    Incomplete,
    Invalid,
}

/// Decodes one frame from the front of `buf`. A truncated prefix consumes
/// nothing; only a syntactically invalid prefix is an error.
pub fn decode_frame(buf: &[u8]) -> (r: Decoded)
    ensures
        match r {
            Decoded::Frame(items, used) => parse_frame(buf@) == FrameParse::Complete(
                views_of(items@),
                used as nat,
            ) && 0 < used <= buf@.len(),
            Decoded::Incomplete => parse_frame(buf@) == FrameParse::Incomplete,
            Decoded::Invalid => parse_frame(buf@) == FrameParse::Invalid,
        },
{
    if buf.len() == 0 {
        return Decoded::Incomplete;
    }
    if buf[0] != SIGIL_ARRAY {
        return Decoded::Invalid;
    }
    let rest = &buf[1..buf.len()];
    proof {
        assert(rest@ =~= buf@.skip(1));
    }
    let (n, header_used) = match read_line(rest) {
        LineOut::Incomplete => {
            return Decoded::Incomplete;
        },
        LineOut::Invalid => {
            return Decoded::Invalid;
        },
        LineOut::Done(n, used) => (n, used),
    };
    proof {
        lemma_parse_line_bounds(buf@.skip(1));
    }
    let mut cursor: usize = 1 + header_used;
    let mut items: Vec<Vec<u8>> = Vec::new();
    let mut k: usize = 0;
    proof {
        assert(views_of(items@) =~= Seq::<Seq<u8>>::empty());
    }
    while k < n
        invariant
            k <= n,
            cursor <= buf@.len(),
            0 < cursor,
            items@.len() == k,
            parse_frame(buf@) == (match parse_items(buf@.skip(cursor as int), (n - k) as nat) {
                FrameParse::Complete(rest_items, rest_used) => FrameParse::Complete(
                    views_of(items@) + rest_items,
                    (cursor + rest_used) as nat,
                ),
                FrameParse::Incomplete => FrameParse::Incomplete,
                FrameParse::Invalid => FrameParse::Invalid,
            }),
        decreases n - k,
    {
        let tail = &buf[cursor..buf.len()];
        proof {
            assert(tail@ =~= buf@.skip(cursor as int));
        }
        match read_bulk(tail) {
            BulkOut::Done(item, used) => {
                proof {
                    let s_cur = buf@.skip(cursor as int);
                    let n_rem = (n - k) as nat;
                    lemma_parse_bulk_bounds(s_cur);
                    assert(s_cur.skip(used as int) =~= buf@.skip((cursor + used) as int));
                    assert(views_of(items@.push(item)) =~= views_of(items@).push(item@));
                    match parse_items(s_cur.skip(used as int), (n_rem - 1) as nat) {
                        FrameParse::Complete(rest_items, rest_used) => {
                            assert(views_of(items@) + (seq![item@] + rest_items) =~= views_of(
                                items@.push(item),
                            ) + rest_items);
                        },
                        _ => {},
                    }
                }
                items.push(item);
                cursor = cursor + used;
                k = k + 1;
            },
            BulkOut::Incomplete => {
                return Decoded::Incomplete;
            },
            BulkOut::Invalid => {
                return Decoded::Invalid;
            },
        }
    }
    proof {
        assert(views_of(items@) + Seq::<Seq<u8>>::empty() =~= views_of(items@));
    }
    Decoded::Frame(items, cursor)
}

/// The byte length of the complete frame at the front of `message`,
/// if one is there.
pub fn get_end_of_redis_message(message: &[u8]) -> (r: Option<usize>)
    ensures
        match r {
            Some(used) => parse_frame(message@) matches FrameParse::Complete(items, u) && u == used
                as nat,
            None => !(parse_frame(message@) matches FrameParse::Complete(..)),
        },
{
    match decode_frame(message) {
        Decoded::Frame(_, used) => Some(used),
        Decoded::Incomplete => None,
        Decoded::Invalid => None,
    }
}

/// ASCII uppercase of one byte.
pub open spec fn upper(b: u8) -> u8 {
    if 97 <= b <= 122 {
        (b - 32) as u8
    } else {
        b
    }
}

/// ASCII uppercase of a byte string.
pub open spec fn upper_bytes(s: Seq<u8>) -> Seq<u8> {
    s.map_values(|b: u8| upper(b))
}

/// Uppercases a byte string; the first element of a frame is uppercased
/// to yield the verb.
pub fn uppercase(s: &[u8]) -> (r: Vec<u8>)
    ensures
        r@ == upper_bytes(s@),
{
    let mut out: Vec<u8> = Vec::new();
    let mut i: usize = 0;
    while i < s.len()
        invariant
            i <= s@.len(),
            out@.len() == i,
            out@ =~= upper_bytes(s@.take(i as int)),
        decreases s@.len() - i,
    {
        let b = s[i];
        if 97 <= b && b <= 122 {
            out.push(b - 32);
        } else {
            out.push(b);
        }
        proof {
            assert(out@ =~= upper_bytes(s@.take(i + 1 as int)));
        }
        i = i + 1;
    }
    proof {
        assert(s@.take(s@.len() as int) =~= s@);
    }
    out
}

/// Every byte of a decimal numeral is a digit.
pub proof fn lemma_dec_digits_all_digits(n: nat)
    ensures
        all_digits(dec_digits(n)),
        dec_digits(n).len() > 0,
    decreases n,
{
    if n < 10 {
    } else {
        lemma_dec_digits_all_digits(n / 10);
        let d = dec_digits(n / 10);
        let p = dec_digits(n);
        assert(p == d.push((48 + n % 10) as u8));
        assert forall|i: int| 0 <= i < p.len() implies is_digit(p[i]) by {
            if i < d.len() {
                assert(p[i] == d[i]);
            }
        }
    }
}

/// Reading back a decimal numeral yields the number it was made from.
pub proof fn lemma_dec_digits_val(n: nat)
    ensures
        dec_val(dec_digits(n)) == n,
    decreases n,
{
    if n < 10 {
        let p = dec_digits(n);
        assert(p == seq![(48 + n) as u8]);
        assert(p.drop_last() =~= Seq::<u8>::empty());
        assert(dec_val(p.drop_last()) == 0);
        assert(dec_val(p) == n);
    } else {
        lemma_dec_digits_val(n / 10);
        let d = dec_digits(n / 10);
        let p = dec_digits(n);
        assert(p == d.push((48 + n % 10) as u8));
        assert(p.drop_last() =~= d);
        assert(p.last() == (48 + n % 10) as u8);
        assert((p.last() - 48) as nat == n % 10);
        assert(dec_val(p) == dec_val(p.drop_last()) * 10 + (p.last() - 48) as nat);
        assert(dec_val(p.drop_last()) == dec_val(d));
        assert(dec_val(d) == n / 10);
        vstd::arithmetic::div_mod::lemma_fundamental_div_mod(n as int, 10);
        assert(n == 10 * (n / 10) + n % 10);
        assert(dec_val(p) == n);
    }
}

/// In `digits ++ \r\n ++ rest`, with every byte of `digits` a digit, the
/// first line terminator stands right after the digits.
pub proof fn lemma_find_crlf_after_digits(p: Seq<u8>, rest: Seq<u8>)
    requires
        all_digits(p),
    ensures
        spec_find_crlf(p + crlf() + rest) == Some(p.len() as int),
{
    let s = p + crlf() + rest;
    lemma_find_crlf(s);
    assert(s[p.len() as int] == CR);
    assert(s[p.len() as int + 1] == LF);
    match spec_find_crlf(s) {
        Some(i) => {
            if i < p.len() {
                assert(is_digit(s[i]));
                assert(false);
            }
            if i > p.len() {
                assert(!(s[p.len() as int] == CR && s[p.len() as int + 1] == LF));
                assert(false);
            }
        },
        None => {
            assert(false);
        },
    }
}

/// Reading a length line off `dec_digits(n) ++ \r\n ++ rest` yields `n`.
pub proof fn lemma_parse_line_of_encoding(n: nat, rest: Seq<u8>)
    requires
        n <= usize::MAX,
    ensures
        parse_line(dec_digits(n) + crlf() + rest) == LineParse::Done(
            n,
            (dec_digits(n).len() + 2) as nat,
        ),
{
    let d = dec_digits(n);
    let s = d + crlf() + rest;
    lemma_dec_digits_all_digits(n);
    lemma_dec_digits_val(n);
    lemma_find_crlf_after_digits(d, rest);
    assert(s.take(d.len() as int) =~= d);
}

/// Reading a bulk string off its own encoding yields the payload and
/// uses exactly the encoding's bytes.
pub proof fn lemma_parse_bulk_of_encoding(item: Seq<u8>, rest: Seq<u8>)
    requires
        item.len() <= usize::MAX,
    ensures
        parse_bulk(resp_bulk(item) + rest) == BulkParse::Done(item, resp_bulk(item).len() as nat),
{
    let d = dec_digits(item.len());
    let enc = resp_bulk(item);
    let s = enc + rest;
    assert(s[0] == SIGIL_BULK);
    assert(s.skip(1) =~= d + crlf() + (item + crlf() + rest));
    lemma_parse_line_of_encoding(item.len(), item + crlf() + rest);
    let used = (d.len() + 2) as nat;
    let start = 1 + used;
    assert(s.subrange(start as int, (start + item.len()) as int) =~= item);
    assert(s[(start + item.len()) as int] == CR);
    assert(s[(start + item.len() + 1) as int] == LF);
    assert(s.len() >= start + item.len() + 2);
    assert(enc.len() == start + item.len() + 2);
}

/// Reading `items.len()` bulk strings off their concatenated encodings
/// yields the items and uses exactly the encodings' bytes.
pub proof fn lemma_parse_items_of_encoding(items: Seq<Seq<u8>>, rest: Seq<u8>)
    requires
        forall|i: int| 0 <= i < items.len() ==> (#[trigger] items[i]).len() <= usize::MAX,
    ensures
        parse_items(encode_items(items) + rest, items.len()) == FrameParse::Complete(
            items,
            encode_items(items).len() as nat,
        ),
    decreases items.len(),
{
    if items.len() == 0 {
        assert(parse_items(encode_items(items) + rest, 0) == FrameParse::Complete(
            Seq::<Seq<u8>>::empty(),
            0,
        ));
        assert(items =~= Seq::<Seq<u8>>::empty());
    } else {
        let first = items[0];
        let tail = items.skip(1);
        let enc0 = resp_bulk(first);
        let s = encode_items(items) + rest;
        assert(s =~= enc0 + (encode_items(tail) + rest));
        lemma_parse_bulk_of_encoding(first, encode_items(tail) + rest);
        assert(s.skip(enc0.len() as int) =~= encode_items(tail) + rest);
        lemma_parse_items_of_encoding(tail, rest);
        assert(seq![first] + tail =~= items);
    }
}

/// Round trip of the codec: decoding an encoded frame, whatever bytes
/// follow it, yields the original items and consumes exactly the frame.
pub proof fn lemma_parse_frame_of_encoding(items: Seq<Seq<u8>>, rest: Seq<u8>)
    requires
        items.len() <= usize::MAX,
        forall|i: int| 0 <= i < items.len() ==> (#[trigger] items[i]).len() <= usize::MAX,
    ensures
        parse_frame(encode_frame(items) + rest) == FrameParse::Complete(
            items,
            encode_frame(items).len() as nat,
        ),
{
    let d = dec_digits(items.len());
    let s = encode_frame(items) + rest;
    assert(s[0] == SIGIL_ARRAY);
    assert(s.skip(1) =~= d + crlf() + (encode_items(items) + rest));
    lemma_parse_line_of_encoding(items.len(), encode_items(items) + rest);
    let used = (d.len() + 2) as nat;
    assert(s.skip((1 + used) as int) =~= encode_items(items) + rest);
    lemma_parse_items_of_encoding(items, rest);
    assert(encode_frame(items).len() == 1 + used + encode_items(items).len());
}

} // verus!
