//! The ordered stream data type: an append-only log of entries keyed by
//! a composite identifier.
//!
//! A stream identifier is a pair `(milliseconds, sequence)` of unsigned
//! 64-bit integers ordered lexicographically. A stream keeps its entries
//! strictly increasing by identifier; every operation here preserves that
//! invariant, and the range and tail queries are specified as selections
//! over the entry sequence.

use vstd::prelude::*;

use crate::resp::all_digits;
use crate::resp::dec_digits;
use crate::resp::dec_val;
use crate::resp::format_u64;
use crate::resp::push_dec_u64;
use crate::codec::spec_find_byte;
use crate::codec::find_byte;
use crate::codec::lemma_find_byte;

verus! {

/// `-`, the separator inside a textual stream identifier.
pub const DASH: u8 = 45;

/// A composite stream entry identifier.
#[derive(Clone, Copy, PartialEq, Eq, Structural, Debug)]
pub struct StreamID {
    pub milliseconds_time: u64,
    pub sequence_number: u64,
}

/// Strict lexicographic order on identifiers: milliseconds first,
/// then sequence number.
pub open spec fn id_lt(a: StreamID, b: StreamID) -> bool {
    a.milliseconds_time < b.milliseconds_time || (a.milliseconds_time == b.milliseconds_time
        && a.sequence_number < b.sequence_number)
}

/// Non-strict lexicographic order on identifiers.
pub open spec fn id_le(a: StreamID, b: StreamID) -> bool {
    id_lt(a, b) || a == b
}

/// The textual form of an identifier: `<ms>-<seq>`.
pub open spec fn id_bytes(id: StreamID) -> Seq<u8> {
    dec_digits(id.milliseconds_time as nat) + seq![DASH] + dec_digits(
        id.sequence_number as nat,
    )
}

/// Whether a byte sequence is a decimal numeral that fits in `u64`.
pub open spec fn parse_u64_ok(s: Seq<u8>) -> bool {
    s.len() > 0 && all_digits(s) && dec_val(s) <= u64::MAX
}

/// Reads `<ms>-<seq>` with exactly one dash and both parts plain
/// `u64` numerals; anything else is rejected.
pub open spec fn spec_parse_stream_id(s: Seq<u8>) -> Option<StreamID> {
    match spec_find_byte(s, DASH) {
        None => None,
        Some(i) => {
            let ms_part = s.take(i);
            let seq_part = s.skip(i + 1);
            if spec_find_byte(seq_part, DASH) is Some {
                None
            } else if parse_u64_ok(ms_part) && parse_u64_ok(seq_part) {
                Some(
                    StreamID {
                        milliseconds_time: dec_val(ms_part) as u64,
                        sequence_number: dec_val(seq_part) as u64,
                    },
                )
            } else {
                None
            }
        },
    }
}

/// One stream entry: an identifier and the field pairs inserted with it.
pub struct StreamEntry {
    pub id: StreamID,
    pub fields: Vec<(Vec<u8>, Vec<u8>)>,
}

/// The mathematical value of one entry.
pub struct EntryView {
    pub id: StreamID,
    pub fields: Seq<(Seq<u8>, Seq<u8>)>,
}

/// The mathematical values of a sequence of field pairs.
pub open spec fn fields_view(fs: Seq<(Vec<u8>, Vec<u8>)>) -> Seq<(Seq<u8>, Seq<u8>)> {
    fs.map_values(|p: (Vec<u8>, Vec<u8>)| (p.0@, p.1@))
}

impl View for StreamEntry {
    type V = EntryView;

    open spec fn view(&self) -> EntryView {
        EntryView { id: self.id, fields: fields_view(self.fields@) }
    }
}

/// Copies a vector of field pairs, preserving its value.
pub fn copy_fields(fs: &Vec<(Vec<u8>, Vec<u8>)>) -> (r: Vec<(Vec<u8>, Vec<u8>)>)
    ensures
        fields_view(r@) == fields_view(fs@),
{
    let mut out: Vec<(Vec<u8>, Vec<u8>)> = Vec::new();
    let mut i: usize = 0;
    while i < fs.len()
        invariant
            i <= fs@.len(),
            out@.len() == i,
            fields_view(out@) =~= fields_view(fs@.take(i as int)),
        decreases fs@.len() - i,
    {
        let pair = &fs[i];
        let name = vstd::slice::slice_to_vec(pair.0.as_slice());
        let value = vstd::slice::slice_to_vec(pair.1.as_slice());
        proof {
            assert(name@ == fs@[i as int].0@);
            assert(value@ == fs@[i as int].1@);
        }
        out.push((name, value));
        proof {
            let prev = fs@.take(i as int);
            let cur = fs@.take(i + 1 as int);
            assert(cur.last() == fs@[i as int]);
            assert(out@.len() == i + 1);
            assert(fields_view(out@).len() == out@.len());
            assert(cur.len() == i + 1);
            assert(fields_view(cur).len() == cur.len());
            assert(fields_view(out@).len() == fields_view(cur).len());
            assert forall|k: int| 0 <= k < cur.len() implies fields_view(out@)[k] == fields_view(
                cur,
            )[k] by {
                if k < i {
                    assert(fields_view(out@)[k] == fields_view(prev)[k]);
                    assert(cur[k] == prev[k]);
                } else {
                    assert(out@[k] == (name, value));
                }
            }
            assert(fields_view(out@) =~= fields_view(cur));
        }
        i = i + 1;
    }
    proof {
        assert(fs@.take(fs@.len() as int) =~= fs@);
        assert(fields_view(out@) =~= fields_view(fs@));
    }
    out
}

/// Copies one entry, preserving its value.
pub fn copy_entry(e: &StreamEntry) -> (r: StreamEntry)
    ensures
        r@ == e@,
{
    StreamEntry { id: e.id, fields: copy_fields(&e.fields) }
}

/// An ordered log of entries with strictly increasing identifiers.
pub struct Stream {
    pub entries: Vec<StreamEntry>,
}

impl View for Stream {
    type V = Seq<EntryView>;

    open spec fn view(&self) -> Seq<EntryView> {
        self.entries@.map_values(|e: StreamEntry| e@)
    }
}

/// Whether an entry's field list is small enough that twice its length
/// fits every machine counter.
pub open spec fn entry_sized(e: EntryView) -> bool {
    e.fields.len() <= (usize::MAX - 2) / 2
}

/// Whether every entry of `s` is small enough for the wire.
pub open spec fn entries_sized(s: Seq<EntryView>) -> bool {
    forall|i: int| 0 <= i < s.len() ==> entry_sized(#[trigger] s[i])
}

/// Whether entry identifiers are strictly increasing and every entry
/// fits the wire.
pub open spec fn stream_wf(s: Seq<EntryView>) -> bool {
    (forall|i: int, j: int|
        0 <= i < j < s.len() ==> id_lt(#[trigger] s[i].id, #[trigger] s[j].id)) && entries_sized(s)
}

/// The sequence number of the last entry carrying `ms`, if any.
pub open spec fn last_seq_at(s: Seq<EntryView>, ms: u64) -> Option<u64>
    decreases s.len(),
{
    if s.len() == 0 {
        None
    } else if s.last().id.milliseconds_time == ms {
        Some(s.last().id.sequence_number)
    } else {
        last_seq_at(s.drop_last(), ms)
    }
}

/// The entries of `s` whose identifiers lie in the closed range
/// `[lo, hi]`, in order.
pub open spec fn sel_range(s: Seq<EntryView>, lo: StreamID, hi: StreamID) -> Seq<EntryView>
    decreases s.len(),
{
    if s.len() == 0 {
        Seq::empty()
    } else {
        let rest = sel_range(s.drop_last(), lo, hi);
        if id_le(lo, s.last().id) && id_le(s.last().id, hi) {
            rest.push(s.last())
        } else {
            rest
        }
    }
}

/// The entries of `s` whose identifiers are strictly greater than
/// `from`, in order.
pub open spec fn sel_after(s: Seq<EntryView>, from: StreamID) -> Seq<EntryView>
    decreases s.len(),
{
    if s.len() == 0 {
        Seq::empty()
    } else {
        let rest = sel_after(s.drop_last(), from);
        if id_lt(from, s.last().id) {
            rest.push(s.last())
        } else {
            rest
        }
    }
}

impl StreamID {
    /// The smallest identifier, `0-0`, which is never a valid key.
    pub fn zero() -> (r: Self)
        ensures
            r.milliseconds_time == 0,
            r.sequence_number == 0,
    {
        StreamID { milliseconds_time: 0, sequence_number: 0 }
    }

    /// The largest identifier.
    pub fn max_id() -> (r: Self)
        ensures
            r.milliseconds_time == u64::MAX,
            r.sequence_number == u64::MAX,
    {
        StreamID { milliseconds_time: u64::MAX, sequence_number: u64::MAX }
    }

    /// Whether `self` is strictly greater than `last_id`.
    pub fn is_valid(&self, last_id: &StreamID) -> (r: bool)
        ensures
            r == id_lt(*last_id, *self),
    {
        if self.milliseconds_time > last_id.milliseconds_time {
            true
        } else if self.milliseconds_time == last_id.milliseconds_time {
            self.sequence_number > last_id.sequence_number
        } else {
            false
        }
    }

    /// Parses `<ms>-<seq>`.
    pub fn from_str(id_str: &[u8]) -> (r: Option<StreamID>)
        ensures
            r == spec_parse_stream_id(id_str@),
    {
        let n = id_str.len();
        let i = match find_byte(id_str, DASH) {
            None => {
                return None;
            },
            Some(i) => i,
        };
        proof {
            broadcast use vstd::slice::group_slice_axioms;

            lemma_find_byte(id_str@, DASH);
            assert(vstd::slice::spec_slice_len(id_str) == id_str@.len());
        }
        let ms_part = &id_str[0..i];
        let seq_part = &id_str[i + 1..n];
        proof {
            assert(ms_part@ =~= id_str@.take(i as int));
            assert(seq_part@ =~= id_str@.skip(i + 1));
        }
        match find_byte(seq_part, DASH) {
            Some(_) => None,
            None => {
                let ms = match crate::resp::parse_u64(ms_part) {
                    Some(v) => v,
                    None => {
                        return None;
                    },
                };
                let seq = match crate::resp::parse_u64(seq_part) {
                    Some(v) => v,
                    None => {
                        return None;
                    },
                };
                Some(StreamID { milliseconds_time: ms, sequence_number: seq })
            },
        }
    }

    /// The next identifier for entries at `milliseconds_time`: one past
    /// the last sequence number used at that time, or the first sequence
    /// number allowed there (1 at time zero, else 0).
    pub fn generate_with_time(milliseconds_time: u64, stream: &Stream) -> (r: StreamID)
        requires
            match last_seq_at(stream@, milliseconds_time) {
                Some(q) => q < u64::MAX,
                None => true,
            },
        ensures
            r.milliseconds_time == milliseconds_time,
            r.sequence_number as int == (match last_seq_at(stream@, milliseconds_time) {
                Some(q) => q + 1,
                None => if milliseconds_time == 0 {
                    1int
                } else {
                    0int
                },
            }),
    {
        match stream.find_last_seq_at(milliseconds_time) {
            Some(q) => StreamID { milliseconds_time, sequence_number: q + 1 },
            None => StreamID {
                milliseconds_time,
                sequence_number: if milliseconds_time == 0 {
                    1
                } else {
                    0
                },
            },
        }
    }

    /// The next identifier at the current wall-clock time `now_ms`:
    /// one past the last sequence number used at that time, or 0.
    pub fn generate(stream: &Stream, now_ms: u64) -> (r: StreamID)
        requires
            match last_seq_at(stream@, now_ms) {
                Some(q) => q < u64::MAX,
                None => true,
            },
        ensures
            r.milliseconds_time == now_ms,
            r.sequence_number as int == (match last_seq_at(stream@, now_ms) {
                Some(q) => q + 1,
                None => 0int,
            }),
    {
        match stream.find_last_seq_at(now_ms) {
            Some(q) => StreamID { milliseconds_time: now_ms, sequence_number: q + 1 },
            None => StreamID { milliseconds_time: now_ms, sequence_number: 0 },
        }
    }

    /// The textual form `<ms>-<seq>`.
    pub fn format(&self) -> (r: Vec<u8>)
        ensures
            r@ == id_bytes(*self),
    {
        let mut out = format_u64(self.milliseconds_time);
        out.push(DASH);
        push_dec_u64(self.sequence_number, &mut out);
        proof {
            assert(out@ =~= id_bytes(*self));
        }
        out
    }
}

impl Stream {
    /// An empty stream.
    pub fn new() -> (r: Stream)
        ensures
            r@ == Seq::<EntryView>::empty(),
            stream_wf(r@),
    {
        let s = Stream { entries: Vec::new() };
        proof {
            assert(s@ =~= Seq::<EntryView>::empty());
        }
        s
    }

    /// The number of entries.
    pub fn len(&self) -> (r: usize)
        ensures
            r == self@.len(),
    {
        self.entries.len()
    }

    /// The entry at position `i`.
    pub fn entry_at(&self, i: usize) -> (r: &StreamEntry)
        requires
            i < self@.len(),
        ensures
            r@ == self@[i as int],
    {
        &self.entries[i]
    }

    /// The identifier of the newest entry, if the stream is nonempty.
    pub fn last_id(&self) -> (r: Option<StreamID>)
        ensures
            match r {
                Some(id) => self@.len() > 0 && id == self@.last().id,
                None => self@.len() == 0,
            },
    {
        if self.entries.len() == 0 {
            None
        } else {
            Some(self.entries[self.entries.len() - 1].id)
        }
    }

    /// The sequence number of the last entry carrying `ms`, if any.
    pub fn find_last_seq_at(&self, ms: u64) -> (r: Option<u64>)
        ensures
            r == last_seq_at(self@, ms),
    {
        let mut i: usize = self.entries.len();
        proof {
            assert(self@.take(i as int) =~= self@);
        }
        while i > 0
            invariant
                i <= self@.len(),
                last_seq_at(self@, ms) == last_seq_at(self@.take(i as int), ms),
            decreases i,
        {
            let e = &self.entries[i - 1];
            proof {
                assert(self@.take(i as int).last() == self@[i - 1]);
                assert(self@.take(i as int).drop_last() =~= self@.take(i - 1));
            }
            if e.id.milliseconds_time == ms {
                return Some(e.id.sequence_number);
            }
            i = i - 1;
        }
        proof {
            assert(self@.take(0) =~= Seq::<EntryView>::empty());
        }
        None
    }

    /// Appends an entry whose identifier exceeds every identifier in
    /// the stream.
    pub fn append(&mut self, id: StreamID, fields: Vec<(Vec<u8>, Vec<u8>)>)
        requires
            stream_wf(old(self)@),
            old(self)@.len() == 0 || id_lt(old(self)@.last().id, id),
            fields_view(fields@).len() <= (usize::MAX - 2) / 2,
        ensures
            final(self)@ == old(self)@.push(EntryView { id, fields: fields_view(fields@) }),
            stream_wf(final(self)@),
    {
        let ghost old_view = self@;
        self.entries.push(StreamEntry { id, fields });
        proof {
            assert(self@ =~= old_view.push(EntryView { id, fields: fields_view(fields@) }));
            let s = self@;
            assert forall|i: int, j: int| 0 <= i < j < s.len() implies id_lt(
                #[trigger] s[i].id,
                #[trigger] s[j].id,
            ) by {
                if j < s.len() - 1 {
                    assert(id_lt(old_view[i].id, old_view[j].id));
                } else {
                    if i < s.len() - 1 {
                        if i < old_view.len() - 1 {
                            assert(id_lt(old_view[i].id, old_view.last().id));
                        }
                    }
                }
            }
            assert forall|i: int| 0 <= i < s.len() implies entry_sized(#[trigger] s[i]) by {
                if i < s.len() - 1 {
                    assert(entry_sized(old_view[i]));
                }
            }
        }
    }

    /// The entries with identifiers in the closed range `[lo, hi]`.
    pub fn range_entries(&self, lo: StreamID, hi: StreamID) -> (r: Vec<StreamEntry>)
        ensures
            r@.map_values(|e: StreamEntry| e@) == sel_range(self@, lo, hi),
    {
        let mut out: Vec<StreamEntry> = Vec::new();
        let mut i: usize = 0;
        while i < self.entries.len()
            invariant
                i <= self@.len(),
                out@.map_values(|e: StreamEntry| e@) =~= sel_range(self@.take(i as int), lo, hi),
            decreases self@.len() - i,
        {
            let e = &self.entries[i];
            proof {
                assert(self@.take(i + 1 as int).drop_last() =~= self@.take(i as int));
                assert(self@.take(i + 1 as int).last() == self@[i as int]);
            }
            let ge_lo = {
                let z = lo;
                e.id.is_valid(&z) || (e.id.milliseconds_time == z.milliseconds_time
                    && e.id.sequence_number == z.sequence_number)
            };
            let le_hi = {
                let z = hi;
                z.is_valid(&e.id) || (e.id.milliseconds_time == z.milliseconds_time
                    && e.id.sequence_number == z.sequence_number)
            };
            if ge_lo && le_hi {
                out.push(copy_entry(e));
            }
            proof {
                assert(out@.map_values(|e2: StreamEntry| e2@) =~= sel_range(
                    self@.take(i + 1 as int),
                    lo,
                    hi,
                ));
            }
            i = i + 1;
        }
        proof {
            assert(self@.take(self@.len() as int) =~= self@);
        }
        out
    }

    /// The entries with identifiers strictly greater than `from`.
    pub fn entries_after(&self, from: StreamID) -> (r: Vec<StreamEntry>)
        ensures
            r@.map_values(|e: StreamEntry| e@) == sel_after(self@, from),
    {
        let mut out: Vec<StreamEntry> = Vec::new();
        let mut i: usize = 0;
        while i < self.entries.len()
            invariant
                i <= self@.len(),
                out@.map_values(|e: StreamEntry| e@) =~= sel_after(self@.take(i as int), from),
            decreases self@.len() - i,
        {
            let e = &self.entries[i];
            proof {
                assert(self@.take(i + 1 as int).drop_last() =~= self@.take(i as int));
                assert(self@.take(i + 1 as int).last() == self@[i as int]);
            }
            if e.id.is_valid(&from) {
                out.push(copy_entry(e));
            }
            proof {
                assert(out@.map_values(|e2: StreamEntry| e2@) =~= sel_after(
                    self@.take(i + 1 as int),
                    from,
                ));
            }
            i = i + 1;
        }
        proof {
            assert(self@.take(self@.len() as int) =~= self@);
        }
        out
    }

    /// Copies the whole stream, preserving its value.
    pub fn duplicate(&self) -> (r: Stream)
        ensures
            r@ == self@,
    {
        let mut out: Vec<StreamEntry> = Vec::new();
        let mut i: usize = 0;
        while i < self.entries.len()
            invariant
                i <= self@.len(),
                out@.len() == i,
                out@.map_values(|e: StreamEntry| e@) =~= self@.take(i as int),
            decreases self@.len() - i,
        {
            let copied = copy_entry(&self.entries[i]);
            proof {
                assert(copied@ == self@[i as int]);
            }
            out.push(copied);
            proof {
                let prev = self@.take(i as int);
                let cur = self@.take(i + 1 as int);
                let f = |e2: StreamEntry| e2@;
                assert(out@.map_values(f).len() == cur.len());
                assert forall|k: int| 0 <= k < cur.len() implies out@.map_values(f)[k] == cur[k] by {
                    if k < i {
                        assert(out@.map_values(f)[k] == prev[k]);
                        assert(cur[k] == prev[k]);
                    } else {
                        assert(out@[k] == copied);
                    }
                }
                assert(out@.map_values(f) =~= cur);
            }
            i = i + 1;
        }
        let r = Stream { entries: out };
        proof {
            assert(self@.take(self@.len() as int) =~= self@);
            assert(r@ =~= self@);
        }
        r
    }
}

/// A range selection keeps only entries of `s`, so it keeps them sized.
pub proof fn lemma_sel_range_sized(s: Seq<EntryView>, lo: StreamID, hi: StreamID)
    requires
        entries_sized(s),
    ensures
        entries_sized(sel_range(s, lo, hi)),
    decreases s.len(),
{
    if s.len() > 0 {
        assert(forall|i: int|
            0 <= i < s.drop_last().len() ==> entry_sized(#[trigger] s.drop_last()[i]));
        lemma_sel_range_sized(s.drop_last(), lo, hi);
        let rest = sel_range(s.drop_last(), lo, hi);
        if id_le(lo, s.last().id) && id_le(s.last().id, hi) {
            assert forall|i: int| 0 <= i < sel_range(s, lo, hi).len() implies entry_sized(
                #[trigger] sel_range(s, lo, hi)[i],
            ) by {
                if i < rest.len() {
                    assert(sel_range(s, lo, hi)[i] == rest[i]);
                }
            }
        }
    }
}

/// A tail selection keeps only entries of `s`, so it keeps them sized.
pub proof fn lemma_sel_after_sized(s: Seq<EntryView>, from: StreamID)
    requires
        entries_sized(s),
    ensures
        entries_sized(sel_after(s, from)),
    decreases s.len(),
{
    if s.len() > 0 {
        assert(forall|i: int|
            0 <= i < s.drop_last().len() ==> entry_sized(#[trigger] s.drop_last()[i]));
        lemma_sel_after_sized(s.drop_last(), from);
        let rest = sel_after(s.drop_last(), from);
        if id_lt(from, s.last().id) {
            assert forall|i: int| 0 <= i < sel_after(s, from).len() implies entry_sized(
                #[trigger] sel_after(s, from)[i],
            ) by {
                if i < rest.len() {
                    assert(sel_after(s, from)[i] == rest[i]);
                }
            }
        }
    }
}

} // verus!
