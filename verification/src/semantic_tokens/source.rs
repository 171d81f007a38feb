//! Source bytes with the offsets of their lines, for UTF-16 columns.
use vstd::prelude::*;
use vstd::utf8::{
    encode_scalar, encode_utf8, has_width_1_encoding, has_width_2_encoding, has_width_3_encoding,
    last_continuation_byte, leading_byte_width_1, leading_byte_width_2, leading_byte_width_3,
    leading_byte_width_4, second_last_continuation_byte, third_last_continuation_byte,
};

verus! {

/// The offsets at which the lines begin: the start, and behind every line feed.
pub open spec fn starts_of(bytes: Seq<u8>) -> Seq<int>
    decreases bytes.len(),
{
    if bytes.len() == 0 {
        seq![0int]
    } else if bytes.last() == 0x0a {
        starts_of(bytes.drop_last()).push(bytes.len() as int)
    } else {
        starts_of(bytes.drop_last())
    }
}

/// The UTF-16 units of the character that begins with this byte; a byte inside a character
/// begins none.
pub open spec fn units_of_byte(b: u8) -> nat {
    if 0x80 <= b <= 0xbf {
        0
    } else if b >= 0xf0 {
        2
    } else {
        1
    }
}

/// The UTF-16 units of the characters that begin in these UTF-8 bytes.
pub open spec fn units(bytes: Seq<u8>) -> nat
    decreases bytes.len(),
{
    if bytes.len() == 0 {
        0
    } else {
        units(bytes.drop_last()) + units_of_byte(bytes.last())
    }
}

/// The UTF-16 units of the text.
pub open spec fn utf16_len(s: Seq<char>) -> nat
    decreases s.len(),
{
    if s.len() == 0 {
        0
    } else {
        (if s[0] as u32 >= 0x10000 {
            2nat
        } else {
            1nat
        }) + utf16_len(s.drop_first())
    }
}

proof fn lemma_units_concat(a: Seq<u8>, b: Seq<u8>)
    ensures
        units(a + b) == units(a) + units(b),
    decreases b.len(),
{
    if b.len() == 0 {
        assert(a + b =~= a);
    } else {
        lemma_units_concat(a, b.drop_last());
        assert((a + b).drop_last() =~= a + b.drop_last());
    }
}

proof fn lemma_units_of_scalar(c: char)
    ensures
        units(encode_scalar(c as u32)) == (if c as u32 >= 0x10000 {
            2nat
        } else {
            1nat
        }),
{
    let v = c as u32;
    let e = encode_scalar(v);
    reveal_with_fuel(units, 5);
    if has_width_1_encoding(v) {
        assert(leading_byte_width_1(v) <= 0x7f) by (bit_vector)
            requires
                v <= 0x7f,
        ;
        assert(e.drop_last() =~= Seq::<u8>::empty());
    } else if has_width_2_encoding(v) {
        assert(0xc0 <= leading_byte_width_2(v) <= 0xdf && 0x80 <= last_continuation_byte(v)
            <= 0xbf) by (bit_vector)
            requires
                0x80 <= v <= 0x7ff,
        ;
        assert(e.drop_last() =~= seq![leading_byte_width_2(v)]);
        assert(e.drop_last().drop_last() =~= Seq::<u8>::empty());
    } else if has_width_3_encoding(v) {
        assert(0xe0 <= leading_byte_width_3(v) <= 0xef && 0x80 <= last_continuation_byte(v) <= 0xbf
            && 0x80 <= second_last_continuation_byte(v) <= 0xbf) by (bit_vector)
            requires
                0x800 <= v <= 0xffff,
        ;
        assert(e.drop_last() =~= seq![leading_byte_width_3(v), second_last_continuation_byte(v)]);
        assert(e.drop_last().drop_last() =~= seq![leading_byte_width_3(v)]);
        assert(e.drop_last().drop_last().drop_last() =~= Seq::<u8>::empty());
    } else {
        assert(0xf0 <= leading_byte_width_4(v) <= 0xf7 && 0x80 <= last_continuation_byte(v) <= 0xbf
            && 0x80 <= second_last_continuation_byte(v) <= 0xbf && 0x80
            <= third_last_continuation_byte(v) <= 0xbf) by (bit_vector)
            requires
                0x10000 <= v <= 0x10ffff,
        ;
        assert(e.drop_last() =~= seq![
            leading_byte_width_4(v),
            third_last_continuation_byte(v),
            second_last_continuation_byte(v),
        ]);
        assert(e.drop_last().drop_last() =~= seq![
            leading_byte_width_4(v),
            third_last_continuation_byte(v),
        ]);
        assert(e.drop_last().drop_last().drop_last() =~= seq![leading_byte_width_4(v)]);
        assert(e.drop_last().drop_last().drop_last().drop_last() =~= Seq::<u8>::empty());
    }
}

/// Counting units byte by byte counts those of the text that the bytes encode.
pub proof fn units_are_utf16_units(s: Seq<char>)
    ensures
        units(encode_utf8(s)) == utf16_len(s),
    decreases s.len(),
{
    if s.len() > 0 {
        units_are_utf16_units(s.drop_first());
        lemma_units_of_scalar(s[0]);
        lemma_units_concat(encode_scalar(s[0] as u32), encode_utf8(s.drop_first()));
    }
}

/// The lines begin at growing offsets, the first at 0, every other behind a line feed, and
/// behind every line feed one begins.
pub proof fn lines_begin_behind_line_feeds(bytes: Seq<u8>)
    ensures
        starts_of(bytes).len() >= 1,
        starts_of(bytes)[0] == 0,
        forall|i: int, j: int|
            0 <= i < j < starts_of(bytes).len() ==> #[trigger] starts_of(bytes)[i]
                < #[trigger] starts_of(bytes)[j],
        forall|i: int|
            1 <= i < starts_of(bytes).len() ==> 1 <= #[trigger] starts_of(bytes)[i] <= bytes.len()
                && bytes[starts_of(bytes)[i] - 1] == 0x0a,
        forall|k: int|
            0 <= k < bytes.len() && #[trigger] bytes[k] == 0x0a ==> starts_of(bytes).contains(
                k + 1,
            ),
    decreases bytes.len(),
{
    if bytes.len() > 0 {
        let d = bytes.drop_last();
        lines_begin_behind_line_feeds(d);
        let r = starts_of(bytes);
        let s = starts_of(d);
        assert forall|i: int| 1 <= i < r.len() implies 1 <= #[trigger] r[i] <= bytes.len()
            && bytes[r[i] - 1] == 0x0a by {
            if i < s.len() {
                assert(r[i] == s[i]);
                assert(d[s[i] - 1] == bytes[s[i] - 1]);
            }
        }
        assert forall|i: int, j: int| 0 <= i < j < r.len() implies #[trigger] r[i]
            < #[trigger] r[j] by {
            if j < s.len() {
                assert(s[i] < s[j]);
            } else if i > 0 {
                assert(s[i] <= d.len());
            }
        }
        assert forall|k: int| 0 <= k < bytes.len() && #[trigger] bytes[k] == 0x0a implies r.contains(
            k + 1,
        ) by {
            if k < d.len() {
                assert(d[k] == bytes[k]);
                assert(s.contains(k + 1));
                let i = s.index_of(k + 1);
                assert(r[i] == k + 1);
            } else {
                assert(r[s.len() as int] == k + 1);
            }
        }
    }
}

/// Source bytes with the offsets of their lines.
pub struct Source<'a> {
    pub bytes: &'a [u8],
    pub line_starts: Vec<usize>,
}

/// The offset at which line `row` begins; the end of the bytes where there is no such line.
pub open spec fn row_start(bytes: Seq<u8>, row: int) -> int {
    if 0 <= row < starts_of(bytes).len() {
        starts_of(bytes)[row]
    } else {
        bytes.len() as int
    }
}

/// The bytes of line `row` before byte column `byte_col`, up to the end of the bytes.
pub open spec fn bytes_before(bytes: Seq<u8>, row: int, byte_col: int) -> Seq<u8> {
    let start = row_start(bytes, row);
    if start + byte_col <= bytes.len() {
        bytes.subrange(start, start + byte_col)
    } else {
        bytes.skip(start)
    }
}

impl<'a> Source<'a> {
    /// The offsets are those of the bytes' lines.
    pub open spec fn wf(&self) -> bool {
        self.line_starts@.map_values(|o: usize| o as int) == starts_of(self.bytes@)
    }

    /// The source of these bytes.
    pub fn new(bytes: &'a [u8]) -> (r: Self)
        ensures
            r.bytes == bytes,
            r.wf(),
    {
        let mut line_starts: Vec<usize> = vec![0];
        assert(bytes@.take(0) =~= Seq::<u8>::empty());
        assert(line_starts@.map_values(|o: usize| o as int) =~= starts_of(bytes@.take(0)));
        for i in 0..bytes.len()
            invariant
                line_starts@.map_values(|o: usize| o as int) == starts_of(bytes@.take(i as int)),
        {
            let ghost before = line_starts@;
            assert(bytes@.take(i + 1).drop_last() =~= bytes@.take(i as int));
            if bytes[i] == 0x0a {
                line_starts.push(i + 1);
                assert(line_starts@.map_values(|o: usize| o as int) =~= before.map_values(
                    |o: usize| o as int,
                ).push(i + 1));
            }
        }
        assert(bytes@.take(bytes@.len() as int) =~= bytes@);
        Source { bytes, line_starts }
    }

    /// The UTF-16 column of a byte column.
    pub fn col_utf16(&self, row: usize, byte_col: usize) -> (r: u32)
        requires
            self.wf(),
        ensures
            r == units(bytes_before(self.bytes@, row as int, byte_col as int)) as u32,
    {
        let n: usize = self.bytes.len();
        proof {
            lines_begin_behind_line_feeds(self.bytes@);
        }
        assert(self.line_starts@.len() == starts_of(self.bytes@).len());
        let start: usize = if row < self.line_starts.len() {
            assert(self.line_starts@[row as int] as int == starts_of(self.bytes@)[row as int]);
            self.line_starts[row]
        } else {
            n
        };
        assert(start == row_start(self.bytes@, row as int));
        let end: usize = if byte_col <= n - start {
            start + byte_col
        } else {
            n
        };
        let ghost part = bytes_before(self.bytes@, row as int, byte_col as int);
        assert(part =~= self.bytes@.subrange(start as int, end as int));
        let mut count: u128 = 0;
        for i in start..end
            invariant
                start <= i <= end <= n,
                n == self.bytes@.len(),
                part == self.bytes@.subrange(start as int, end as int),
                count == units(part.take(i - start)),
                count <= 2 * (i - start),
        {
            let b = self.bytes[i];
            assert(b == part[i - start]);
            assert(part.take(i + 1 - start).drop_last() =~= part.take(i - start));
            if b >= 0xf0 {
                count = count + 2;
            } else if !(0x80 <= b && b <= 0xbf) {
                count = count + 1;
            }
        }
        assert(part.take(end - start) =~= part);
        count as u32
    }
}

} // verus!
