//! File paths as bytes, which need not be UTF-8.
//!
//! Separators and dots are bytes of their own, so a path of bytes has the components that it has
//! when each byte is taken for the character of its number.
use vstd::prelude::*;
use vstd::utf8::{encode_scalar, encode_utf8};

use crate::path::{
    absolute, below, components, from_component, lemma_segment_bounds, lemma_segment_end,
    lemma_spans, relative_or_self, relativize, segment_end, spans, spans_from,
};
use crate::text::{chars_of, string_of};

verus! {

/// Each byte as the character of its number.
pub open spec fn spread(bytes: Seq<u8>) -> Seq<char> {
    bytes.map_values(|b: u8| b as char)
}

/// Each character as the byte of its number.
pub open spec fn gathered(s: Seq<char>) -> Seq<u8> {
    s.map_values(|c: char| c as u8)
}

/// The path of bytes relative to `base`, or as it is where it does not lie below it.
pub open spec fn relative_bytes(path: Seq<u8>, base: Seq<char>) -> Seq<u8> {
    gathered(relative_or_self(spread(path), spread(encode_utf8(base))))
}

/// Each byte as the character of its number.
fn spread_of(bytes: &[u8]) -> (r: String)
    ensures
        r@ == spread(bytes@),
{
    let mut v: Vec<char> = Vec::new();
    for i in 0..bytes.len()
        invariant
            v@ == spread(bytes@).take(i as int),
    {
        v.push(bytes[i] as char);
        assert(spread(bytes@).take(i + 1) =~= spread(bytes@).take(i as int).push(
            spread(bytes@)[i as int],
        ));
    }
    assert(spread(bytes@).take(bytes@.len() as int) =~= spread(bytes@));
    string_of(v.as_slice())
}

/// Each character as the byte of its number.
fn gather(s: &str) -> (r: Vec<u8>)
    ensures
        r@ == gathered(s@),
{
    let v = chars_of(s);
    let mut r: Vec<u8> = Vec::new();
    for i in 0..v.len()
        invariant
            v@ == s@,
            r@ == gathered(s@).take(i as int),
    {
        r.push(v[i] as u8);
        assert(gathered(s@).take(i + 1) =~= gathered(s@).take(i as int).push(
            gathered(s@)[i as int],
        ));
    }
    assert(gathered(s@).take(s@.len() as int) =~= gathered(s@));
    r
}

/// The path of bytes relative to `base`, or as it is where it does not lie below it.
pub fn relativize_bytes(path: &[u8], base: &str) -> (r: Vec<u8>)
    ensures
        r@ == relative_bytes(path@, base@),
{
    let bytes = base.as_bytes();
    gather(relativize(spread_of(path).as_str(), spread_of(bytes).as_str()).as_str())
}

/// The UTF-8 bytes of a text, each as the character of its number.
pub open spec fn wide(s: Seq<char>) -> Seq<char> {
    spread(encode_utf8(s))
}

/// How many bytes the first `k` characters take.
pub open spec fn place_of(s: Seq<char>, k: int) -> int {
    encode_utf8(s.take(k)).len() as int
}

/// An ASCII character is one byte, its number; any other has bytes above ASCII alone.
proof fn lemma_scalar(c: char)
    ensures
        encode_scalar(c as u32).len() >= 1,
        (c as u32) < 0x80 ==> encode_scalar(c as u32) == seq![c as u8],
        (c as u32) >= 0x80 ==> forall|k: int|
            0 <= k < encode_scalar(c as u32).len() ==> #[trigger] encode_scalar(c as u32)[k]
                >= 0x80,
{
    let v = c as u32;
    assert(v < 0x80 ==> (v & 0x7F) as u8 == v as u8) by (bit_vector);
    assert((0xC0u8 | ((v >> 6) & 0x1F) as u8) >= 0x80) by (bit_vector);
    assert((0xE0u8 | ((v >> 12) & 0x0F) as u8) >= 0x80) by (bit_vector);
    assert((0xF0u8 | ((v >> 18) & 0x7) as u8) >= 0x80) by (bit_vector);
    assert((0x80u8 | (v & 0x3F) as u8) >= 0x80) by (bit_vector);
    assert((0x80u8 | ((v >> 6) & 0x3F) as u8) >= 0x80) by (bit_vector);
    assert((0x80u8 | ((v >> 12) & 0x3F) as u8) >= 0x80) by (bit_vector);
    if v < 0x80 {
        assert(encode_scalar(v) =~= seq![c as u8]);
    }
}

/// Among the bytes of a character stands that of an ASCII character only where it is that
/// character.
proof fn lemma_scalar_is(d: char, c: char)
    requires
        (c as u32) < 0x80,
    ensures
        d == c ==> encode_scalar(d as u32)[0] as char == c,
        d != c ==> forall|k: int|
            0 <= k < encode_scalar(d as u32).len() ==> #[trigger] encode_scalar(d as u32)[k]
                as char != c,
{
    let bytes = encode_scalar(d as u32);
    lemma_scalar(d);
    if (d as u32) < 0x80 {
        assert(((d as u8) as char) as u32 == d as u32);
        vstd::utf8::char_u32_cast(d, d as u32);
        assert((d as u8) as char == d);
    } else {
        assert forall|k: int| 0 <= k < bytes.len() implies #[trigger] bytes[k] as char != c by {
            let b = bytes[k];
            assert((b as char) as u32 == b as u32);
        }
    }
}

proof fn lemma_encode_concat(a: Seq<char>, b: Seq<char>)
    ensures
        encode_utf8(a + b) == encode_utf8(a) + encode_utf8(b),
    decreases a.len(),
{
    if a.len() == 0 {
        assert(a + b =~= b);
        assert(encode_utf8(a) + encode_utf8(b) =~= encode_utf8(b));
    } else {
        lemma_encode_concat(a.drop_first(), b);
        assert((a + b).drop_first() =~= a.drop_first() + b);
        assert(encode_utf8(a + b) =~= encode_utf8(a) + encode_utf8(b));
    }
}

/// A text takes at least one byte for each character, and holds an ASCII character only where
/// its bytes do.
proof fn lemma_wide(s: Seq<char>, c: char)
    requires
        (c as u32) < 0x80,
    ensures
        wide(s).len() >= s.len(),
        !s.contains(c) ==> !wide(s).contains(c),
    decreases s.len(),
{
    if s.len() > 0 {
        let head = encode_scalar(s[0] as u32);
        let rest = s.drop_first();
        lemma_scalar(s[0]);
        lemma_scalar_is(s[0], c);
        lemma_wide(rest, c);
        if !s.contains(c) {
            assert forall|k: int| 0 <= k < rest.len() implies rest[k] != c by {
                assert(s[k + 1] == rest[k]);
            }
            assert forall|k: int| 0 <= k < wide(s).len() implies wide(s)[k] != c by {
                if k < head.len() {
                    assert(wide(s)[k] == head[k] as char);
                    assert(s[0] != c);
                } else {
                    assert(wide(s)[k] == wide(rest)[k - head.len()]);
                }
            }
        }
    }
}

/// The characters from `i` to `j` stand in the bytes between their places.
proof fn lemma_part(s: Seq<char>, i: int, j: int)
    requires
        0 <= i <= j <= s.len(),
    ensures
        i <= place_of(s, i),
        place_of(s, i) + (j - i) <= place_of(s, j) <= wide(s).len(),
        wide(s).subrange(place_of(s, i), place_of(s, j)) == wide(s.subrange(i, j)),
        place_of(s, 0) == 0,
        place_of(s, s.len() as int) == wide(s).len(),
{
    let (a, b, c) = (s.take(i), s.subrange(i, j), s.skip(j));
    assert(s =~= a + b + c);
    assert(s.take(j) =~= a + b);
    assert(s.take(s.len() as int) =~= s);
    lemma_encode_concat(a + b, c);
    lemma_encode_concat(a, b);
    lemma_wide(a, '/');
    lemma_wide(b, '/');
    assert(wide(s).subrange(place_of(s, i), place_of(s, j)) =~= wide(b));
}

/// Where an ASCII character stands, its byte does.
proof fn lemma_ascii_at(s: Seq<char>, i: int, c: char)
    requires
        0 <= i < s.len(),
        (c as u32) < 0x80,
    ensures
        place_of(s, i) < wide(s).len(),
        wide(s)[place_of(s, i)] == c <==> s[i] == c,
        s[i] == c ==> place_of(s, i + 1) == place_of(s, i) + 1,
{
    lemma_part(s, i, i + 1);
    lemma_scalar(s[i]);
    lemma_scalar_is(s[i], c);
    let one = s.subrange(i, i + 1);
    let bytes = encode_scalar(s[i] as u32);
    assert(encode_utf8(one.drop_first()) =~= Seq::<u8>::empty());
    assert(encode_utf8(one) =~= bytes);
    assert(wide(s)[place_of(s, i)] == wide(s).subrange(place_of(s, i), place_of(s, i + 1))[0]);
    assert(wide(one)[0] == bytes[0] as char);
    assert(wide(s).subrange(place_of(s, i), place_of(s, i + 1)).len() == wide(one).len());
    assert(wide(one).len() == bytes.len());
}

proof fn lemma_wide_segment_end(s: Seq<char>, i: int)
    requires
        0 <= i <= s.len(),
    ensures
        i <= segment_end(s, i) <= s.len(),
        segment_end(wide(s), place_of(s, i)) == place_of(s, segment_end(s, i)),
{
    lemma_segment_bounds(s, i);
    let e = segment_end(s, i);
    let part = s.subrange(i, e);
    lemma_part(s, i, e);
    assert forall|k: int| 0 <= k < part.len() implies part[k] != '/' by {
        assert(part[k] == s[i + k]);
    }
    lemma_wide(part, '/');
    let (p, q) = (place_of(s, i), place_of(s, e));
    assert forall|k: int| p <= k < q implies #[trigger] wide(s)[k] != '/' by {
        assert(wide(s).subrange(p, q)[k - p] == wide(s)[k]);
        assert(wide(part).contains(wide(part)[k - p]));
    }
    if e < s.len() {
        lemma_ascii_at(s, e, '/');
    } else {
        assert(s.take(e) =~= s);
    }
    lemma_segment_end(wide(s), p, q);
}

/// The spans of a text, as places in its bytes.
spec fn placed(s: Seq<char>, all: Seq<(int, int)>) -> Seq<(int, int)> {
    all.map_values(|p: (int, int)| (place_of(s, p.0), place_of(s, p.1)))
}

proof fn lemma_wide_spans_from(s: Seq<char>, i: int)
    requires
        0 <= i <= s.len(),
    ensures
        spans_from(wide(s), place_of(s, i)) == placed(s, spans_from(s, i)),
    decreases s.len() - i,
{
    lemma_part(s, i, s.len() as int);
    if i == s.len() {
        assert(spans_from(wide(s), place_of(s, i)) =~= placed(s, spans_from(s, i)));
    } else {
        lemma_wide_segment_end(s, i);
        let e = segment_end(s, i);
        lemma_part(s, i, e);
        lemma_part(s, e, s.len() as int);
        lemma_ascii_at(s, i, '.');
        if e < s.len() {
            lemma_segment_bounds(s, i);
            lemma_ascii_at(s, e, '/');
            lemma_wide_spans_from(s, e + 1);
        }
        assert(spans_from(wide(s), place_of(s, i)) =~= placed(s, spans_from(s, i)));
    }
}

proof fn lemma_wide_spans(s: Seq<char>)
    ensures
        absolute(wide(s)) == absolute(s),
        spans(wide(s)) == placed(s, spans(s)),
{
    lemma_part(s, 0, s.len() as int);
    if s.len() > 0 {
        lemma_ascii_at(s, 0, '/');
        if absolute(s) {
            lemma_wide_spans_from(s, 1);
        }
    } else {
        assert(wide(s).len() == 0);
    }
    lemma_wide_spans_from(s, 0);
    assert(spans(wide(s)) =~= placed(s, spans(s)));
}

proof fn lemma_wide_components(s: Seq<char>)
    ensures
        components(wide(s)).len() == components(s).len(),
        forall|k: int|
            0 <= k < components(s).len() ==> #[trigger] components(wide(s))[k] == wide(
                components(s)[k],
            ),
{
    lemma_wide_spans(s);
    lemma_spans(s);
    assert forall|k: int| 0 <= k < components(s).len() implies #[trigger] components(wide(s))[k]
        == wide(components(s)[k]) by {
        let p = spans(s)[k];
        lemma_part(s, p.0, p.1);
        assert(spans(wide(s))[k] == (place_of(s, p.0), place_of(s, p.1)));
    }
}

proof fn lemma_gathered(bytes: Seq<u8>)
    ensures
        gathered(spread(bytes)) == bytes,
{
    assert forall|k: int| 0 <= k < bytes.len() implies gathered(spread(bytes))[k] == bytes[k] by {
        let b = bytes[k];
        assert((b as char) as u8 == b);
    }
    assert(gathered(spread(bytes)) =~= bytes);
}

/// Texts of the same bytes are the same.
proof fn lemma_wide_injective(a: Seq<char>, b: Seq<char>)
    requires
        wide(a) == wide(b),
    ensures
        a == b,
{
    lemma_gathered(encode_utf8(a));
    lemma_gathered(encode_utf8(b));
    vstd::utf8::encode_utf8_decode_utf8(a);
    vstd::utf8::encode_utf8_decode_utf8(b);
}

proof fn lemma_wide_below(s: Seq<char>, base: Seq<char>)
    ensures
        below(wide(s), wide(base)) == below(s, base),
{
    lemma_wide_components(s);
    lemma_wide_components(base);
    let n = components(base).len() as int;
    if n <= components(s).len() {
        if below(s, base) {
            assert forall|k: int| 0 <= k < n implies components(wide(s))[k] == components(
                wide(base),
            )[k] by {
                assert(components(s).subrange(0, n)[k] == components(s)[k]);
            }
            assert(components(wide(s)).subrange(0, n) =~= components(wide(base)));
        }
        if below(wide(s), wide(base)) {
            assert forall|k: int| 0 <= k < n implies components(s)[k] == components(base)[k] by {
                assert(components(wide(s)).subrange(0, n)[k] == components(wide(s))[k]);
                lemma_wide_injective(components(s)[k], components(base)[k]);
            }
            assert(components(s).subrange(0, n) =~= components(base));
        }
    }
}

/// A path that is UTF-8 has, relative to a directory, the bytes of its text relative to it.
pub proof fn relative_bytes_of_text(s: Seq<char>, base: Seq<char>)
    ensures
        relative_bytes(encode_utf8(s), base) == encode_utf8(relative_or_self(s, base)),
{
    lemma_wide_below(s, base);
    lemma_wide_components(base);
    let k = components(base).len() as int;
    if below(s, base) {
        lemma_wide_spans(s);
        lemma_spans(s);
        let all = spans(s);
        if k < all.len() {
            assert(all[k].0 <= all.last().1) by {
                if k < all.len() - 1 {
                    assert(all[k].1 <= all[all.len() - 1].0);
                }
            }
            lemma_part(s, all[k].0, all.last().1);
            assert(spans(wide(s))[k] == (place_of(s, all[k].0), place_of(s, all[k].1)));
        } else {
            assert(wide(Seq::<char>::empty()) =~= Seq::empty());
        }
        assert(from_component(wide(s), k) == wide(from_component(s, k)));
    }
    assert(relative_or_self(wide(s), wide(base)) == wide(relative_or_self(s, base)));
    lemma_gathered(encode_utf8(relative_or_self(s, base)));
}

/// An entry of a directory, whatever its bytes, is relative to the directory just its name.
pub proof fn entries_are_relative_to_their_directory(base: Seq<char>, name: Seq<u8>)
    requires
        base.len() > 0,
        base.last() != '/',
        name.len() > 0,
        !name.contains(0x2f),
        name != seq![0x2eu8],
    ensures
        relative_bytes(encode_utf8(base).push(0x2f) + name, base) == name,
{
    let b = wide(base);
    let n = spread(name);
    lemma_part(base, 0, base.len() as int);
    lemma_ascii_at(base, base.len() - 1, '/');
    assert forall|k: int| 0 <= k < name.len() implies n[k] != '/' by {
        let x = name[k];
        assert(name.contains(x));
        assert((x as char) as u32 == x as u32);
        assert(('/') as u32 == 0x2f);
    }
    assert(!n.contains('/'));
    assert(n != seq!['.']) by {
        if n == seq!['.'] {
            assert(n[0] == '.');
            let x = name[0];
            assert((x as char) as u32 == x as u32);
            assert(('.') as u32 == 0x2e);
            assert(name =~= seq![0x2eu8]);
        }
    }
    assert(b.last() != '/') by {
        lemma_last(base);
    }
    crate::path_laws::names_are_components(n);
    crate::path_laws::names_in_a_directory(b, n);
    let slash: u8 = 0x2f;
    assert((slash as char) == '/');
    assert(spread(encode_utf8(base).push(0x2f) + name) =~= b.push('/') + n);
    assert(!absolute(n)) by {
        if absolute(n) {
            assert(n.contains(n[0]));
        }
    }
    assert(crate::path::joined(b, n) == b.push('/') + n);
    assert(components(n).len() == spans(n).len());
    assert(spans(n) =~= seq![(0int, n.len() as int)]) by {
        assert forall|k: int| 0 <= k < n.len() implies #[trigger] n[k] != '/' by {}
        lemma_segment_end(n, 0, n.len() as int);
        assert(spans_from(n, 0) =~= seq![(0int, n.len() as int)]);
    }
    assert(!crate::path::begins_with_dot(n)) by {
        if crate::path::begins_with_dot(n) {
            lemma_segment_end(n, 0, n.len() as int);
            assert(n =~= seq!['.']);
        }
    }
    assert(crate::path::plain_relative(n));
    crate::path::join_then_strip(b, n);
    lemma_gathered(name);
}

/// A text ends with a slash where its bytes do.
proof fn lemma_last(s: Seq<char>)
    requires
        s.len() > 0,
        s.last() != '/',
    ensures
        wide(s).len() > 0,
        wide(s).last() != '/',
{
    let d = s.drop_last();
    let one = seq![s.last()];
    assert(s =~= d + one);
    lemma_encode_concat(d, one);
    lemma_wide(one, '/');
    assert(!one.contains('/'));
    let w = wide(one);
    assert(wide(s) =~= wide(d) + w);
    assert(wide(s).last() == w.last());
    assert(w.contains(w[w.len() - 1]));
}

} // verus!
