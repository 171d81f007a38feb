//! String-analysis methods on `str`.
use vstd::prelude::*;

use crate::chars::{is_id_char, lower_char, upper_char, word_char};
use crate::text::{
    chars_of, find_char, find_last, index_of, leading, leading_space, leading_word, lemma_leading,
    lemma_trailing, slice_of, trailing, trim_start, word_chars,
};
use crate::types::last_segment_of;

verus! {

/// Being an identifier character or a dot.
pub open spec fn dotted_chars() -> spec_fn(char) -> bool {
    |c: char| word_char(c) || c == '.'
}

/// Being a character of an annotation's name: also a use-site target's colon.
pub open spec fn annotation_chars() -> spec_fn(char) -> bool {
    |c: char| word_char(c) || c == '.' || c == ':'
}

/// Where the bracket opened at depth `depth` before position `i` is closed, one past the `)`;
/// the end of the text where it never is.
pub open spec fn closing(s: Seq<char>, i: int, depth: int) -> int
    decreases s.len() - i,
{
    if i < 0 || i >= s.len() {
        s.len() as int
    } else if s[i] == '(' {
        closing(s, i + 1, depth + 1)
    } else if s[i] == ')' {
        if depth <= 1 {
            i + 1
        } else {
            closing(s, i + 1, depth - 1)
        }
    } else {
        closing(s, i + 1, depth)
    }
}

/// How long the annotation is that `s` begins with: the `@`, its name and its arguments.
pub open spec fn annotation_len(s: Seq<char>) -> int {
    let n = 1 + leading(s.skip(1), annotation_chars()) as int;
    if n < s.len() && s[n] == '(' {
        closing(s, n + 1, 1)
    } else {
        n
    }
}

/// `s` without the white space and the annotations it begins with.
pub open spec fn declaration_start(s: Seq<char>) -> Seq<char>
    decreases s.len(),
{
    let t = trim_start(s);
    if t.len() > 0 && t.len() <= s.len() && t[0] == '@' && 0 < annotation_len(t) <= t.len() {
        declaration_start(t.skip(annotation_len(t)))
    } else {
        t
    }
}

/// The declaration that `s` holds, up to the `=` that stands before any `{`; whole where no
/// such `=` stands.
pub open spec fn declaration_prefix(s: Seq<char>) -> Seq<char> {
    let d = declaration_start(s);
    let left = d.take(index_of(d, '{'));
    if index_of(left, '=') < left.len() {
        left.take(index_of(left, '='))
    } else {
        d
    }
}

proof fn lemma_closing(s: Seq<char>, i: int, depth: int)
    requires
        0 <= i <= s.len(),
    ensures
        i <= closing(s, i, depth) <= s.len(),
    decreases s.len() - i,
{
    if i < s.len() {
        if s[i] == '(' {
            lemma_closing(s, i + 1, depth + 1);
        } else if s[i] == ')' {
            if depth > 1 {
                lemma_closing(s, i + 1, depth - 1);
            }
        } else {
            lemma_closing(s, i + 1, depth);
        }
    }
}

/// Where the bracket that stands open at `i` is closed.
fn find_closing(s: &[char], from: usize) -> (r: usize)
    requires
        1 <= from <= s@.len(),
    ensures
        r == closing(s@, from as int, 1),
        from <= r <= s@.len(),
{
    let mut i: usize = from;
    let mut depth: usize = 1;
    proof {
        lemma_closing(s@, from as int, 1);
    }
    while i < s.len()
        invariant
            1 <= from <= i <= s.len(),
            1 <= depth <= i - from + 1,
            closing(s@, i as int, depth as int) == closing(s@, from as int, 1),
        decreases s@.len() - i,
    {
        if s[i] == '(' {
            depth += 1;
        } else if s[i] == ')' {
            if depth == 1 {
                return i + 1;
            }
            depth -= 1;
        }
        i += 1;
    }
    i
}

/// How much of `s` is white space and annotations.
fn declaration_offset(s: &[char]) -> (r: usize)
    ensures
        r <= s@.len(),
        s@.skip(r as int) == declaration_start(s@),
{
    let n: usize = s.len();
    let mut at: usize = 0;
    assert(s@.skip(0) =~= s@);
    loop
        invariant
            n == s@.len(),
            at <= n,
            declaration_start(s@.skip(at as int)) == declaration_start(s@),
        decreases n - at,
    {
        let ghost rest = s@.skip(at as int);
        let here = slice_of(s, at, n);
        assert(here@ =~= rest);
        let sp: usize = leading_space(here.as_slice());
        let t = slice_of(here.as_slice(), sp, here.len());
        assert(t@ =~= trim_start(rest));
        assert(t@ =~= s@.skip(at + sp));
        if t.len() == 0 || t[0] != '@' {
            return at + sp;
        }
        let tail = slice_of(t.as_slice(), 1, t.len());
        assert(tail@ =~= t@.skip(1));
        let mut k: usize = 0;
        while k < tail.len() && (is_id_char(tail[k]) || tail[k] == '.' || tail[k] == ':')
            invariant
                k <= tail@.len(),
                forall|j: int| 0 <= j < k ==> annotation_chars()(tail@[j]),
            decreases tail@.len() - k,
        {
            k += 1;
        }
        proof {
            lemma_leading(tail@, annotation_chars(), k as int);
        }
        let mut len: usize = k + 1;
        if len < t.len() && t[len] == '(' {
            len = find_closing(t.as_slice(), len + 1);
        }
        assert(len == annotation_len(t@));
        at = at + sp + len;
        assert(t@.skip(len as int) =~= s@.skip(at as int));
    }
}

/// String-analysis methods.
pub trait StrExt {
    /// The text the methods speak of.
    spec fn chars_view(&self) -> Seq<char>;

    /// Whether the text starts with an uppercase letter.
    fn starts_with_uppercase(&self) -> (r: bool)
        ensures
            r == (self.chars_view().len() > 0 && upper_char(self.chars_view()[0])),
    ;

    /// Whether the text starts with a lowercase letter.
    fn starts_with_lowercase(&self) -> (r: bool)
        ensures
            r == (self.chars_view().len() > 0 && lower_char(self.chars_view()[0])),
    ;

    /// The leading identifier: `"foo.bar()"` gives `"foo"`.
    fn ident_prefix(&self) -> (r: String)
        ensures
            r@ == self.chars_view().take(leading(self.chars_view(), word_chars()) as int),
    ;

    /// The leading dotted identifier: `"foo.Bar.baz()"` gives `"foo.Bar.baz"`.
    fn dotted_ident_prefix(&self) -> (r: String)
        ensures
            r@ == self.chars_view().take(leading(self.chars_view(), dotted_chars()) as int),
    ;

    /// The last segment of a dotted path: `"com.example.Foo"` gives `"Foo"`.
    fn last_segment(&self) -> (r: &str)
        ensures
            r@ == last_segment_of(self.chars_view()),
    ;

    /// The identifier at the end: `"foo.barBaz"` gives `"barBaz"`, `"foo.bar("` gives `""`.
    fn last_ident_in(&self) -> (r: &str)
        ensures
            r@ == self.chars_view().skip(
                self.chars_view().len() - trailing(self.chars_view(), word_chars()),
            ),
    ;

    /// The declaration prefix, without leading white space and annotations.
    fn decl_prefix(&self) -> (r: &str)
        ensures
            r@ == declaration_prefix(self.chars_view()),
    ;
}

impl StrExt for str {
    open spec fn chars_view(&self) -> Seq<char> {
        self@
    }

    fn starts_with_uppercase(&self) -> (r: bool) {
        let v = chars_of(self);
        v.len() > 0 && v[0].is_uppercase()
    }

    fn starts_with_lowercase(&self) -> (r: bool) {
        let v = chars_of(self);
        v.len() > 0 && v[0].is_lowercase()
    }

    fn ident_prefix(&self) -> (r: String) {
        let v = chars_of(self);
        let n: usize = leading_word(v.as_slice());
        let head = slice_of(v.as_slice(), 0, n);
        assert(head@ =~= self@.take(n as int));
        crate::text::string_of(head.as_slice())
    }

    fn dotted_ident_prefix(&self) -> (r: String) {
        let v = chars_of(self);
        let mut n: usize = 0;
        while n < v.len() && (is_id_char(v[n]) || v[n] == '.')
            invariant
                n <= v@.len(),
                forall|j: int| 0 <= j < n ==> dotted_chars()(v@[j]),
            decreases v@.len() - n,
        {
            n += 1;
        }
        proof {
            lemma_leading(v@, dotted_chars(), n as int);
        }
        let head = slice_of(v.as_slice(), 0, n);
        assert(head@ =~= self@.take(n as int));
        crate::text::string_of(head.as_slice())
    }

    fn last_segment(&self) -> (r: &str) {
        let v = chars_of(self);
        let n: usize = find_last(v.as_slice(), '.');
        let r = self.substring_char(n, v.len());
        assert(r@ =~= last_segment_of(self@));
        r
    }

    fn last_ident_in(&self) -> (r: &str) {
        let v = chars_of(self);
        let mut n: usize = v.len();
        while n > 0 && is_id_char(v[n - 1])
            invariant
                n <= v@.len(),
                forall|j: int| n <= j < v@.len() ==> word_chars()(v@[j]),
            decreases n,
        {
            n -= 1;
        }
        proof {
            lemma_trailing(v@, word_chars(), v@.len() - n);
        }
        let r = self.substring_char(n, v.len());
        assert(r@ =~= self@.skip(n as int));
        r
    }

    fn decl_prefix(&self) -> (r: &str) {
        let v = chars_of(self);
        let from: usize = declaration_offset(v.as_slice());
        let d = slice_of(v.as_slice(), from, v.len());
        assert(d@ =~= declaration_start(self@));
        let brace: usize = find_char(d.as_slice(), '{');
        let left = slice_of(d.as_slice(), 0, brace);
        assert(left@ =~= d@.take(brace as int));
        let eq: usize = find_char(left.as_slice(), '=');
        let to: usize = if eq < left.len() {
            from + eq
        } else {
            v.len()
        };
        let r = self.substring_char(from, to);
        assert(r@ =~= declaration_prefix(self@));
        r
    }
}

} // verus!
