//! Putting classified tokens in order, cutting them to a range, and delta-encoding them.
use vstd::prelude::*;

use crate::types::{Position, Range};

verus! {

/// A classified token, at its own place.
#[derive(Debug, Clone, Copy, PartialEq, Eq, Structural)]
pub struct RawToken {
    pub line: u32,
    /// UTF-16 column.
    pub col: u32,
    pub length: u32,
    pub token_type: u32,
    pub token_modifiers_bitset: u32,
}

/// A classified token, placed relative to the one before it.
#[derive(Debug, Clone, Copy, PartialEq, Eq, Structural)]
pub struct SemanticToken {
    /// Lines after the previous token.
    pub delta_line: u32,
    /// Columns after the previous token on the same line, else the column itself.
    pub delta_start: u32,
    pub length: u32,
    pub token_type: u32,
    pub token_modifiers_bitset: u32,
}

/// The tokens as each phase found them.
pub struct TokenPhases {
    /// Declarations, soft keywords and labels.
    pub phase1: Vec<RawToken>,
    /// Parameter use-sites.
    pub phase1b: Vec<RawToken>,
    /// References resolved against the index.
    pub phase2: Vec<RawToken>,
}

/// `a` stands before `b`.
pub open spec fn before(a: RawToken, b: RawToken) -> bool {
    a.line < b.line || (a.line == b.line && a.col < b.col)
}

/// The two stand at the same place.
pub open spec fn same_place(a: RawToken, b: RawToken) -> bool {
    a.line == b.line && a.col == b.col
}

/// Each token stands before all that follow it.
pub open spec fn in_order(s: Seq<RawToken>) -> bool {
    forall|i: int, j: int| 0 <= i < j < s.len() ==> before(#[trigger] s[i], #[trigger] s[j])
}

/// No token stands before one that precedes it.
pub open spec fn sorted(s: Seq<RawToken>) -> bool {
    forall|i: int, j: int| 0 <= i < j < s.len() ==> !before(#[trigger] s[j], #[trigger] s[i])
}

/// The ordered tokens with `t` in its place; without it where one already stands there.
pub open spec fn placed(s: Seq<RawToken>, t: RawToken) -> Seq<RawToken>
    decreases s.len(),
{
    if s.len() == 0 {
        seq![t]
    } else if before(s.last(), t) {
        s.push(t)
    } else if same_place(s.last(), t) {
        s
    } else {
        placed(s.drop_last(), t).push(s.last())
    }
}

/// The tokens in order, of those at one place the first.
pub open spec fn arranged(raw: Seq<RawToken>) -> Seq<RawToken>
    decreases raw.len(),
{
    if raw.len() == 0 {
        Seq::empty()
    } else {
        placed(arranged(raw.drop_last()), raw.last())
    }
}

/// The token lies within the range.
pub open spec fn lies_in(t: RawToken, range: Range) -> bool {
    &&& range.start.line <= t.line <= range.end.line
    &&& t.line > range.start.line || t.col >= range.start.character
    &&& t.line < range.end.line || t.col + t.length <= range.end.character
}

/// Lying within the range, where one is given.
pub open spec fn wanted(range: Option<Range>) -> spec_fn(RawToken) -> bool {
    |t: RawToken| range matches Some(r) ==> lies_in(t, r)
}

/// Where the token before number `i` stands; the first is placed relative to the start.
pub open spec fn place_before(s: Seq<RawToken>, i: int) -> Position {
    if i <= 0 {
        Position { line: 0, character: 0 }
    } else {
        Position { line: s[i - 1].line, character: s[i - 1].col }
    }
}

/// The token relative to the place of the one before it.
pub open spec fn relative(prev: Position, t: RawToken) -> SemanticToken {
    SemanticToken {
        delta_line: (t.line - prev.line) as u32,
        delta_start: if t.line == prev.line {
            (t.col - prev.character) as u32
        } else {
            t.col
        },
        length: t.length,
        token_type: t.token_type,
        token_modifiers_bitset: t.token_modifiers_bitset,
    }
}

/// Each token relative to the one before it.
pub open spec fn encoded(s: Seq<RawToken>) -> Seq<SemanticToken> {
    Seq::new(s.len(), |i: int| relative(place_before(s, i), s[i]))
}

/// The token that stands relative to `prev`.
pub open spec fn resolved(prev: Position, e: SemanticToken) -> RawToken {
    RawToken {
        line: (prev.line + e.delta_line) as u32,
        col: if e.delta_line == 0 {
            (prev.character + e.delta_start) as u32
        } else {
            e.delta_start
        },
        length: e.length,
        token_type: e.token_type,
        token_modifiers_bitset: e.token_modifiers_bitset,
    }
}

/// The tokens that the encoded ones stand for, read from the first on as an editor does.
pub open spec fn decoded(e: Seq<SemanticToken>) -> Seq<RawToken>
    decreases e.len(),
{
    if e.len() == 0 {
        Seq::empty()
    } else {
        let done = decoded(e.drop_last());
        done.push(resolved(place_before(done, done.len() as int), e.last()))
    }
}

/// Encoding loses nothing: reading sorted tokens back gives them again.
pub proof fn encode_then_decode(s: Seq<RawToken>)
    requires
        sorted(s),
    ensures
        decoded(encoded(s)) == s,
    decreases s.len(),
{
    if s.len() > 0 {
        let t = s.drop_last();
        encode_then_decode(t);
        assert(encoded(s).drop_last() =~= encoded(t));
        if t.len() > 0 {
            assert(!before(s[s.len() - 1], s[s.len() - 2]));
        }
        assert(decoded(encoded(s)) =~= s);
    }
}

proof fn lemma_placed(s: Seq<RawToken>, t: RawToken)
    requires
        in_order(s),
    ensures
        in_order(placed(s, t)),
        forall|x: RawToken| #[trigger]
            placed(s, t).contains(x) ==> s.contains(x) || x == t,
        forall|x: RawToken| #[trigger] s.contains(x) ==> placed(s, t).contains(x),
        exists|x: RawToken| #[trigger] placed(s, t).contains(x) && same_place(x, t),
        (exists|x: RawToken| #[trigger] s.contains(x) && same_place(x, t)) ==> placed(s, t) == s,
        (forall|x: RawToken| #[trigger] s.contains(x) ==> !same_place(x, t)) ==> placed(
            s,
            t,
        ).contains(t),
    decreases s.len(),
{
    let r = placed(s, t);
    if s.len() == 0 {
        assert(r[0] == t);
        assert(r.contains(t));
    } else if before(s.last(), t) {
        assert(r[s.len() as int] == t);
        assert(r.contains(t) && same_place(t, t));
        assert forall|x: RawToken| #[trigger] s.contains(x) implies r.contains(x) by {
            let i = s.index_of(x);
            assert(r[i] == x);
        }
        assert forall|x: RawToken| #[trigger] r.contains(x) implies s.contains(x) || x == t by {
            let i = r.index_of(x);
            if i < s.len() {
                assert(s[i] == x);
            }
        }
        assert forall|x: RawToken| #[trigger] s.contains(x) implies !same_place(x, t) by {
            let i = s.index_of(x);
            if i < s.len() - 1 {
                assert(before(s[i], s[s.len() - 1]));
            }
        }
        assert forall|i: int, j: int| 0 <= i < j < r.len() implies before(
            #[trigger] r[i],
            #[trigger] r[j],
        ) by {
            if j == s.len() && i < s.len() - 1 {
                assert(before(s[i], s[s.len() - 1]));
            }
        }
    } else if same_place(s.last(), t) {
        assert(s[s.len() - 1] == s.last());
        assert(s.contains(s.last()));
    } else {
        let d = s.drop_last();
        assert(in_order(d));
        lemma_placed(d, t);
        let p = placed(d, t);
        let l = s.last();
        assert forall|x: RawToken| #[trigger] p.contains(x) implies before(x, l) by {
            if d.contains(x) {
                let i = d.index_of(x);
                assert(s[i] == x);
                assert(before(s[i], s[s.len() - 1]));
            }
        }
        assert forall|i: int, j: int| 0 <= i < j < r.len() implies before(
            #[trigger] r[i],
            #[trigger] r[j],
        ) by {
            if j < p.len() {
                assert(before(p[i], p[j]));
            } else {
                assert(p.contains(p[i]));
            }
        }
        assert forall|x: RawToken| #[trigger] p.contains(x) implies r.contains(x) by {
            let i = p.index_of(x);
            assert(r[i] == x);
        }
        assert(r[p.len() as int] == l);
        assert forall|x: RawToken| #[trigger] s.contains(x) implies r.contains(x) by {
            let i = s.index_of(x);
            if i < d.len() {
                assert(d[i] == x);
                assert(d.contains(x));
            }
        }
        assert forall|x: RawToken| #[trigger] r.contains(x) implies s.contains(x) || x == t by {
            let i = r.index_of(x);
            if i < p.len() {
                assert(p[i] == x);
                assert(p.contains(x));
                if d.contains(x) {
                    let k = d.index_of(x);
                    assert(s[k] == x);
                }
            } else {
                assert(s[s.len() - 1] == l);
            }
        }
        if exists|x: RawToken| #[trigger] s.contains(x) && same_place(x, t) {
            let x = choose|x: RawToken| #[trigger] s.contains(x) && same_place(x, t);
            let i = s.index_of(x);
            assert(i < d.len());
            assert(d[i] == x);
            assert(d.contains(x));
            assert(p == d);
            assert(r =~= s);
        }
        if forall|x: RawToken| #[trigger] s.contains(x) ==> !same_place(x, t) {
            assert forall|x: RawToken| #[trigger] d.contains(x) implies !same_place(x, t) by {
                let i = d.index_of(x);
                assert(s[i] == x);
                assert(s.contains(x));
            }
        }
        let y = choose|x: RawToken| #[trigger] p.contains(x) && same_place(x, t);
        assert(r.contains(y));
    }
}

/// Ordered tokens stand at strictly growing places.
pub proof fn arranged_is_in_order(raw: Seq<RawToken>)
    ensures
        in_order(arranged(raw)),
    decreases raw.len(),
{
    if raw.len() > 0 {
        arranged_is_in_order(raw.drop_last());
        lemma_placed(arranged(raw.drop_last()), raw.last());
    }
}

/// `raw[k]` is the first of the tokens at its place.
pub open spec fn first_at_place(raw: Seq<RawToken>, k: int) -> bool {
    0 <= k < raw.len() && forall|m: int| 0 <= m < k ==> !same_place(#[trigger] raw[m], raw[k])
}

/// Ordering takes exactly the first token of every place, so an earlier phase wins over a
/// later one.
pub proof fn arranged_takes_the_first(raw: Seq<RawToken>)
    ensures
        forall|k: int| #[trigger] first_at_place(raw, k) ==> arranged(raw).contains(raw[k]),
        forall|x: RawToken| #[trigger]
            arranged(raw).contains(x) ==> exists|k: int| #[trigger]
                first_at_place(raw, k) && raw[k] == x,
    decreases raw.len(),
{
    if raw.len() > 0 {
        let head = raw.drop_last();
        let t = raw.last();
        let s = arranged(head);
        let r = arranged(raw);
        arranged_takes_the_first(head);
        arranged_is_in_order(head);
        lemma_placed(s, t);
        assert forall|k: int| #[trigger] first_at_place(raw, k) implies r.contains(raw[k]) by {
            if k < head.len() {
                assert forall|m: int| 0 <= m < k implies !same_place(
                    #[trigger] head[m],
                    head[k],
                ) by {
                    assert(raw[m] == head[m]);
                }
                assert(first_at_place(head, k));
            } else {
                assert forall|x: RawToken| #[trigger] s.contains(x) implies !same_place(x, t) by {
                    let m = choose|m: int| #[trigger] first_at_place(head, m) && head[m] == x;
                    assert(raw[m] == x);
                }
            }
        }
        assert forall|x: RawToken| #[trigger] r.contains(x) implies exists|k: int| #[trigger]
            first_at_place(raw, k) && raw[k] == x by {
            if s.contains(x) {
                let m = choose|m: int| #[trigger] first_at_place(head, m) && head[m] == x;
                assert(first_at_place(raw, m)) by {
                    assert forall|l: int| 0 <= l < m implies !same_place(
                        #[trigger] raw[l],
                        raw[m],
                    ) by {
                        assert(head[l] == raw[l]);
                    }
                }
                assert(raw[m] == x);
            } else {
                let k = raw.len() - 1;
                if !first_at_place(raw, k) {
                    let l = choose|l: int| 0 <= l < k && same_place(#[trigger] raw[l], raw[k]);
                    assert(head[l] == raw[l]);
                    lemma_first_at_place(head, t);
                    let m = choose|m: int| #[trigger]
                        first_at_place(head, m) && same_place(head[m], t);
                    assert(s.contains(head[m]) && same_place(head[m], t));
                    assert(r == s);
                }
                assert(first_at_place(raw, k) && raw[k] == x);
            }
        }
    }
}

/// Where some token stands at the place of `t`, there is a first such.
proof fn lemma_first_at_place(raw: Seq<RawToken>, t: RawToken)
    requires
        exists|m: int| 0 <= m < raw.len() && same_place(#[trigger] raw[m], t),
    ensures
        exists|m: int| #[trigger] first_at_place(raw, m) && same_place(raw[m], t),
    decreases raw.len(),
{
    let head = raw.drop_last();
    if exists|m: int| 0 <= m < head.len() && same_place(#[trigger] head[m], t) {
        lemma_first_at_place(head, t);
        let m = choose|m: int| #[trigger] first_at_place(head, m) && same_place(head[m], t);
        assert forall|l: int| 0 <= l < m implies !same_place(#[trigger] raw[l], raw[m]) by {
            assert(head[l] == raw[l]);
        }
        assert(first_at_place(raw, m) && same_place(raw[m], t));
    } else {
        let k = raw.len() - 1;
        let m = choose|m: int| 0 <= m < raw.len() && same_place(#[trigger] raw[m], t);
        if m < k {
            assert(head[m] == raw[m]);
        }
        assert forall|l: int| 0 <= l < k implies !same_place(#[trigger] raw[l], raw[k]) by {
            assert(head[l] == raw[l]);
            assert(!same_place(head[l], t));
        }
        assert(first_at_place(raw, k) && same_place(raw[k], t));
    }
}

/// What is left of ordered tokens is in order.
proof fn lemma_filter_in_order(s: Seq<RawToken>, p: spec_fn(RawToken) -> bool)
    requires
        in_order(s),
    ensures
        in_order(s.filter(p)),
        forall|x: RawToken| #[trigger] s.filter(p).contains(x) ==> s.contains(x),
    decreases s.len(),
{
    reveal(Seq::filter);
    if s.len() > 0 {
        let d = s.drop_last();
        assert(in_order(d));
        lemma_filter_in_order(d, p);
        let f = d.filter(p);
        let r = s.filter(p);
        assert forall|x: RawToken| #[trigger] f.contains(x) implies before(x, s.last())
            && s.contains(x) by {
            let i = d.index_of(x);
            assert(d.contains(x));
            assert(s[i] == x);
            assert(before(s[i], s[s.len() - 1]));
        }
        assert(s[s.len() - 1] == s.last());
        assert forall|x: RawToken| #[trigger] r.contains(x) implies s.contains(x) by {
            let i = r.index_of(x);
            if i < f.len() {
                assert(f[i] == x);
                assert(f.contains(x));
            }
        }
        assert forall|i: int, j: int| 0 <= i < j < r.len() implies before(
            #[trigger] r[i],
            #[trigger] r[j],
        ) by {
            assert(f.contains(f[i]));
            if j < f.len() {
                assert(before(f[i], f[j]));
            }
        }
    }
}

/// `placed` inserts before the tokens that `t` stands before.
proof fn lemma_placed_at(s: Seq<RawToken>, t: RawToken, i: int)
    requires
        0 <= i <= s.len(),
        forall|j: int| i <= j < s.len() ==> before(t, #[trigger] s[j]),
        i > 0 ==> !before(t, s[i - 1]),
    ensures
        placed(s, t) == (if i > 0 && same_place(s[i - 1], t) {
            s
        } else {
            s.insert(i, t)
        }),
    decreases s.len(),
{
    if i < s.len() {
        lemma_placed_at(s.drop_last(), t, i);
        assert(before(t, s[s.len() - 1]));
        assert(s =~= s.drop_last().push(s.last()));
        assert(s.insert(i, t) =~= s.drop_last().insert(i, t).push(s.last()));
    } else {
        assert(s.insert(i, t) =~= s.push(t));
    }
}

/// Puts `t` in its place, unless a token already stands there.
fn place(sorted: &mut Vec<RawToken>, t: RawToken)
    ensures
        final(sorted)@ == placed(old(sorted)@, t),
{
    let mut i: usize = sorted.len();
    while i > 0 && (t.line < sorted[i - 1].line || (t.line == sorted[i - 1].line && t.col
        < sorted[i - 1].col))
        invariant
            i <= sorted@.len(),
            sorted@ == old(sorted)@,
            forall|j: int| i <= j < sorted@.len() ==> before(t, #[trigger] sorted@[j]),
        decreases i,
    {
        i -= 1;
    }
    proof {
        lemma_placed_at(sorted@, t, i as int);
    }
    if i > 0 && sorted[i - 1].line == t.line && sorted[i - 1].col == t.col {
        return;
    }
    sorted.insert(i, t);
}

/// The tokens in order, of those at one place the first.
pub fn arrange(raw: &[RawToken]) -> (r: Vec<RawToken>)
    ensures
        r@ == arranged(raw@),
{
    let mut r: Vec<RawToken> = Vec::new();
    assert(raw@.take(0) =~= Seq::<RawToken>::empty());
    for i in 0..raw.len()
        invariant
            r@ == arranged(raw@.take(i as int)),
    {
        assert(raw@.take(i + 1).drop_last() =~= raw@.take(i as int));
        place(&mut r, raw[i]);
    }
    assert(raw@.take(raw@.len() as int) =~= raw@);
    r
}

/// Delta-encodes sorted tokens.
pub fn delta_encode(tokens: &[RawToken]) -> (r: Vec<SemanticToken>)
    requires
        sorted(tokens@),
    ensures
        r@ == encoded(tokens@),
{
    let mut r: Vec<SemanticToken> = Vec::new();
    let mut prev_line: u32 = 0;
    let mut prev_start: u32 = 0;
    for i in 0..tokens.len()
        invariant
            sorted(tokens@),
            r@ == encoded(tokens@).take(i as int),
            place_before(tokens@, i as int) == (Position {
                line: prev_line,
                character: prev_start,
            }),
    {
        let tok = tokens[i];
        assert(i > 0 ==> !before(tokens@[i as int], tokens@[i - 1]));
        let delta_line: u32 = tok.line - prev_line;
        let delta_start: u32 = if delta_line == 0 {
            tok.col - prev_start
        } else {
            tok.col
        };
        r.push(
            SemanticToken {
                delta_line,
                delta_start,
                length: tok.length,
                token_type: tok.token_type,
                token_modifiers_bitset: tok.token_modifiers_bitset,
            },
        );
        assert(encoded(tokens@).take(i + 1) =~= encoded(tokens@).take(i as int).push(
            encoded(tokens@)[i as int],
        ));
        prev_line = tok.line;
        prev_start = tok.col;
    }
    assert(encoded(tokens@).take(tokens@.len() as int) =~= encoded(tokens@));
    r
}

/// Whether the token lies within the range.
fn is_in(t: &RawToken, range: &Range) -> (r: bool)
    ensures
        r == lies_in(*t, *range),
{
    t.line >= range.start.line && t.line <= range.end.line && (t.line > range.start.line || t.col
        >= range.start.character) && (t.line < range.end.line || t.col as u64 + t.length as u64
        <= range.end.character as u64)
}

/// Orders the tokens, keeps those within the range where one is given, and delta-encodes them.
pub fn encode_tokens(raw: &[RawToken], range: Option<&Range>) -> (r: Vec<SemanticToken>)
    ensures
        r@ == encoded(
            arranged(raw@).filter(
                wanted(
                    match range {
                        Some(range) => Some(*range),
                        None => None,
                    },
                ),
            ),
        ),
{
    let sorted = arrange(raw);
    let ghost limit = match range {
        Some(range) => Some(*range),
        None => None,
    };
    let mut kept: Vec<RawToken> = Vec::new();
    proof {
        reveal(Seq::filter);
        assert(sorted@.take(0).filter(wanted(limit)) =~= Seq::empty());
    }
    for i in 0..sorted.len()
        invariant
            limit == (match range {
                Some(range) => Some(*range),
                None => None,
            }),
            kept@ == sorted@.take(i as int).filter(wanted(limit)),
    {
        proof {
            reveal(Seq::filter);
            assert(sorted@.take(i + 1).drop_last() =~= sorted@.take(i as int));
        }
        let keep = match range {
            Some(range) => is_in(&sorted[i], range),
            None => true,
        };
        if keep {
            kept.push(sorted[i]);
        }
    }
    assert(sorted@.take(sorted@.len() as int) =~= sorted@);
    proof {
        arranged_is_in_order(raw@);
        lemma_filter_in_order(sorted@, wanted(limit));
    }
    delta_encode(kept.as_slice())
}

impl TokenPhases {
    /// The tokens of all phases, one phase after another.
    pub open spec fn all(&self) -> Seq<RawToken> {
        self.phase1@ + self.phase1b@ + self.phase2@
    }

    /// The tokens of all phases, one phase after another.
    pub fn merged(&self) -> (r: Vec<RawToken>)
        ensures
            r@ == self.all(),
    {
        let mut raw: Vec<RawToken> = Vec::new();
        push_tokens(&mut raw, self.phase1.as_slice());
        push_tokens(&mut raw, self.phase1b.as_slice());
        push_tokens(&mut raw, self.phase2.as_slice());
        assert(raw@ =~= self.all());
        raw
    }

    /// The tokens of all phases in order; where two stand at one place, that of the earlier
    /// phase.
    pub fn final_tokens(&self) -> (r: Vec<RawToken>)
        ensures
            r@ == arranged(self.all()),
    {
        arrange(self.merged().as_slice())
    }
}

/// Adds the tokens to the end.
fn push_tokens(out: &mut Vec<RawToken>, more: &[RawToken])
    ensures
        final(out)@ == old(out)@ + more@,
{
    let ghost start = out@;
    for i in 0..more.len()
        invariant
            out@ == start + more@.take(i as int),
    {
        out.push(more[i]);
        assert(start + more@.take(i + 1) =~= (start + more@.take(i as int)).push(more@[i as int]));
    }
    assert(more@.take(more@.len() as int) =~= more@);
}

/// The encoded tokens of a document: those of all its phases, within the range where one is
/// given.
pub fn collect_tokens(phases: &TokenPhases, range: Option<&Range>) -> (r: Vec<SemanticToken>)
    ensures
        range is None ==> r@ == encoded(arranged(phases.all())),
        r@ == encoded(
            arranged(phases.all()).filter(
                wanted(
                    match range {
                        Some(range) => Some(*range),
                        None => None,
                    },
                ),
            ),
        ),
{
    proof {
        every_token_is_wanted(arranged(phases.all()));
    }
    encode_tokens(phases.merged().as_slice(), range)
}

/// Without a range all tokens are wanted.
pub proof fn every_token_is_wanted(s: Seq<RawToken>)
    ensures
        s.filter(wanted(None)) == s,
    decreases s.len(),
{
    reveal(Seq::filter);
    if s.len() > 0 {
        every_token_is_wanted(s.drop_last());
        assert(s =~= s.drop_last().push(s.last()));
    }
}

/// Reading back what is sent for a document gives its tokens within the range, in order, and
/// no two of them stand at one place.
pub proof fn sent_tokens_are_read_back(raw: Seq<RawToken>, range: Option<Range>)
    ensures
        decoded(encoded(arranged(raw).filter(wanted(range)))) == arranged(raw).filter(
            wanted(range),
        ),
        in_order(decoded(encoded(arranged(raw).filter(wanted(range))))),
{
    arranged_is_in_order(raw);
    lemma_filter_in_order(arranged(raw), wanted(range));
    encode_then_decode(arranged(raw).filter(wanted(range)));
}

} // verus!
