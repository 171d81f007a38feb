//! What holds of looking a declaration up in source lines.
use vstd::prelude::*;

use super::declarations::{
    annotates, declaration, declared_at, declared_in, ends_with_word, in_lambda_head, introduces,
    DECLARING_WORDS,
};
use crate::chars::{space_char, word_char};
use crate::semantic_tokens::source::utf16_len;
use crate::text::{lemma_trailing, spaces, starts_with, trim_end, trim_start};
use crate::text_laws::{blank, held_texts, lemma_trimmed_start, trimming_the_end, trimming_the_start};
use crate::types::{Position, Range};

verus! {

/// The text is one of the words that introduce a declared name.
pub open spec fn is_declaring_word(word: Seq<char>) -> bool {
    word == "val"@ || word == "var"@ || word == "fun"@ || word == "class"@ || word == "interface"@
        || word == "object"@ || word == "typealias"@
}

/// The text ends with a word that introduces a declared name, and white space.
pub open spec fn ends_with_declaring_word(s: Seq<char>) -> bool {
    exists|x: Seq<char>, word: Seq<char>, gap: Seq<char>|
        #![trigger is_declaring_word(word), x + word + gap]
        s == x + word + gap && is_declaring_word(word) && gap.len() > 0 && blank(gap) && !(x.len()
            > 0 && word_char(x.last()))
}

/// The text begins, behind white space, with a colon that is no double colon.
pub open spec fn begins_with_colon(s: Seq<char>) -> bool {
    exists|gap: Seq<char>, rest: Seq<char>|
        #![trigger gap + seq![':'] + rest]
        s == gap + seq![':'] + rest && blank(gap) && !(rest.len() > 0 && rest[0] == ':')
}

/// The text ends with a brace or a comma, and perhaps white space.
pub open spec fn ends_with_brace_or_comma(s: Seq<char>) -> bool {
    exists|x: Seq<char>, c: char, gap: Seq<char>|
        #![trigger x.push(c) + gap]
        s == x.push(c) + gap && blank(gap) && (c == '{' || c == ',')
}

/// The text begins, behind white space, with an arrow.
pub open spec fn begins_with_arrow(s: Seq<char>) -> bool {
    exists|gap: Seq<char>, rest: Seq<char>|
        #![trigger gap + "->"@ + rest]
        s == gap + "->"@ + rest && blank(gap)
}

proof fn lemma_trimmed_end_is(head: Seq<char>, gap: Seq<char>)
    requires
        blank(gap),
        head.len() > 0 ==> !space_char(head.last()),
    ensures
        trim_end(head + gap) == head,
{
    let s = head + gap;
    assert forall|i: int| s.len() - gap.len() <= i < s.len() implies (spaces())(
        #[trigger] s[i],
    ) by {
        assert(s[i] == gap[i - head.len()]);
    }
    if head.len() > 0 {
        assert(s[head.len() - 1] == head.last());
    }
    lemma_trailing(s, spaces(), gap.len() as int);
    assert(trim_end(s) =~= head);
}

proof fn lemma_words()
    ensures
        forall|k: int| 0 <= k < 7 ==> is_declaring_word(#[trigger] DECLARING_WORDS@[k]@),
        forall|word: Seq<char>| #[trigger]
            is_declaring_word(word) ==> word.len() > 0 && !space_char(word.last()) && exists|k: int|
                0 <= k < 7 && #[trigger] DECLARING_WORDS@[k]@ == word,
{
    assert(DECLARING_WORDS@[0]@ == "val"@);
    assert(DECLARING_WORDS@[1]@ == "var"@);
    assert(DECLARING_WORDS@[2]@ == "fun"@);
    assert(DECLARING_WORDS@[3]@ == "class"@);
    assert(DECLARING_WORDS@[4]@ == "interface"@);
    assert(DECLARING_WORDS@[5]@ == "object"@);
    assert(DECLARING_WORDS@[6]@ == "typealias"@);
    reveal_strlit("val");
    reveal_strlit("var");
    reveal_strlit("fun");
    reveal_strlit("class");
    reveal_strlit("interface");
    reveal_strlit("object");
    reveal_strlit("typealias");
}

/// The words that introduce a declared name are these seven, as whole words before white space.
pub proof fn names_are_introduced_by_these_words(before: Seq<char>)
    ensures
        introduces(before) <==> ends_with_declaring_word(before),
{
    lemma_words();
    trimming_the_end(before);
    let head = trim_end(before);
    let gap = choose|b: Seq<char>| #[trigger] blank(b) && before == head + b;
    if introduces(before) {
        let k = choose|k: int| 0 <= k < 7 && ends_with_word(head, #[trigger] DECLARING_WORDS@[k]@);
        let word = DECLARING_WORDS@[k]@;
        let x = head.take(head.len() - word.len());
        assert(is_declaring_word(word));
        assert(head =~= x + word) by {
            let n = head.len() - word.len();
            assert(head.subrange(n, n + word.len()) == word);
            assert(head.skip(n) =~= word);
            assert(head =~= x + head.skip(n));
        }
        assert(before =~= x + word + gap);
        if x.len() > 0 {
            assert(x.last() == head[head.len() - word.len() - 1]);
        }
        assert(ends_with_declaring_word(before));
    }
    if ends_with_declaring_word(before) {
        let (x, word, g) = choose|x: Seq<char>, word: Seq<char>, gap: Seq<char>|
            #![trigger is_declaring_word(word), x + word + gap]
            before == x + word + gap && is_declaring_word(word) && gap.len() > 0 && blank(gap)
                && !(x.len() > 0 && word_char(x.last()));
        assert((x + word).last() == word.last());
        lemma_trimmed_end_is(x + word, g);
        assert(head == x + word);
        let n = x.len() as int;
        assert(head.subrange(n, n + word.len() as int) =~= word);
        let k = choose|k: int| 0 <= k < 7 && #[trigger] DECLARING_WORDS@[k]@ == word;
        if n > 0 {
            assert(head[n - 1] == x.last());
        }
        assert(ends_with_word(head, DECLARING_WORDS@[k]@));
    }
}

/// A type annotation is a colon, behind white space, that is no double colon.
pub proof fn annotations_begin_with_a_colon(rest: Seq<char>)
    ensures
        annotates(rest) <==> begins_with_colon(rest),
{
    trimming_the_start(rest);
    let t = trim_start(rest);
    let gap = choose|a: Seq<char>| #[trigger] blank(a) && rest == a + t;
    if annotates(rest) {
        let tail = t.skip(1);
        assert(t =~= seq![':'] + tail);
        assert(rest =~= gap + seq![':'] + tail);
        if tail.len() > 0 {
            assert(tail[0] == t[1]);
        }
    }
    if begins_with_colon(rest) {
        let (g, tail) = choose|gap: Seq<char>, tail: Seq<char>|
            #![trigger gap + seq![':'] + tail]
            rest == gap + seq![':'] + tail && blank(gap) && !(tail.len() > 0 && tail[0] == ':');
        let u = seq![':'] + tail;
        assert(g + seq![':'] + tail =~= g + u);
        lemma_trimmed_start(g, u);
        assert(t == u);
        if tail.len() > 0 {
            assert(u[1] == tail[0]);
        }
    }
}

/// The parameters of a lambda stand behind its brace or a comma, and before its arrow.
pub proof fn lambda_parameters_stand_before_the_arrow(before: Seq<char>, rest: Seq<char>)
    ensures
        in_lambda_head(before) <==> ends_with_brace_or_comma(before),
        starts_with(trim_start(rest), "->"@) <==> begins_with_arrow(rest),
{
    reveal_strlit("->");
    trimming_the_end(before);
    let head = trim_end(before);
    let gap = choose|b: Seq<char>| #[trigger] blank(b) && before == head + b;
    if in_lambda_head(before) {
        let x = head.drop_last();
        assert(head =~= x.push(head.last()));
        assert(before == x.push(head.last()) + gap);
    }
    if ends_with_brace_or_comma(before) {
        let (x, c, g) = choose|x: Seq<char>, c: char, gap: Seq<char>|
            #![trigger x.push(c) + gap]
            before == x.push(c) + gap && blank(gap) && (c == '{' || c == ',');
        lemma_trimmed_end_is(x.push(c), g);
    }
    trimming_the_start(rest);
    let t = trim_start(rest);
    let front = choose|a: Seq<char>| #[trigger] blank(a) && rest == a + t;
    held_texts(t, "->"@);
    if starts_with(t, "->"@) {
        let b = choose|b: Seq<char>| t == #[trigger] ("->"@ + b);
        assert(front + ("->"@ + b) =~= front + "->"@ + b);
        assert(rest == front + "->"@ + b);
    }
    if begins_with_arrow(rest) {
        let (g, tail) = choose|gap: Seq<char>, tail: Seq<char>|
            #![trigger gap + "->"@ + tail]
            rest == gap + "->"@ + tail && blank(gap);
        assert(g + "->"@ + tail =~= g + ("->"@ + tail));
        lemma_trimmed_start(g, "->"@ + tail);
        assert(t == "->"@ + tail);
    }
}

/// A name is declared exactly where it stands as a whole word, is no member of something else,
/// and stands behind a word that introduces it, before a type annotation, or as a parameter of a
/// lambda.
pub proof fn names_are_declared_like_this(
    before: Seq<char>,
    name: Seq<char>,
    behind: Seq<char>,
)
    requires
        name.len() > 0,
    ensures
        declared_at(before + name + behind, name, before.len() as int) <==> !(before.len() > 0 && (
        word_char(before.last()) || before.last() == '.')) && !(behind.len() > 0 && word_char(
            behind[0],
        )) && (ends_with_declaring_word(before) || begins_with_colon(behind) || (
        ends_with_brace_or_comma(before) && begins_with_arrow(behind))),
{
    let line = before + name + behind;
    let i = before.len() as int;
    assert(line.take(i) =~= before);
    assert(line.skip(i + name.len()) =~= behind);
    assert(line.subrange(i, i + name.len() as int) =~= name);
    if i > 0 {
        assert(line[i - 1] == before.last());
    }
    if behind.len() > 0 {
        assert(line[i + name.len()] == behind[0]);
    }
    names_are_introduced_by_these_words(before);
    annotations_begin_with_a_colon(behind);
    lambda_parameters_stand_before_the_arrow(before, behind);
}

proof fn lemma_declared_in(line: Seq<char>, name: Seq<char>, i: int)
    requires
        0 <= i,
    ensures
        match declared_in(line, name, i) {
            Some(k) => i <= k < line.len() && declared_at(line, name, k) && forall|j: int|
                i <= j < k ==> !#[trigger] declared_at(line, name, j),
            None => forall|j: int| i <= j < line.len() ==> !#[trigger] declared_at(line, name, j),
        },
    decreases line.len() - i,
{
    if i < line.len() && !declared_at(line, name, i) {
        lemma_declared_in(line, name, i + 1);
        match declared_in(line, name, i) {
            Some(k) => {
                assert forall|j: int| i <= j < k implies !#[trigger] declared_at(line, name, j) by {
                    if j > i {
                    }
                }
            },
            None => {
                assert forall|j: int| i <= j < line.len() implies !#[trigger] declared_at(
                    line,
                    name,
                    j,
                ) by {
                    if j > i {
                    }
                }
            },
        }
    }
}

/// Place `i` of line `k` is where the name is first declared: line after line, and in each from
/// the left.
pub open spec fn is_first_declaration(lines: Seq<Seq<char>>, name: Seq<char>, k: int, i: int) -> bool {
    &&& 0 <= k < lines.len()
    &&& declared_at(lines[k], name, i)
    &&& forall|j: int| 0 <= j < i ==> !#[trigger] declared_at(lines[k], name, j)
    &&& forall|m: int, j: int| 0 <= m < k && 0 <= j ==> !#[trigger] declared_at(lines[m], name, j)
}

proof fn lemma_declaration(lines: Seq<Seq<char>>, name: Seq<char>, k: int)
    requires
        0 <= k <= lines.len(),
        forall|m: int, j: int| 0 <= m < k && 0 <= j ==> !#[trigger] declared_at(lines[m], name, j),
    ensures
        match declaration(lines, name, k) {
            Some(range) => exists|m: int, i: int| #[trigger]
                is_first_declaration(lines, name, m, i) && range == (Range {
                    start: Position {
                        line: m as u32,
                        character: utf16_len(lines[m].take(i)) as u32,
                    },
                    end: Position {
                        line: m as u32,
                        character: utf16_len(lines[m].take(i + name.len())) as u32,
                    },
                }),
            None => forall|m: int, j: int|
                0 <= m < lines.len() && 0 <= j ==> !#[trigger] declared_at(lines[m], name, j),
        },
    decreases lines.len() - k,
{
    if k < lines.len() {
        lemma_declared_in(lines[k], name, 0);
        match declared_in(lines[k], name, 0) {
            Some(i) => {
                assert(is_first_declaration(lines, name, k, i));
            },
            None => {
                assert forall|m: int, j: int| 0 <= m < k + 1 && 0 <= j implies !#[trigger] declared_at(
                    lines[m],
                    name,
                    j,
                ) by {
                    if m == k && declared_at(lines[k], name, j) {
                        assert(j < lines[k].len());
                    }
                }
                lemma_declaration(lines, name, k + 1);
            },
        }
    }
}

/// A name that the lines declare anywhere is found, at the first place where they do; the range
/// is that of the name, counted in UTF-16 units. A name that they do not declare is not found.
pub proof fn the_first_declaration_is_found(lines: Seq<Seq<char>>, name: Seq<char>)
    ensures
        match declaration(lines, name, 0) {
            Some(range) => exists|k: int, i: int| #[trigger]
                is_first_declaration(lines, name, k, i) && range == (Range {
                    start: Position {
                        line: k as u32,
                        character: utf16_len(lines[k].take(i)) as u32,
                    },
                    end: Position {
                        line: k as u32,
                        character: utf16_len(lines[k].take(i + name.len())) as u32,
                    },
                }),
            None => forall|k: int, i: int|
                0 <= k < lines.len() && 0 <= i ==> !#[trigger] declared_at(lines[k], name, i),
        },
{
    lemma_declaration(lines, name, 0);
}

} // verus!
