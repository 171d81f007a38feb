//! The regular expressions handed to ripgrep.
use vstd::prelude::*;

use crate::chars::{is_id_char, word_char};
use crate::text::chars_of;

verus! {

/// Supported file extensions for indexing and searching.
pub const SOURCE_EXTENSIONS: [&'static str; 3] = ["kt", "java", "swift"];

/// What may stand before the name in a declaration: the keywords of Kotlin, Java and Swift,
/// the receiver of an extension function, and modifiers before a type keyword.
pub const DECLARATION_HEAD: &'static str = r"(?:(?:class|struct|interface|object|protocol|fun|func|val|var|let|typealias|enum\s+class)\s+|fun\s+\w[\w.]*\.|(?:public|private|protected|fileprivate|open|internal|static|abstract|final|\s)+(?:enum|class|struct|protocol)\s+|extension\s+)";

/// The character as a regular expression that matches it alone.
pub open spec fn escaped_char(c: char) -> Seq<char> {
    if word_char(c) {
        seq![c]
    } else {
        seq!['\\', c]
    }
}

/// The text as a regular expression that matches it alone.
pub open spec fn escaped(s: Seq<char>) -> Seq<char>
    decreases s.len(),
{
    if s.len() == 0 {
        Seq::empty()
    } else {
        escaped(s.drop_last()) + escaped_char(s.last())
    }
}

/// The text that an escaped text stands for.
pub open spec fn unescaped(s: Seq<char>) -> Seq<char>
    decreases s.len(),
{
    if s.len() == 0 {
        Seq::empty()
    } else if s[0] == '\\' && s.len() > 1 {
        seq![s[1]] + unescaped(s.skip(2))
    } else {
        seq![s[0]] + unescaped(s.skip(1))
    }
}

/// The pattern of the declaration sites of `name`.
pub open spec fn declaration_pattern(name: Seq<char>) -> Seq<char> {
    DECLARATION_HEAD@ + escaped(name) + r"\b"@
}

/// The pattern of `name` behind the qualifier `parent`.
pub open spec fn qualified_pattern(parent: Seq<char>, name: Seq<char>) -> Seq<char> {
    r"\b"@ + escaped(parent) + r"\.\b"@ + escaped(name) + r"\b"@
}

/// The pattern of an import of `name` from `parent`, or of everything in it.
pub open spec fn direct_import_pattern(parent: Seq<char>, name: Seq<char>) -> Seq<char> {
    r"import[^\n]*\b"@ + escaped(parent) + r"\.(?:"@ + escaped(name) + r"\b|\*)"@
}

/// The pattern of an import of `name` from the package, or of everything in it.
pub open spec fn package_import_pattern(package: Seq<char>, name: Seq<char>) -> Seq<char> {
    r"import[^\n]*\b"@ + escaped(package) + r"\b[^\n]*\b"@ + escaped(name)
        + r"\b|import[^\n]*\b"@ + escaped(package) + r"\b\.\*"@
}

/// The pattern of the declaration of the package.
pub open spec fn package_pattern(package: Seq<char>) -> Seq<char> {
    r"^\s*package\s+"@ + escaped(package) + r"\s*$"@
}

/// The pattern of the whole word.
pub open spec fn mention_pattern(word: Seq<char>) -> Seq<char> {
    r"\b"@ + escaped(word) + r"\b"@
}

/// An identifier is its own pattern.
pub proof fn identifiers_need_no_escape(s: Seq<char>)
    requires
        forall|i: int| 0 <= i < s.len() ==> word_char(#[trigger] s[i]),
    ensures
        escaped(s) == s,
    decreases s.len(),
{
    if s.len() > 0 {
        identifiers_need_no_escape(s.drop_last());
        assert(s =~= s.drop_last() + seq![s.last()]);
    }
}

/// Escaping the characters one after another is escaping the text.
proof fn lemma_escaped_front(s: Seq<char>)
    requires
        s.len() > 0,
    ensures
        escaped(s) == escaped_char(s[0]) + escaped(s.skip(1)),
    decreases s.len(),
{
    if s.len() == 1 {
        assert(s.drop_last() =~= Seq::<char>::empty());
        assert(s.skip(1) =~= Seq::<char>::empty());
        assert(escaped(s) =~= escaped_char(s[0]) + escaped(s.skip(1)));
    } else {
        lemma_escaped_front(s.drop_last());
        assert(s.drop_last().skip(1) =~= s.skip(1).drop_last());
        assert(escaped(s) =~= escaped_char(s[0]) + escaped(s.skip(1)));
    }
}

/// Escaping loses nothing: taking the backslashes away again gives the text.
pub proof fn escape_then_unescape(s: Seq<char>)
    ensures
        unescaped(escaped(s)) == s,
    decreases s.len(),
{
    if s.len() > 0 {
        lemma_escaped_front(s);
        let rest = s.skip(1);
        escape_then_unescape(rest);
        let e = escaped(s);
        if word_char(s[0]) {
            assert(e.skip(1) =~= escaped(rest));
        } else {
            assert(e.skip(2) =~= escaped(rest));
        }
        assert(s =~= seq![s[0]] + rest);
    }
}

/// Escapes a string for use as a regex literal: every character but letters, digits and `_`
/// gets a backslash.
pub fn regex_escape(s: &str) -> (r: String)
    ensures
        r@ == escaped(s@),
{
    let v = chars_of(s);
    let mut r = String::new();
    assert(v@.take(0) =~= Seq::<char>::empty());
    for i in 0..v.len()
        invariant
            r@ == escaped(v@.take(i as int)),
    {
        let c = v[i];
        assert(v@.take(i + 1).drop_last() =~= v@.take(i as int));
        let ghost before = r@;
        if !is_id_char(c) {
            r.push('\\');
        }
        r.push(c);
        assert(r@ =~= before + escaped_char(c));
    }
    assert(v@.take(v@.len() as int) =~= v@);
    r
}

/// The pattern that ripgrep finds the declaration sites of `name` with.
pub fn build_rg_pattern(name: &str) -> (r: String)
    ensures
        r@ == declaration_pattern(name@),
{
    let mut r = DECLARATION_HEAD.to_owned();
    r.append(regex_escape(name).as_str());
    r.append(r"\b");
    r
}

} // verus!
