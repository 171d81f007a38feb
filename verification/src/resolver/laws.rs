//! What holds of imports, completion matching and types read off source lines.
use vstd::prelude::*;

use super::imports::{
    after_last_line, candidates_of, files_of, import_line, imports_name, insertion_line, names_type,
    package_len, package_line, package_of, qualifier_of, segments, stems_of, type_names,
};
use super::infer::{
    annotated, arguments_end, assigned, call_type, dotted_len, element_of, given_type,
    holds_elements, inferred, line_type, lines_type, name_at, type_at, type_of, ELEMENT_TYPES,
};
use super::matching::{acronym, behind_at, in_capitals, score, without_underscore};
use crate::chars::{space_char, upper_char, word_char};
use crate::rg::find::lower_case;
use crate::rg::find_laws::holds;
use crate::rg::pattern::SOURCE_EXTENSIONS;
use crate::str_ext::dotted_chars;
use crate::text::{join, lemma_leading, lemma_trailing, other_than, split_on};
use crate::text_laws::{blank, held_texts, lemma_trimmed_start, words_begin_behind_white_space};
use crate::types::{last_segment_of, ImportEntry};

verus! {

/// The name begins with an uppercase letter.
pub open spec fn begins_upper(s: Seq<char>) -> bool {
    s.len() > 0 && upper_char(s[0])
}

proof fn lemma_package_len(parts: Seq<Seq<char>>)
    ensures
        package_len(parts) <= parts.len(),
        forall|i: int| 0 <= i < package_len(parts) ==> !begins_upper(#[trigger] parts[i]),
        package_len(parts) < parts.len() ==> begins_upper(parts[package_len(parts) as int]),
    decreases parts.len(),
{
    if parts.len() > 0 && !begins_upper(parts[0]) {
        let t = parts.skip(1);
        lemma_package_len(t);
        assert forall|i: int| 0 <= i < package_len(parts) implies !begins_upper(
            #[trigger] parts[i],
        ) by {
            if i > 0 {
                assert(t[i - 1] == parts[i]);
            }
        }
    }
}

/// The package of a path is made of its segments before the first that begins with an uppercase
/// letter.
pub proof fn packages_end_before_the_first_type(path: Seq<char>)
    ensures
        segments(path) == split_on(path, '.'),
        exists|n: int|
            #![trigger split_on(path, '.').take(n)]
            0 <= n <= split_on(path, '.').len() && (forall|i: int|
                0 <= i < n ==> !begins_upper(#[trigger] split_on(path, '.')[i])) && (n < split_on(
                path,
                '.',
            ).len() ==> begins_upper(split_on(path, '.')[n])) && package_of(path) == join(
                split_on(path, '.').take(n),
                seq!['.'],
            ),
{
    lemma_package_len(segments(path));
    let n = package_len(segments(path)) as int;
    let head = split_on(path, '.').take(n);
    assert(package_of(path) == join(head, seq!['.']));
}

/// Of a path `qualifier.name` the qualifier and the name; of a name alone there is no
/// qualifier.
pub proof fn paths_have_a_qualifier_and_a_name(qualifier: Seq<char>, name: Seq<char>)
    requires
        !name.contains('.'),
    ensures
        qualifier_of(qualifier + seq!['.'] + name) == qualifier,
        last_segment_of(qualifier + seq!['.'] + name) == name,
        qualifier_of(name).len() == 0,
        last_segment_of(name) == name,
{
    let s = qualifier + seq!['.'] + name;
    let f = other_than('.');
    assert forall|i: int| s.len() - name.len() <= i < s.len() implies f(#[trigger] s[i]) by {
        assert(s[i] == name[i - qualifier.len() - 1]);
        assert(name.contains(s[i]));
    }
    assert(s[qualifier.len() as int] == '.');
    lemma_trailing(s, f, name.len() as int);
    assert(qualifier_of(s) =~= qualifier);
    assert(last_segment_of(s) =~= name);
    assert forall|i: int| 0 <= i < name.len() implies f(#[trigger] name[i]) by {
        assert(name.contains(name[i]));
    }
    lemma_trailing(name, f, name.len() as int);
    assert(last_segment_of(name) =~= name);
}

proof fn lemma_candidates_of(stems: Seq<Seq<char>>, file: Seq<char>)
    ensures
        candidates_of(stems).contains(file) <==> exists|i: int|
            0 <= i < stems.len() && files_of(#[trigger] stems[i]).contains(file),
    decreases stems.len(),
{
    if stems.len() > 0 {
        let d = stems.drop_last();
        lemma_candidates_of(d, file);
        let a = candidates_of(d);
        let b = files_of(stems.last());
        let all = candidates_of(stems);
        assert(all == a + b);
        if all.contains(file) {
            let k = all.index_of(file);
            if k < a.len() {
                assert(a[k] == file);
                let i = choose|i: int| 0 <= i < d.len() && files_of(#[trigger] d[i]).contains(file);
                assert(stems[i] == d[i]);
            } else {
                assert(b[k - a.len()] == file);
                assert(stems[stems.len() - 1] == stems.last());
            }
        }
        if exists|i: int| 0 <= i < stems.len() && files_of(#[trigger] stems[i]).contains(file) {
            let i = choose|i: int|
                0 <= i < stems.len() && files_of(#[trigger] stems[i]).contains(file);
            if i < d.len() {
                assert(d[i] == stems[i]);
                assert(all[a.index_of(file)] == file);
            } else {
                assert(all[a.len() + b.index_of(file)] == file);
            }
        }
    }
}

/// An imported symbol may stand in the Kotlin, Java or Swift file named like one of the stems.
pub proof fn stems_have_a_file_of_each_language(stems: Seq<Seq<char>>, file: Seq<char>)
    ensures
        candidates_of(stems).contains(file) <==> exists|i: int|
            0 <= i < stems.len() && (file == (#[trigger] stems[i]).push('.') + "kt"@ || file
                == stems[i].push('.') + "java"@ || file == stems[i].push('.') + "swift"@),
{
    lemma_candidates_of(stems, file);
    assert(SOURCE_EXTENSIONS@[0]@ == "kt"@);
    assert(SOURCE_EXTENSIONS@[1]@ == "java"@);
    assert(SOURCE_EXTENSIONS@[2]@ == "swift"@);
    assert forall|i: int| 0 <= i < stems.len() implies (files_of(#[trigger] stems[i]).contains(file)
        <==> (file == stems[i].push('.') + "kt"@ || file == stems[i].push('.') + "java"@ || file
        == stems[i].push('.') + "swift"@)) by {
        let f = files_of(stems[i]);
        assert(f[0] == stems[i].push('.') + "kt"@);
        assert(f[1] == stems[i].push('.') + "java"@);
        assert(f[2] == stems[i].push('.') + "swift"@);
        if f.contains(file) {
            let k = f.index_of(file);
            assert(f[k] == file);
        }
    }
}

/// The stems of a path are the last two of its segments that begin with an uppercase letter, in
/// their order, or as many as there are.
pub proof fn stems_are_the_innermost_types(path: Seq<char>)
    ensures
        ({
            let types = split_on(path, '.').filter(|s: Seq<char>| begins_upper(s));
            stems_of(path) == (if types.len() <= 2 {
                types
            } else {
                seq![types[types.len() - 2], types[types.len() - 1]]
            })
        }),
{
    let f = |s: Seq<char>| begins_upper(s);
    let types = split_on(path, '.').filter(f);
    assert(type_names() =~= f);
    assert(segments(path).filter(type_names()) == types);
    if types.len() > 2 {
        assert(stems_of(path) =~= seq![types[types.len() - 2], types[types.len() - 1]]);
    }
}

/// A name is imported by a star import of its qualifier, or by an import of exactly that path
/// under its own name.
pub proof fn names_are_imported_by_star_or_by_path(
    entry: ImportEntry,
    qualifier: Seq<char>,
    name: Seq<char>,
)
    requires
        !name.contains('.'),
    ensures
        entry.is_star ==> (imports_name(entry, qualifier + seq!['.'] + name)
            <==> entry.full_path@ == qualifier),
        !entry.is_star ==> (imports_name(entry, qualifier + seq!['.'] + name)
            <==> entry.full_path@ == qualifier + seq!['.'] + name && entry.local_name@ == name),
{
    paths_have_a_qualifier_and_a_name(qualifier, name);
}

/// An import covers a symbol of a package as a star import of that package, or as an import
/// whose path begins with the package and ends with the symbol.
#[verifier::rlimit(40)]
pub proof fn imports_cover_their_package(
    entry: ImportEntry,
    package: Seq<char>,
    middle: Seq<char>,
    name: Seq<char>,
)
    requires
        !name.contains('.'),
    ensures
        entry.is_star ==> (entry.covers_spec(package, name) <==> entry.full_path@ == package),
        !entry.is_star && entry.full_path@ == package + seq!['.'] + name ==> entry.covers_spec(
            package,
            name,
        ),
        !entry.is_star && entry.full_path@ == package + seq!['.'] + middle + seq!['.'] + name
            ==> entry.covers_spec(package, name),
        !entry.is_star && entry.covers_spec(package, name) ==> (exists|rest: Seq<char>|
            entry.full_path@ == #[trigger] (package + seq!['.'] + rest)) && last_segment_of(
            entry.full_path@,
        ) == name,
{
    let path = entry.full_path@;
    let head = package.push('.');
    held_texts(path, head);
    paths_have_a_qualifier_and_a_name(package, name);
    paths_have_a_qualifier_and_a_name(package + seq!['.'] + middle, name);
    if path == package + seq!['.'] + name {
        assert(path =~= head + name);
    }
    if path == package + seq!['.'] + middle + seq!['.'] + name {
        assert(path =~= head + (middle + seq!['.'] + name));
    }
    if !entry.is_star && entry.covers_spec(package, name) {
        let b = choose|b: Seq<char>| path == #[trigger] (head + b);
        assert(path =~= package + seq!['.'] + b);
    }
}

proof fn lemma_after_last_line(lines: Seq<Seq<char>>, imports: bool)
    ensures
        after_last_line(lines, imports) <= lines.len(),
        after_last_line(lines, imports) > 0 ==> (if imports {
            import_line(lines[after_last_line(lines, imports) - 1])
        } else {
            package_line(lines[after_last_line(lines, imports) - 1])
        }),
        forall|i: int|
            after_last_line(lines, imports) <= i < lines.len() ==> !(if imports {
                import_line(#[trigger] lines[i])
            } else {
                package_line(lines[i])
            }),
    decreases lines.len(),
{
    if lines.len() > 0 {
        let d = lines.drop_last();
        lemma_after_last_line(d, imports);
        let n = after_last_line(lines, imports);
        if n > 0 && n < lines.len() {
            assert(d[n - 1] == lines[n - 1]);
        }
        assert forall|i: int| n <= i < lines.len() implies !(if imports {
            import_line(#[trigger] lines[i])
        } else {
            package_line(lines[i])
        }) by {
            if i < d.len() {
                assert(d[i] == lines[i]);
            }
        }
    }
}

/// An import goes right behind the last import; where there is none, right behind the last
/// package declaration; and to the top of a file with neither.
pub proof fn imports_go_behind_the_last_import(lines: Seq<Seq<char>>, k: int)
    requires
        0 <= k < lines.len(),
    ensures
        import_line(lines[k]) && (forall|i: int|
            k < i < lines.len() ==> !import_line(#[trigger] lines[i])) ==> insertion_line(lines)
            == k + 1,
        (forall|i: int| 0 <= i < lines.len() ==> !import_line(#[trigger] lines[i]))
            && package_line(lines[k]) && (forall|i: int|
            k < i < lines.len() ==> !package_line(#[trigger] lines[i])) ==> insertion_line(lines)
            == k + 1,
        (forall|i: int|
            0 <= i < lines.len() ==> !import_line(#[trigger] lines[i]) && !package_line(lines[i]))
            ==> insertion_line(lines) == 0,
{
    lemma_after_last_line(lines, true);
    lemma_after_last_line(lines, false);
    let a = after_last_line(lines, true) as int;
    let b = after_last_line(lines, false) as int;
    if import_line(lines[k]) && (forall|i: int|
        k < i < lines.len() ==> !import_line(#[trigger] lines[i])) {
        assert(k < a);
        assert(import_line(lines[a - 1]));
        assert(a - 1 == k);
    }
    if (forall|i: int| 0 <= i < lines.len() ==> !import_line(#[trigger] lines[i])) {
        if a > 0 {
            assert(import_line(lines[a - 1]));
        }
        if package_line(lines[k]) && (forall|i: int|
            k < i < lines.len() ==> !package_line(#[trigger] lines[i])) {
            assert(!import_line(lines[k]));
            assert(k < b);
            assert(package_line(lines[b - 1]));
            assert(b - 1 == k);
        }
    }
    if (forall|i: int|
        0 <= i < lines.len() ==> !import_line(#[trigger] lines[i]) && !package_line(lines[i])) {
        if a > 0 {
            assert(import_line(lines[a - 1]));
        }
        if b > 0 {
            assert(package_line(lines[b - 1]));
            assert(!import_line(lines[b - 1]));
        }
    }
}

/// Imports and package declarations begin their lines, behind white space.
pub proof fn import_and_package_lines(line: Seq<char>)
    ensures
        import_line(line) <==> exists|a: Seq<char>, b: Seq<char>|
            #![trigger a + "import "@ + b]
            blank(a) && line == a + "import "@ + b,
        package_line(line) <==> exists|a: Seq<char>, b: Seq<char>|
            #![trigger a + "package "@ + b]
            blank(a) && line == a + "package "@ + b,
{
    reveal_strlit("import ");
    reveal_strlit("package ");
    words_begin_behind_white_space(line, "import "@);
    words_begin_behind_white_space(line, "package "@);
}

/// How well typed text matches a name: best where the name begins with it, whatever the case;
/// then where the first letter and the uppercase letters of the name do; then where the name
/// holds it, whatever the case; and else not at all.
pub proof fn typed_text_matches_like_this(name: Seq<char>, typed: Seq<char>)
    ensures
        ({
            let begins = exists|b: Seq<char>| lower_case(name) == #[trigger] (lower_case(typed) + b);
            let letters = exists|b: Seq<char>|
                acronym(without_underscore(name)) == #[trigger] (typed + b);
            &&& begins ==> score(name, typed) == Some(0u8)
            &&& !begins && letters ==> score(name, typed) == Some(1u8)
            &&& !begins && !letters && holds(lower_case(name), lower_case(typed)) ==> score(
                name,
                typed,
            ) == Some(2u8)
            &&& !begins && !letters && !holds(lower_case(name), lower_case(typed)) ==> score(
                name,
                typed,
            ) is None
        }),
{
    held_texts(lower_case(name), lower_case(typed));
    held_texts(acronym(without_underscore(name)), typed);
}

/// The letters a name is known by: its first character, and behind it the uppercase ones, in
/// their order. One underscore before the name does not count.
pub proof fn names_are_known_by_these_letters(name: Seq<char>, c: char)
    ensures
        acronym(Seq::empty()).len() == 0,
        acronym(seq![c]) == seq![c],
        name.len() > 0 ==> acronym(name.push(c)) == (if upper_char(c) {
            acronym(name).push(c)
        } else {
            acronym(name)
        }),
        without_underscore(seq!['_'] + name) == name,
        name.len() > 0 && name[0] != '_' ==> without_underscore(name) == name,
{
    reveal(Seq::filter);
    assert(seq![c].skip(1) =~= Seq::<char>::empty());
    assert(acronym(seq![c]) =~= seq![c]);
    if name.len() > 0 {
        let t = name.skip(1);
        assert(name.push(c).skip(1) =~= t.push(c));
        assert(t.push(c).drop_last() =~= t);
        assert(name.push(c)[0] == name[0]);
        assert(acronym(name.push(c)) =~= (if upper_char(c) {
            acronym(name).push(c)
        } else {
            acronym(name)
        }));
    }
    assert((seq!['_'] + name).skip(1) =~= name);
}

/// A name is written in capitals where it holds an uppercase letter, and nothing but those,
/// digits and underscores.
pub proof fn capitals_digits_and_underscores(name: Seq<char>)
    ensures
        in_capitals(name) <==> (exists|i: int| 0 <= i < name.len() && upper_char(#[trigger] name[i]))
            && forall|i: int|
            0 <= i < name.len() ==> upper_char(#[trigger] name[i]) || ('0' <= name[i] && name[i]
                <= '9') || name[i] == '_',
{
}

/// Typed text is that of an annotation where it ends the line right behind an `@`.
pub proof fn annotations_stand_behind_an_at(before: Seq<char>, typed: Seq<char>, c: char)
    ensures
        behind_at(before.push(c) + typed, typed) <==> c == '@',
        !behind_at(typed, typed),
{
    let line = before.push(c) + typed;
    assert(line.skip(line.len() - typed.len()) =~= typed);
    assert(line[line.len() - typed.len() - 1] == c);
}

proof fn lemma_dotted_len(name: Seq<char>, rest: Seq<char>)
    requires
        forall|i: int| 0 <= i < name.len() ==> word_char(#[trigger] name[i]) || name[i] == '.',
        rest.len() > 0 ==> !word_char(rest[0]) && rest[0] != '.',
    ensures
        dotted_len(name + rest) == name.len(),
{
    let s = name + rest;
    assert forall|i: int| 0 <= i < name.len() implies (dotted_chars())(#[trigger] s[i]) by {
        assert(s[i] == name[i]);
    }
    if rest.len() > 0 {
        assert(s[name.len() as int] == rest[0]);
    }
    lemma_leading(s, dotted_chars(), name.len() as int);
}

proof fn lemma_angle_end_plain(s: Seq<char>, i: int, e: int)
    requires
        0 <= i <= e < s.len(),
        s[e] == '>',
        e > 0 ==> s[e - 1] != '-',
        forall|k: int| i <= k < e ==> #[trigger] s[k] != '<' && s[k] != '>',
    ensures
        super::infer::angle_end(s, i, 1) == Some(e + 1),
    decreases e - i,
{
    if i < e {
        assert(s[i] != '<' && s[i] != '>');
        lemma_angle_end_plain(s, i + 1, e);
    }
}

/// The characters are identifiers and dots.
pub open spec fn is_dotted(name: Seq<char>) -> bool {
    forall|i: int| 0 <= i < name.len() ==> word_char(#[trigger] name[i]) || name[i] == '.'
}

/// The type argument is a plain one, without arguments of its own.
pub open spec fn is_plain_argument(argument: Seq<char>) -> bool {
    &&& forall|i: int|
        0 <= i < argument.len() ==> #[trigger] argument[i] != '<' && argument[i] != '>'
    &&& !(argument.len() > 0 && argument.last() == '-')
}

/// A text that begins with a name is of that type, with the type arguments that follow it.
pub proof fn types_are_read_with_their_arguments(
    name: Seq<char>,
    argument: Seq<char>,
    rest: Seq<char>,
)
    requires
        name.len() > 0,
        is_dotted(name),
        is_plain_argument(argument),
    ensures
        rest.len() > 0 ==> (!word_char(rest[0]) && rest[0] != '.' && rest[0] != '<' ==> type_of(
            name + rest,
        ) == Some(name)),
        type_of(name) == Some(name),
        type_of(name + seq!['<'] + argument + seq!['>'] + rest) == Some(
            name + seq!['<'] + argument + seq!['>'],
        ),
{
    if rest.len() > 0 && !word_char(rest[0]) && rest[0] != '.' && rest[0] != '<' {
        lemma_dotted_len(name, rest);
        let s = name + rest;
        assert(s[name.len() as int] == rest[0]);
        assert(s.take(name.len() as int) =~= name);
    }
    lemma_dotted_len(name, Seq::empty());
    assert(name + Seq::<char>::empty() =~= name);
    assert(name.take(name.len() as int) =~= name);
    let n = name.len() as int;
    let tail = seq!['<'] + argument + seq!['>'] + rest;
    let s = name + seq!['<'] + argument + seq!['>'] + rest;
    assert(s =~= name + tail);
    assert(tail[0] == '<');
    lemma_dotted_len(name, tail);
    let e = n + 1 + argument.len();
    assert(s[n] == '<');
    assert(s[e] == '>');
    assert forall|k: int| n + 1 <= k < e implies #[trigger] s[k] != '<' && s[k] != '>' by {
        assert(s[k] == argument[k - n - 1]);
    }
    if argument.len() > 0 {
        assert(s[e - 1] == argument.last());
    }
    lemma_angle_end_plain(s, n + 1, e);
    assert(s.take(e + 1) =~= name + seq!['<'] + argument + seq!['>']);
}

/// An annotation behind a name gives it the type that the text behind the colon begins with.
pub proof fn annotations_give_the_type(
    gap: Seq<char>,
    inner: Seq<char>,
    text: Seq<char>,
)
    requires
        blank(gap),
        blank(inner),
        text.len() > 0,
        !space_char(text[0]),
        text[0] != ':',
    ensures
        annotated(gap + seq![':'] + (inner + text)) == type_of(text),
        given_type(gap + seq![':'] + (inner + text), false) == type_of(text),
{
    let t = seq![':'] + (inner + text);
    assert(gap + seq![':'] + (inner + text) =~= gap + t);
    lemma_trimmed_start(gap, t);
    assert(t.skip(1) =~= inner + text);
    lemma_trimmed_start(inner, text);
    if inner.len() > 0 {
        assert(t[1] == inner[0]);
        assert(space_char(inner[0]));
    } else {
        assert(t[1] == text[0]);
    }
}

/// A name that is assigned a call of a constructor is of the type that is constructed.
pub proof fn constructors_give_the_type(
    gap: Seq<char>,
    inner: Seq<char>,
    name: Seq<char>,
    rest: Seq<char>,
)
    requires
        blank(gap),
        blank(inner),
        name.len() > 0,
        is_dotted(name),
        begins_upper(name),
        !name.contains('.'),
        !space_char(name[0]),
        name[0] != '=',
    ensures
        given_type(gap + seq!['='] + (inner + (name + seq!['('] + rest)), true) == Some(name),
{
    let e = name + seq!['('] + rest;
    let t = seq!['='] + (inner + e);
    assert(e[0] == name[0]);
    assert(gap + seq!['='] + (inner + e) =~= gap + t);
    lemma_trimmed_start(gap, t);
    assert(t.skip(1) =~= inner + e);
    lemma_trimmed_start(inner, e);
    if inner.len() > 0 {
        assert(t[1] == inner[0]);
        assert(space_char(inner[0]));
    } else {
        assert(t[1] == e[0]);
    }
    assert(assigned(gap + t) == Some(e));
    let tail = seq!['('] + rest;
    assert(e =~= name + tail);
    assert(tail[0] == '(');
    lemma_dotted_len(name, tail);
    let n = name.len() as int;
    assert(e[n] == '(');
    assert(arguments_end(e, n) == n);
    assert(e.take(n) =~= name);
    paths_have_a_qualifier_and_a_name(Seq::empty(), name);
    assert(super::infer::leaf(name) =~= name) by {
        assert(last_segment_of(name) == name);
    }
    assert(super::infer::names_type(name));
    assert(call_type(e) == Some(name));
}

/// The name is that of a collection or stream with elements.
pub open spec fn is_element_type(base: Seq<char>) -> bool {
    base == "List"@ || base == "MutableList"@ || base == "Set"@ || base == "MutableSet"@ || base
        == "Collection"@ || base == "MutableCollection"@ || base == "Iterable"@ || base
        == "Sequence"@ || base == "Array"@ || base == "Flow"@ || base == "StateFlow"@ || base
        == "MutableStateFlow"@ || base == "SharedFlow"@ || base == "MutableSharedFlow"@
}

/// The elements of a collection or stream are of its type argument; no other type has any.
pub proof fn elements_are_of_the_type_argument(
    base: Seq<char>,
    argument: Seq<char>,
)
    requires
        base.len() > 0,
        is_dotted(base),
        is_plain_argument(argument),
    ensures
        is_element_type(base) ==> element_of(base + seq!['<'] + argument + seq!['>']) == Some(
            crate::text::trim(argument),
        ),
        !is_element_type(base) ==> element_of(base + seq!['<'] + argument + seq!['>']) is None,
        element_of(base) is None,
{
    assert(ELEMENT_TYPES@[0]@ == "List"@);
    assert(ELEMENT_TYPES@[1]@ == "MutableList"@);
    assert(ELEMENT_TYPES@[2]@ == "Set"@);
    assert(ELEMENT_TYPES@[3]@ == "MutableSet"@);
    assert(ELEMENT_TYPES@[4]@ == "Collection"@);
    assert(ELEMENT_TYPES@[5]@ == "MutableCollection"@);
    assert(ELEMENT_TYPES@[6]@ == "Iterable"@);
    assert(ELEMENT_TYPES@[7]@ == "Sequence"@);
    assert(ELEMENT_TYPES@[8]@ == "Array"@);
    assert(ELEMENT_TYPES@[9]@ == "Flow"@);
    assert(ELEMENT_TYPES@[10]@ == "StateFlow"@);
    assert(ELEMENT_TYPES@[11]@ == "MutableStateFlow"@);
    assert(ELEMENT_TYPES@[12]@ == "SharedFlow"@);
    assert(ELEMENT_TYPES@[13]@ == "MutableSharedFlow"@);
    assert(holds_elements(base) <==> is_element_type(base));
    let n = base.len() as int;
    let tail = seq!['<'] + argument + seq!['>'];
    let s = base + seq!['<'] + argument + seq!['>'];
    assert(s =~= base + tail);
    assert(tail[0] == '<');
    lemma_dotted_len(base, tail);
    let e = n + 1 + argument.len();
    assert(s[n] == '<' && s[e] == '>');
    assert forall|k: int| n + 1 <= k < e implies #[trigger] s[k] != '<' && s[k] != '>' by {
        assert(s[k] == argument[k - n - 1]);
    }
    if argument.len() > 0 {
        assert(s[e - 1] == argument.last());
    }
    lemma_angle_end_plain(s, n + 1, e);
    assert(arguments_end(s, n) == e + 1);
    assert(s.take(n) =~= base);
    assert(s.subrange(n + 1, e) =~= argument);
    lemma_dotted_len(base, Seq::empty());
    assert(base + Seq::<char>::empty() =~= base);
}

proof fn lemma_line_type(line: Seq<char>, name: Seq<char>, by_value: bool, i: int)
    requires
        0 <= i,
    ensures
        match line_type(line, name, by_value, i) {
            Some(t) => exists|k: int|
                i <= k < line.len() && #[trigger] type_at(line, name, by_value, k) == Some(t)
                    && forall|j: int|
                    i <= j < k ==> (#[trigger] type_at(line, name, by_value, j)) is None,
            None => forall|j: int|
                i <= j < line.len() ==> (#[trigger] type_at(line, name, by_value, j)) is None,
        },
    decreases line.len() - i,
{
    if i < line.len() && type_at(line, name, by_value, i) is None {
        lemma_line_type(line, name, by_value, i + 1);
        match line_type(line, name, by_value, i) {
            Some(t) => {
                let k = choose|k: int|
                    i + 1 <= k < line.len() && #[trigger] type_at(line, name, by_value, k) == Some(t)
                        && forall|j: int|
                        i + 1 <= j < k ==> (#[trigger] type_at(line, name, by_value, j)) is None;
                assert forall|j: int| i <= j < k implies (#[trigger] type_at(
                    line,
                    name,
                    by_value,
                    j,
                )) is None by {
                    if j > i {
                    }
                }
            },
            None => {
                assert forall|j: int| i <= j < line.len() implies (#[trigger] type_at(
                    line,
                    name,
                    by_value,
                    j,
                )) is None by {
                    if j > i {
                    }
                }
            },
        }
    } else if i < line.len() {
        assert(type_at(line, name, by_value, i) == line_type(line, name, by_value, i));
    }
}

/// Some line gives the name a type: by annotation, or by the value it is assigned.
pub open spec fn gives_type(lines: Seq<Seq<char>>, name: Seq<char>, by_value: bool) -> bool {
    exists|k: int, i: int|
        0 <= k < lines.len() && 0 <= i < lines[k].len() && (#[trigger] type_at(
            lines[k],
            name,
            by_value,
            i,
        )) is Some
}

proof fn lemma_lines_type(lines: Seq<Seq<char>>, name: Seq<char>, by_value: bool, k: int)
    requires
        0 <= k,
    ensures
        match lines_type(lines, name, by_value, k) {
            Some(t) => exists|m: int, i: int|
                k <= m < lines.len() && 0 <= i < lines[m].len() && #[trigger] type_at(
                    lines[m],
                    name,
                    by_value,
                    i,
                ) == Some(t),
            None => forall|m: int, i: int|
                k <= m < lines.len() && 0 <= i < lines[m].len() ==> (#[trigger] type_at(
                    lines[m],
                    name,
                    by_value,
                    i,
                )) is None,
        },
    decreases lines.len() - k,
{
    if k < lines.len() {
        lemma_line_type(lines[k], name, by_value, 0);
        if line_type(lines[k], name, by_value, 0) is None {
            lemma_lines_type(lines, name, by_value, k + 1);
            if lines_type(lines, name, by_value, k) is None {
                assert forall|m: int, i: int|
                    k <= m < lines.len() && 0 <= i < lines[m].len() implies (#[trigger] type_at(
                    lines[m],
                    name,
                    by_value,
                    i,
                )) is None by {
                    if m > k {
                    }
                }
            }
        }
    }
}

/// A name has a type where some line gives it one: that of an annotation where there is any,
/// else that of a value it is assigned.
pub proof fn names_have_the_type_a_line_gives_them(lines: Seq<Seq<char>>, name: Seq<char>)
    ensures
        inferred(lines, name) is Some <==> gives_type(lines, name, false) || gives_type(
            lines,
            name,
            true,
        ),
        inferred(lines, name) matches Some(t) ==> exists|k: int, i: int, by_value: bool|
            0 <= k < lines.len() && 0 <= i < lines[k].len() && #[trigger] type_at(
                lines[k],
                name,
                by_value,
                i,
            ) == Some(t) && by_value == !gives_type(lines, name, false),
{
    lemma_lines_type(lines, name, false, 0);
    lemma_lines_type(lines, name, true, 0);
    if lines_type(lines, name, false, 0) is Some {
        assert(gives_type(lines, name, false));
    } else {
        assert(!gives_type(lines, name, false));
        if lines_type(lines, name, true, 0) is Some {
            assert(gives_type(lines, name, true));
        } else {
            assert(!gives_type(lines, name, true));
        }
    }
}

/// A line gives a name a type where the name stands as a whole word, no member of something
/// else, and the text behind it gives it one.
pub proof fn names_stand_as_whole_words(
    before: Seq<char>,
    name: Seq<char>,
    behind: Seq<char>,
    by_value: bool,
)
    requires
        name.len() > 0,
    ensures
        name_at(before + name + behind, name, before.len() as int) <==> !(before.len() > 0 && (
        word_char(before.last()) || before.last() == '.')) && !(behind.len() > 0 && word_char(
            behind[0],
        )),
        type_at(before + name + behind, name, by_value, before.len() as int) == (if name_at(
            before + name + behind,
            name,
            before.len() as int,
        ) {
            given_type(behind, by_value)
        } else {
            None
        }),
{
    let line = before + name + behind;
    let i = before.len() as int;
    assert(line.skip(i + name.len()) =~= behind);
    assert(line.subrange(i, i + name.len() as int) =~= name);
    if i > 0 {
        assert(line[i - 1] == before.last());
    }
    if behind.len() > 0 {
        assert(line[i + name.len()] == behind[0]);
    }
}

/// A stretch without angle brackets changes nothing of where the arguments end.
proof fn lemma_angle_skip(s: Seq<char>, i: int, e: int, depth: int)
    requires
        0 <= i <= e <= s.len(),
        forall|k: int| i <= k < e ==> #[trigger] s[k] != '<' && s[k] != '>',
    ensures
        super::infer::angle_end(s, i, depth) == super::infer::angle_end(s, e, depth),
    decreases e - i,
{
    if i < e {
        assert(s[i] != '<' && s[i] != '>');
        lemma_angle_skip(s, i + 1, e, depth);
    }
}

/// A type argument may have arguments of its own; the type ends where its own bracket does.
#[verifier::rlimit(40)]
pub proof fn type_arguments_may_have_arguments(
    name: Seq<char>,
    outer: Seq<char>,
    inner: Seq<char>,
    last: Seq<char>,
    rest: Seq<char>,
)
    requires
        name.len() > 0,
        is_dotted(name),
        is_plain_argument(outer),
        is_plain_argument(inner),
        is_plain_argument(last),
    ensures
        type_of(
            name + seq!['<'] + outer + seq!['<'] + inner + seq!['>'] + last + seq!['>'] + rest,
        ) == Some(name + seq!['<'] + outer + seq!['<'] + inner + seq!['>'] + last + seq!['>']),
{
    let t = name + seq!['<'] + outer + seq!['<'] + inner + seq!['>'] + last + seq!['>'];
    let s = t + rest;
    let n = name.len() as int;
    let a = n + 1 + outer.len();
    let b = a + 1 + inner.len();
    let c = b + 1 + last.len();
    let tail = seq!['<'] + outer + seq!['<'] + inner + seq!['>'] + last + seq!['>'] + rest;
    assert(s =~= name + tail);
    assert(tail[0] == '<');
    lemma_dotted_len(name, tail);
    assert(s[n] == '<' && s[a] == '<' && s[b] == '>' && s[c] == '>');
    assert forall|k: int| n + 1 <= k < a implies #[trigger] s[k] != '<' && s[k] != '>' by {
        assert(s[k] == outer[k - n - 1]);
    }
    assert forall|k: int| a + 1 <= k < b implies #[trigger] s[k] != '<' && s[k] != '>' by {
        assert(s[k] == inner[k - a - 1]);
    }
    assert forall|k: int| b + 1 <= k < c implies #[trigger] s[k] != '<' && s[k] != '>' by {
        assert(s[k] == last[k - b - 1]);
    }
    if inner.len() > 0 {
        assert(s[b - 1] == inner.last());
    }
    if last.len() > 0 {
        assert(s[c - 1] == last.last());
    }
    lemma_angle_skip(s, n + 1, a, 1);
    lemma_angle_skip(s, a + 1, b, 2);
    lemma_angle_skip(s, b + 1, c, 1);
    reveal_with_fuel(super::infer::angle_end, 2);
    assert(super::infer::angle_end(s, c, 1) == Some(c + 1));
    assert(super::infer::angle_end(s, b, 2) == super::infer::angle_end(s, b + 1, 1));
    assert(super::infer::angle_end(s, a, 1) == super::infer::angle_end(s, a + 1, 2));
    assert(arguments_end(s, n) == c + 1);
    assert(s.take(c + 1) =~= t);
}

proof fn lemma_arguments(name: Seq<char>, argument: Seq<char>, rest: Seq<char>)
    requires
        is_dotted(name),
        is_plain_argument(argument),
    ensures
        ({
            let s = name + seq!['<'] + argument + seq!['>'] + rest;
            let n = name.len() as int;
            &&& dotted_len(s) == n
            &&& arguments_end(s, n) == n + argument.len() + 2
            &&& s.take(n) == name
            &&& s.subrange(n + 1, n + 1 + argument.len()) == argument
            &&& s.take(n + argument.len() + 2) == name + seq!['<'] + argument + seq!['>']
        }),
{
    let n = name.len() as int;
    let tail = seq!['<'] + argument + seq!['>'] + rest;
    let s = name + seq!['<'] + argument + seq!['>'] + rest;
    assert(s =~= name + tail);
    assert(tail[0] == '<');
    lemma_dotted_len(name, tail);
    let e = n + 1 + argument.len();
    assert(s[n] == '<' && s[e] == '>');
    assert forall|k: int| n + 1 <= k < e implies #[trigger] s[k] != '<' && s[k] != '>' by {
        assert(s[k] == argument[k - n - 1]);
    }
    if argument.len() > 0 {
        assert(s[e - 1] == argument.last());
    }
    lemma_angle_end_plain(s, n + 1, e);
    assert(s.take(n) =~= name);
    assert(s.subrange(n + 1, e) =~= argument);
    assert(s.take(e + 1) =~= name + seq!['<'] + argument + seq!['>']);
}

/// The type of a call: that of the constructor with its type arguments, where a type is called;
/// else the type argument of the call, where it names a type.
pub proof fn calls_with_type_arguments(name: Seq<char>, argument: Seq<char>, rest: Seq<char>)
    requires
        name.len() > 0,
        is_dotted(name),
        !name.contains('.'),
        is_plain_argument(argument),
    ensures
        begins_upper(name) ==> call_type(
            name + seq!['<'] + argument + seq!['>'] + (seq!['('] + rest),
        ) == Some(name + seq!['<'] + argument + seq!['>']),
        !begins_upper(name) && begins_upper(crate::text::trim(argument)) ==> call_type(
            name + seq!['<'] + argument + seq!['>'] + (seq!['('] + rest),
        ) == Some(crate::text::trim(argument)),
        !begins_upper(name) && !begins_upper(crate::text::trim(argument)) ==> call_type(
            name + seq!['<'] + argument + seq!['>'] + (seq!['('] + rest),
        ) is None,
{
    let tail = seq!['('] + rest;
    let e = name + seq!['<'] + argument + seq!['>'] + tail;
    lemma_arguments(name, argument, tail);
    let close = name.len() + argument.len() + 2;
    assert(e[close as int] == '(');
    paths_have_a_qualifier_and_a_name(Seq::empty(), name);
    assert(super::infer::leaf(name) =~= name) by {
        assert(last_segment_of(name) == name);
    }
    assert(super::infer::names_type(name) == begins_upper(name));
}

/// The type of a call without type arguments whose first argument is a class literal is the
/// type of the literal.
pub proof fn calls_with_a_class_literal(
    name: Seq<char>,
    gap: Seq<char>,
    class: Seq<char>,
    rest: Seq<char>,
)
    requires
        name.len() > 0,
        is_dotted(name),
        !name.contains('.'),
        !begins_upper(name),
        blank(gap),
        is_dotted(class),
        !class.contains('.'),
        begins_upper(class),
        !space_char(class[0]),
    ensures
        call_type(name + seq!['('] + (gap + (class + "::class"@ + rest))) == Some(class),
{
    reveal_strlit("::class");
    let literal = class + "::class"@ + rest;
    let inside = gap + literal;
    let e = name + seq!['('] + inside;
    let tail = seq!['('] + inside;
    let n = name.len() as int;
    assert(e =~= name + tail);
    assert(tail[0] == '(');
    lemma_dotted_len(name, tail);
    assert(e[n] == '(');
    assert(arguments_end(e, n) == n);
    assert(e.take(n) =~= name);
    assert(e.skip(n + 1) =~= inside);
    assert(literal[0] == class[0]);
    lemma_trimmed_start(gap, literal);
    let behind = "::class"@ + rest;
    assert(literal =~= class + behind);
    assert(behind[0] == ':');
    lemma_dotted_len(class, behind);
    assert(literal.take(class.len() as int) =~= class);
    assert(literal.skip(class.len() as int) =~= behind);
    assert(behind.subrange(0, "::class"@.len() as int) =~= "::class"@);
    paths_have_a_qualifier_and_a_name(Seq::empty(), class);
    assert(super::infer::leaf(class) =~= class) by {
        assert(last_segment_of(class) == class);
    }
    assert(super::infer::names_type(class));
    assert(!super::infer::names_type(name));
}

/// A delegated name has the type of what it is delegated to; of a `lazy` block that is what the
/// block begins with.
pub proof fn delegates_give_the_type(
    gap: Seq<char>,
    inner: Seq<char>,
    e: Seq<char>,
    g1: Seq<char>,
    g2: Seq<char>,
)
    requires
        blank(gap),
        gap.len() > 0,
        blank(inner),
        blank(g1),
        blank(g2),
        e.len() > 0,
        !space_char(e[0]),
    ensures
        !(exists|b: Seq<char>| e == #[trigger] ("lazy"@ + b)) ==> given_type(
            gap + ("by "@ + (inner + e)),
            true,
        ) == call_type(e),
        given_type(gap + ("by "@ + (inner + ("lazy"@ + (g1 + (seq!['{'] + (g2 + e)))))), true)
            == call_type(e),
{
    reveal_strlit("by ");
    reveal_strlit("lazy");
    let t = "by "@ + (inner + e);
    lemma_trimmed_start(gap, t);
    assert(t.subrange(0, 3) =~= "by "@);
    assert(t.skip(3) =~= inner + e);
    lemma_trimmed_start(inner, e);
    held_texts(e, "lazy"@);
    let block = seq!['{'] + (g2 + e);
    let lazy = "lazy"@ + (g1 + block);
    let u = "by "@ + (inner + lazy);
    assert(lazy[0] == 'l');
    lemma_trimmed_start(gap, u);
    assert(u.subrange(0, 3) =~= "by "@);
    assert(u.skip(3) =~= inner + lazy);
    lemma_trimmed_start(inner, lazy);
    assert(lazy.subrange(0, 4) =~= "lazy"@);
    assert(lazy.skip(4) =~= g1 + block);
    assert(block[0] == '{');
    lemma_trimmed_start(g1, block);
    assert(block.skip(1) =~= g2 + e);
    lemma_trimmed_start(g2, e);
}

} // verus!
