//! What holds of the completions and hover texts of the standard library.
use vstd::prelude::*;

use crate::chars::upper_char;
use crate::stdlib::{
    all_entries, bare_entries, completions, entries_of, has_label, hover_text, names,
    receiver_entries, signatures, CompletionItemKind, InsertTextFormat, ItemView, StdlibEntry,
    COLLECTION_FUNS, COLLECTION_TYPES, NULLABLE_FUNS, SCOPE_FUNS, STRING_FUNS, STRING_TYPES,
    TOP_LEVEL_FUNS,
};
use crate::text::join;

verus! {

/// The entry completes: behind a dot only extensions do.
pub open spec fn counts(entry: StdlibEntry, behind_dot: bool) -> bool {
    behind_dot ==> entry.is_extension
}

/// Entry `k` is the first of its name that completes.
pub open spec fn is_first_of_name(entries: Seq<StdlibEntry>, behind_dot: bool, k: int) -> bool {
    &&& 0 <= k < entries.len()
    &&& counts(entries[k], behind_dot)
    &&& forall|m: int|
        0 <= m < k && counts(#[trigger] entries[m], behind_dot) ==> entries[m].name@
            != entries[k].name@
}

/// The completion of an entry: labelled with its name, with its signature as detail, sorted
/// behind the symbols of the project; behind a dot a method, bare a class where the name begins
/// with an uppercase letter and else a function; methods and functions insert their call where
/// the editor takes snippets.
pub open spec fn completes_to(entry: StdlibEntry, behind_dot: bool, snippets: bool) -> ItemView {
    let class = !behind_dot && entry.name@.len() > 0 && upper_char(entry.name@[0]);
    ItemView {
        label: entry.name@,
        kind: if class {
            CompletionItemKind::Class
        } else if behind_dot {
            CompletionItemKind::Method
        } else {
            CompletionItemKind::Function
        },
        detail: entry.signature@,
        sort_text: "z:"@ + entry.name@,
        insert_text: if snippets && !class {
            Some(entry.name@ + "($1)"@)
        } else {
            None
        },
        insert_text_format: if snippets && !class {
            Some(InsertTextFormat::Snippet)
        } else {
            None
        },
    }
}

proof fn lemma_labels(entries: Seq<StdlibEntry>, behind_dot: bool, snippets: bool, label: Seq<char>)
    ensures
        has_label(completions(entries, behind_dot, snippets), label) <==> exists|k: int|
            0 <= k < entries.len() && counts(#[trigger] entries[k], behind_dot) && entries[k].name@
                == label,
    decreases entries.len(),
{
    if entries.len() > 0 {
        let d = entries.drop_last();
        let e = entries.last();
        let before = completions(d, behind_dot, snippets);
        let all = completions(entries, behind_dot, snippets);
        lemma_labels(d, behind_dot, snippets, label);
        lemma_labels(d, behind_dot, snippets, e.name@);
        assert(entries[entries.len() - 1] == e);
        if has_label(all, label) {
            let i = choose|i: int| 0 <= i < all.len() && (#[trigger] all[i]).label == label;
            if i < before.len() {
                assert(before[i].label == label);
                let k = choose|k: int|
                    0 <= k < d.len() && counts(#[trigger] d[k], behind_dot) && d[k].name@ == label;
                assert(entries[k] == d[k]);
            }
        }
        if exists|k: int|
            0 <= k < entries.len() && counts(#[trigger] entries[k], behind_dot) && entries[k].name@
                == label {
            let k = choose|k: int|
                0 <= k < entries.len() && counts(#[trigger] entries[k], behind_dot)
                    && entries[k].name@ == label;
            if k < d.len() {
                assert(d[k] == entries[k]);
                assert(has_label(before, label));
            }
            if has_label(before, label) {
                let i = choose|i: int|
                    0 <= i < before.len() && (#[trigger] before[i]).label == label;
                assert(all[i].label == label);
            } else {
                assert(all[before.len() as int].label == label);
            }
        }
    }
}

/// Of the entries exactly the first of each name that completes does, as its completion.
pub proof fn first_entries_complete(
    entries: Seq<StdlibEntry>,
    behind_dot: bool,
    snippets: bool,
    item: ItemView,
)
    ensures
        completions(entries, behind_dot, snippets).contains(item) <==> exists|k: int| #[trigger]
            is_first_of_name(entries, behind_dot, k) && item == completes_to(
                entries[k],
                behind_dot,
                snippets,
            ),
    decreases entries.len(),
{
    if entries.len() > 0 {
        let d = entries.drop_last();
        let e = entries.last();
        let n = entries.len() - 1;
        let before = completions(d, behind_dot, snippets);
        let all = completions(entries, behind_dot, snippets);
        first_entries_complete(d, behind_dot, snippets, item);
        lemma_labels(d, behind_dot, snippets, e.name@);
        assert(entries[n] == e);
        assert forall|k: int| 0 <= k < n implies (is_first_of_name(d, behind_dot, k)
            <==> #[trigger] is_first_of_name(entries, behind_dot, k)) by {
            assert(d[k] == entries[k]);
            assert forall|m: int| 0 <= m < k implies #[trigger] d[m] == entries[m] by {}
            if is_first_of_name(d, behind_dot, k) {
                assert forall|m: int| 0 <= m < k && counts(#[trigger] entries[m], behind_dot) implies
                    entries[m].name@ != entries[k].name@ by {
                    assert(d[m] == entries[m]);
                }
            }
        }
        let added = counts(e, behind_dot) && !has_label(before, e.name@);
        assert(added <==> is_first_of_name(entries, behind_dot, n)) by {
            if added {
                assert forall|m: int| 0 <= m < n && counts(#[trigger] entries[m], behind_dot) implies
                    entries[m].name@ != entries[n].name@ by {
                    assert(d[m] == entries[m]);
                }
            }
            if is_first_of_name(entries, behind_dot, n) && has_label(before, e.name@) {
                let k = choose|k: int|
                    0 <= k < d.len() && counts(#[trigger] d[k], behind_dot) && d[k].name@
                        == e.name@;
                assert(entries[k] == d[k]);
            }
        }
        if all.contains(item) {
            let i = all.index_of(item);
            if i < before.len() {
                assert(before[i] == item);
                let k = choose|k: int| #[trigger]
                    is_first_of_name(d, behind_dot, k) && item == completes_to(
                        d[k],
                        behind_dot,
                        snippets,
                    );
                assert(is_first_of_name(entries, behind_dot, k));
            } else {
                assert(is_first_of_name(entries, behind_dot, n));
            }
        }
        if exists|k: int| #[trigger]
            is_first_of_name(entries, behind_dot, k) && item == completes_to(
                entries[k],
                behind_dot,
                snippets,
            ) {
            let k = choose|k: int| #[trigger]
                is_first_of_name(entries, behind_dot, k) && item == completes_to(
                    entries[k],
                    behind_dot,
                    snippets,
                );
            if k < n {
                assert(is_first_of_name(d, behind_dot, k));
                assert(before.contains(item));
                let i = before.index_of(item);
                assert(all[i] == item);
            } else {
                assert(all[before.len() as int] == item);
            }
        }
    }
}

/// Completions come in the order of their entries: an entry more adds at most one completion,
/// behind the others.
pub proof fn completions_come_in_order(
    entries: Seq<StdlibEntry>,
    entry: StdlibEntry,
    behind_dot: bool,
    snippets: bool,
)
    ensures
        completions(entries.push(entry), behind_dot, snippets) == completions(
            entries,
            behind_dot,
            snippets,
        ) || completions(entries.push(entry), behind_dot, snippets) == completions(
            entries,
            behind_dot,
            snippets,
        ).push(completes_to(entry, behind_dot, snippets)),
{
    assert(entries.push(entry).drop_last() =~= entries);
}

/// The entry is that of a row of the table.
pub open spec fn is_in(entry: StdlibEntry, rows: Seq<(&'static str, &'static str, bool)>) -> bool {
    exists|i: int|
        0 <= i < rows.len() && (#[trigger] rows[i]).0 == entry.name && rows[i].1 == entry.signature
            && rows[i].2 == entry.is_extension
}

proof fn lemma_entries_of(entry: StdlibEntry, rows: Seq<(&'static str, &'static str, bool)>)
    ensures
        entries_of(rows).contains(entry) <==> is_in(entry, rows),
{
    if entries_of(rows).contains(entry) {
        let i = entries_of(rows).index_of(entry);
        assert(rows[i].0 == entry.name);
    }
    if is_in(entry, rows) {
        let i = choose|i: int|
            0 <= i < rows.len() && (#[trigger] rows[i]).0 == entry.name && rows[i].1
                == entry.signature && rows[i].2 == entry.is_extension;
        assert(entries_of(rows)[i] == entry);
    }
}

proof fn lemma_contains_concat(a: Seq<StdlibEntry>, b: Seq<StdlibEntry>, e: StdlibEntry)
    ensures
        (a + b).contains(e) <==> a.contains(e) || b.contains(e),
{
    if (a + b).contains(e) {
        let i = (a + b).index_of(e);
        if i < a.len() {
            assert(a[i] == e);
        } else {
            assert(b[i - a.len()] == e);
        }
    }
    if a.contains(e) {
        assert((a + b)[a.index_of(e)] == e);
    }
    if b.contains(e) {
        assert((a + b)[a.len() + b.index_of(e)] == e);
    }
}

/// The name is that of a collection type.
pub open spec fn is_collection(name: Seq<char>) -> bool {
    name == "Iterable"@ || name == "Collection"@ || name == "MutableCollection"@ || name == "List"@ || name == "MutableList"@ || name == "Set"@ || name == "MutableSet"@ || name == "Map"@ || name == "MutableMap"@
}

/// Behind a dot every table completes; bare, the scope functions and the top-level ones; and on
/// a receiver the scope functions, on a string those of strings, on a collection those of
/// collections.
pub proof fn tables_complete_here(receiver: Seq<char>, entry: StdlibEntry)
    ensures
        all_entries().contains(entry) <==> is_in(entry, SCOPE_FUNS@) || is_in(
            entry,
            COLLECTION_FUNS@,
        ) || is_in(entry, STRING_FUNS@) || is_in(entry, NULLABLE_FUNS@) || is_in(
            entry,
            TOP_LEVEL_FUNS@,
        ),
        bare_entries().contains(entry) <==> is_in(entry, SCOPE_FUNS@) || is_in(
            entry,
            TOP_LEVEL_FUNS@,
        ),
        receiver_entries(receiver).contains(entry) <==> is_in(entry, SCOPE_FUNS@) || ((receiver
            == "String"@ || receiver == "CharSequence"@) && is_in(entry, STRING_FUNS@)) || (
        is_collection(receiver) && is_in(entry, COLLECTION_FUNS@)),
{
    let scope = entries_of(SCOPE_FUNS@);
    let collection = entries_of(COLLECTION_FUNS@);
    let string = entries_of(STRING_FUNS@);
    let nullable = entries_of(NULLABLE_FUNS@);
    let top = entries_of(TOP_LEVEL_FUNS@);
    lemma_entries_of(entry, SCOPE_FUNS@);
    lemma_entries_of(entry, COLLECTION_FUNS@);
    lemma_entries_of(entry, STRING_FUNS@);
    lemma_entries_of(entry, NULLABLE_FUNS@);
    lemma_entries_of(entry, TOP_LEVEL_FUNS@);
    lemma_contains_concat(scope, collection, entry);
    lemma_contains_concat(scope + collection, string, entry);
    lemma_contains_concat(scope + collection + string, nullable, entry);
    lemma_contains_concat(scope + collection + string + nullable, top, entry);
    lemma_contains_concat(scope, top, entry);
    assert(STRING_TYPES@[0]@ == "String"@);
    assert(STRING_TYPES@[1]@ == "CharSequence"@);
    assert(names(STRING_TYPES@, receiver) <==> (receiver == "String"@ || receiver
        == "CharSequence"@));
    assert(COLLECTION_TYPES@[0]@ == "Iterable"@);
    assert(COLLECTION_TYPES@[1]@ == "Collection"@);
    assert(COLLECTION_TYPES@[2]@ == "MutableCollection"@);
    assert(COLLECTION_TYPES@[3]@ == "List"@);
    assert(COLLECTION_TYPES@[4]@ == "MutableList"@);
    assert(COLLECTION_TYPES@[5]@ == "Set"@);
    assert(COLLECTION_TYPES@[6]@ == "MutableSet"@);
    assert(COLLECTION_TYPES@[7]@ == "Map"@);
    assert(COLLECTION_TYPES@[8]@ == "MutableMap"@);
    assert(names(COLLECTION_TYPES@, receiver) <==> is_collection(receiver));
    let strings = if names(STRING_TYPES@, receiver) {
        string
    } else {
        Seq::empty()
    };
    let collections = if names(COLLECTION_TYPES@, receiver) {
        collection
    } else {
        Seq::empty()
    };
    lemma_contains_concat(scope, strings, entry);
    lemma_contains_concat(scope + strings, collections, entry);
}

/// The hover text shows the signatures of all entries of the name, in their order, one to a
/// line of a Kotlin block.
pub proof fn hover_shows_all_signatures(
    entries: Seq<StdlibEntry>,
    entry: StdlibEntry,
    name: Seq<char>,
    sigs: Seq<Seq<char>>,
)
    ensures
        signatures(Seq::empty(), name).len() == 0,
        entry.name@ == name ==> signatures(entries.push(entry), name) == signatures(
            entries,
            name,
        ).push(entry.signature@),
        entry.name@ != name ==> signatures(entries.push(entry), name) == signatures(entries, name),
        hover_text(sigs) == "```kotlin\n"@ + join(sigs, "\n"@) + "\n```\n*(Kotlin stdlib)*"@,
        sigs.len() == 1 ==> join(sigs, "\n"@) == sigs[0],
        sigs.len() > 0 ==> join(sigs.push(entry.signature@), "\n"@) == join(sigs, "\n"@) + "\n"@
            + entry.signature@,
{
    assert(entries.push(entry).drop_last() =~= entries);
    assert(sigs.push(entry.signature@).drop_last() =~= sigs);
}

} // verus!
