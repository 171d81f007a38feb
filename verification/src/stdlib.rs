//! Kotlin standard library built-ins: scope functions, collection extensions, string helpers
//! and common top-level functions.
//!
//! They give hover texts and completions for `.run`, `.map`, `listOf` and the like without any
//! library sources in the project.
use vstd::prelude::*;

use crate::chars::upper_char;
use crate::text::{chars_of, eq_str, join, texts};

verus! {

/// A single entry: name, signature shown in hover, and kind.
#[derive(Debug, Clone, Copy)]
pub struct StdlibEntry {
    pub name: &'static str,
    pub signature: &'static str,
    /// True for a method or extension, which completes behind a dot; false at top level.
    pub is_extension: bool,
}

/// Scope and control-flow functions, available on every type.
pub const SCOPE_FUNS: [(&'static str, &'static str, bool); 9] = [
    ("let", "inline fun <T, R> T.let(block: (T) -> R): R", true),
    ("run", "inline fun <T, R> T.run(block: T.() -> R): R", true),
    ("apply", "inline fun <T> T.apply(block: T.() -> Unit): T", true),
    ("also", "inline fun <T> T.also(block: (T) -> Unit): T", true),
    ("takeIf", "inline fun <T> T.takeIf(predicate: (T) -> Boolean): T?", true),
    ("takeUnless", "inline fun <T> T.takeUnless(predicate: (T) -> Boolean): T?", true),
    ("hashCode", "open fun Any.hashCode(): Int", true),
    ("toString", "open fun Any.toString(): String", true),
    ("equals", "open fun Any.equals(other: Any?): Boolean", true),
];

/// Extensions of collections and iterables; the map-specific ones come last.
pub const COLLECTION_FUNS: [(&'static str, &'static str, bool); 62] = [
    ("map", "inline fun <T, R> Iterable<T>.map(transform: (T) -> R): List<R>", true),
    ("mapNotNull", "inline fun <T, R: Any> Iterable<T>.mapNotNull(transform: (T) -> R?): List<R>", true),
    ("mapIndexed", "inline fun <T, R> Iterable<T>.mapIndexed(transform: (Int, T) -> R): List<R>", true),
    ("filter", "inline fun <T> Iterable<T>.filter(predicate: (T) -> Boolean): List<T>", true),
    ("filterNot", "inline fun <T> Iterable<T>.filterNot(predicate: (T) -> Boolean): List<T>", true),
    ("filterIsInstance", "inline fun <reified R> Iterable<*>.filterIsInstance(): List<R>", true),
    ("filterNotNull", "fun <T: Any> Iterable<T?>.filterNotNull(): List<T>", true),
    ("forEach", "inline fun <T> Iterable<T>.forEach(action: (T) -> Unit)", true),
    ("forEachIndexed", "inline fun <T> Iterable<T>.forEachIndexed(action: (Int, T) -> Unit)", true),
    ("find", "inline fun <T> Iterable<T>.find(predicate: (T) -> Boolean): T?", true),
    ("findLast", "inline fun <T> Iterable<T>.findLast(predicate: (T) -> Boolean): T?", true),
    ("any", "inline fun <T> Iterable<T>.any(predicate: (T) -> Boolean): Boolean", true),
    ("all", "inline fun <T> Iterable<T>.all(predicate: (T) -> Boolean): Boolean", true),
    ("none", "inline fun <T> Iterable<T>.none(predicate: (T) -> Boolean): Boolean", true),
    ("count", "inline fun <T> Iterable<T>.count(predicate: (T) -> Boolean = { true }): Int", true),
    ("first", "fun <T> Iterable<T>.first(): T", true),
    ("firstOrNull", "inline fun <T> Iterable<T>.firstOrNull(predicate: ((T) -> Boolean)? = null): T?", true),
    ("last", "fun <T> Iterable<T>.last(): T", true),
    ("lastOrNull", "inline fun <T> Iterable<T>.lastOrNull(predicate: ((T) -> Boolean)? = null): T?", true),
    ("single", "fun <T> Iterable<T>.single(): T", true),
    ("singleOrNull", "inline fun <T> Iterable<T>.singleOrNull(predicate: ((T) -> Boolean)? = null): T?", true),
    ("flatMap", "inline fun <T, R> Iterable<T>.flatMap(transform: (T) -> Iterable<R>): List<R>", true),
    ("flatten", "fun <T> Iterable<Iterable<T>>.flatten(): List<T>", true),
    ("zip", "infix fun <T, R> Iterable<T>.zip(other: Iterable<R>): List<Pair<T, R>>", true),
    ("distinct", "fun <T> Iterable<T>.distinct(): List<T>", true),
    ("distinctBy", "inline fun <T, K> Iterable<T>.distinctBy(selector: (T) -> K): List<T>", true),
    ("sortedBy", "inline fun <T, R: Comparable<R>> Iterable<T>.sortedBy(selector: (T) -> R?): List<T>", true),
    ("sortedByDescending", "inline fun <T, R: Comparable<R>> Iterable<T>.sortedByDescending(selector: (T) -> R?): List<T>", true),
    ("sortedWith", "fun <T> Iterable<T>.sortedWith(comparator: Comparator<in T>): List<T>", true),
    ("groupBy", "inline fun <T, K> Iterable<T>.groupBy(keySelector: (T) -> K): Map<K, List<T>>", true),
    ("associateBy", "inline fun <T, K> Iterable<T>.associateBy(keySelector: (T) -> K): Map<K, T>", true),
    ("associate", "inline fun <T, K, V> Iterable<T>.associate(transform: (T) -> Pair<K, V>): Map<K, V>", true),
    ("partition", "inline fun <T> Iterable<T>.partition(predicate: (T) -> Boolean): Pair<List<T>, List<T>>", true),
    ("chunked", "fun <T> Iterable<T>.chunked(size: Int): List<List<T>>", true),
    ("windowed", "fun <T> Iterable<T>.windowed(size: Int, step: Int = 1): List<List<T>>", true),
    ("take", "fun <T> Iterable<T>.take(n: Int): List<T>", true),
    ("drop", "fun <T> Iterable<T>.drop(n: Int): List<T>", true),
    ("fold", "inline fun <T, R> Iterable<T>.fold(initial: R, operation: (R, T) -> R): R", true),
    ("reduce", "inline fun <S, T: S> Iterable<T>.reduce(operation: (S, T) -> S): S", true),
    ("sumOf", "inline fun <T> Iterable<T>.sumOf(selector: (T) -> Int): Int", true),
    ("maxByOrNull", "inline fun <T, R: Comparable<R>> Iterable<T>.maxByOrNull(selector: (T) -> R): T?", true),
    ("minByOrNull", "inline fun <T, R: Comparable<R>> Iterable<T>.minByOrNull(selector: (T) -> R): T?", true),
    ("joinToString", "fun <T> Iterable<T>.joinToString(separator: CharSequence = \", \", ...): String", true),
    ("toList", "fun <T> Iterable<T>.toList(): List<T>", true),
    ("toMutableList", "fun <T> Iterable<T>.toMutableList(): MutableList<T>", true),
    ("toSet", "fun <T> Iterable<T>.toSet(): Set<T>", true),
    ("toMutableSet", "fun <T> Iterable<T>.toMutableSet(): MutableSet<T>", true),
    ("toMap", "fun <K, V> Iterable<Pair<K, V>>.toMap(): Map<K, V>", true),
    ("contains", "operator fun <T> Iterable<T>.contains(element: T): Boolean", true),
    ("isEmpty", "fun <T> Collection<T>.isEmpty(): Boolean", true),
    ("isNotEmpty", "fun <T> Collection<T>.isNotEmpty(): Boolean", true),
    ("orEmpty", "fun <T> Collection<T>?.orEmpty(): Collection<T>", true),
    ("plus", "operator fun <T> Collection<T>.plus(element: T): List<T>", true),
    ("minus", "operator fun <T> Collection<T>.minus(element: T): List<T>", true),
    ("getOrDefault", "fun <K, V> Map<K, V>.getOrDefault(key: K, defaultValue: V): V", true),
    ("getOrElse", "inline fun <K, V> Map<K, V>.getOrElse(key: K, defaultValue: () -> V): V", true),
    ("keys", "val Map<K, V>.keys: Set<K>", true),
    ("values", "val Map<K, V>.values: Collection<V>", true),
    ("entries", "val Map<K, V>.entries: Set<Map.Entry<K, V>>", true),
    ("size", "val Collection<*>.size: Int", true),
    ("indices", "val <T> List<T>.indices: IntRange", true),
    ("lastIndex", "val <T> List<T>.lastIndex: Int", true),
];

/// Extensions of strings and character sequences.
pub const STRING_FUNS: [(&'static str, &'static str, bool); 39] = [
    ("isEmpty", "fun CharSequence.isEmpty(): Boolean", true),
    ("isNotEmpty", "fun CharSequence.isNotEmpty(): Boolean", true),
    ("isBlank", "fun CharSequence.isBlank(): Boolean", true),
    ("isNotBlank", "fun CharSequence.isNotBlank(): Boolean", true),
    ("trim", "fun String.trim(): String", true),
    ("trimStart", "fun String.trimStart(): String", true),
    ("trimEnd", "fun String.trimEnd(): String", true),
    ("trimIndent", "fun String.trimIndent(): String", true),
    ("trimMargin", "fun String.trimMargin(marginPrefix: String = \"|\"): String", true),
    ("uppercase", "fun String.uppercase(): String", true),
    ("lowercase", "fun String.lowercase(): String", true),
    ("split", "fun String.split(vararg delimiters: String, ignoreCase: Boolean = false, limit: Int = 0): List<String>", true),
    ("replace", "fun String.replace(oldValue: String, newValue: String, ignoreCase: Boolean = false): String", true),
    ("contains", "operator fun CharSequence.contains(other: CharSequence, ignoreCase: Boolean = false): Boolean", true),
    ("startsWith", "fun String.startsWith(prefix: String, ignoreCase: Boolean = false): Boolean", true),
    ("endsWith", "fun String.endsWith(suffix: String, ignoreCase: Boolean = false): Boolean", true),
    ("substring", "fun String.substring(startIndex: Int, endIndex: Int = length): String", true),
    ("substringBefore", "fun String.substringBefore(delimiter: String, missingDelimiterValue: String = this): String", true),
    ("substringAfter", "fun String.substringAfter(delimiter: String, missingDelimiterValue: String = this): String", true),
    ("substringBeforeLast", "fun String.substringBeforeLast(delimiter: String, missingDelimiterValue: String = this): String", true),
    ("substringAfterLast", "fun String.substringAfterLast(delimiter: String, missingDelimiterValue: String = this): String", true),
    ("toInt", "fun String.toInt(): Int", true),
    ("toIntOrNull", "fun String.toIntOrNull(radix: Int = 10): Int?", true),
    ("toLong", "fun String.toLong(): Long", true),
    ("toLongOrNull", "fun String.toLongOrNull(radix: Int = 10): Long?", true),
    ("toDouble", "fun String.toDouble(): Double", true),
    ("toDoubleOrNull", "fun String.toDoubleOrNull(): Double?", true),
    ("toFloat", "fun String.toFloat(): Float", true),
    ("toBoolean", "fun String.toBoolean(): Boolean", true),
    ("toBooleanStrictOrNull", "fun String.toBooleanStrictOrNull(): Boolean?", true),
    ("lines", "fun String.lines(): List<String>", true),
    ("toCharArray", "fun String.toCharArray(): CharArray", true),
    ("format", "fun String.format(vararg args: Any?): String", true),
    ("padStart", "fun String.padStart(length: Int, padChar: Char = ' '): String", true),
    ("padEnd", "fun String.padEnd(length: Int, padChar: Char = ' '): String", true),
    ("orEmpty", "fun String?.orEmpty(): String", true),
    ("ifEmpty", "inline fun <C: CharSequence> C.ifEmpty(defaultValue: () -> C): C", true),
    ("ifBlank", "inline fun <C: CharSequence> C.ifBlank(defaultValue: () -> C): C", true),
    ("length", "val String.length: Int", true),
];

/// Extensions of nullable receivers.
pub const NULLABLE_FUNS: [(&'static str, &'static str, bool); 3] = [
    ("orEmpty", "fun <T> List<T>?.orEmpty(): List<T>", true),
    ("isNullOrEmpty", "fun CharSequence?.isNullOrEmpty(): Boolean", true),
    ("isNullOrBlank", "fun CharSequence?.isNullOrBlank(): Boolean", true),
];

/// Functions that are called by their bare name.
pub const TOP_LEVEL_FUNS: [(&'static str, &'static str, bool); 47] = [
    ("run", "inline fun <R> run(block: () -> R): R", false),
    ("with", "inline fun <T, R> with(receiver: T, block: T.() -> R): R", false),
    ("repeat", "inline fun repeat(times: Int, action: (Int) -> Unit)", false),
    ("println", "fun println(message: Any? = \"\")", false),
    ("print", "fun print(message: Any?)", false),
    ("readLine", "fun readLine(): String?", false),
    ("TODO", "fun TODO(reason: String = \"\"): Nothing", false),
    ("error", "fun error(message: Any): Nothing", false),
    ("check", "inline fun check(value: Boolean, lazyMessage: () -> Any = { \"Failed requirement.\" })", false),
    ("checkNotNull", "inline fun <T: Any> checkNotNull(value: T?, lazyMessage: () -> Any = ...): T", false),
    ("require", "inline fun require(value: Boolean, lazyMessage: () -> Any = { \"Failed requirement.\" })", false),
    ("requireNotNull", "inline fun <T: Any> requireNotNull(value: T?, lazyMessage: () -> Any = ...): T", false),
    ("assert", "fun assert(value: Boolean, lazyMessage: () -> Any = { \"Assertion failed\" })", false),
    ("listOf", "fun <T> listOf(vararg elements: T): List<T>", false),
    ("mutableListOf", "fun <T> mutableListOf(vararg elements: T): MutableList<T>", false),
    ("emptyList", "fun <T> emptyList(): List<T>", false),
    ("listOfNotNull", "fun <T: Any> listOfNotNull(vararg elements: T?): List<T>", false),
    ("arrayListOf", "fun <T> arrayListOf(vararg elements: T): ArrayList<T>", false),
    ("mapOf", "fun <K, V> mapOf(vararg pairs: Pair<K, V>): Map<K, V>", false),
    ("mutableMapOf", "fun <K, V> mutableMapOf(vararg pairs: Pair<K, V>): MutableMap<K, V>", false),
    ("emptyMap", "fun <K, V> emptyMap(): Map<K, V>", false),
    ("linkedMapOf", "fun <K, V> linkedMapOf(vararg pairs: Pair<K, V>): LinkedHashMap<K, V>", false),
    ("setOf", "fun <T> setOf(vararg elements: T): Set<T>", false),
    ("mutableSetOf", "fun <T> mutableSetOf(vararg elements: T): MutableSet<T>", false),
    ("emptySet", "fun <T> emptySet(): Set<T>", false),
    ("hashSetOf", "fun <T> hashSetOf(vararg elements: T): HashSet<T>", false),
    ("arrayOf", "fun <T> arrayOf(vararg elements: T): Array<T>", false),
    ("intArrayOf", "fun intArrayOf(vararg elements: Int): IntArray", false),
    ("longArrayOf", "fun longArrayOf(vararg elements: Long): LongArray", false),
    ("floatArrayOf", "fun floatArrayOf(vararg elements: Float): FloatArray", false),
    ("doubleArrayOf", "fun doubleArrayOf(vararg elements: Double): DoubleArray", false),
    ("booleanArrayOf", "fun booleanArrayOf(vararg elements: Boolean): BooleanArray", false),
    ("emptyArray", "inline fun <reified T> emptyArray(): Array<T>", false),
    ("buildList", "inline fun <E> buildList(builderAction: MutableList<E>.() -> Unit): List<E>", false),
    ("buildMap", "inline fun <K, V> buildMap(builderAction: MutableMap<K, V>.() -> Unit): Map<K, V>", false),
    ("buildSet", "inline fun <E> buildSet(builderAction: MutableSet<E>.() -> Unit): Set<E>", false),
    ("buildString", "inline fun buildString(builderAction: StringBuilder.() -> Unit): String", false),
    ("minOf", "fun <T: Comparable<T>> minOf(a: T, b: T): T", false),
    ("maxOf", "fun <T: Comparable<T>> maxOf(a: T, b: T): T", false),
    ("coerceIn", "fun <T: Comparable<T>> T.coerceIn(minimumValue: T, maximumValue: T): T", false),
    ("coerceAtLeast", "fun <T: Comparable<T>> T.coerceAtLeast(minimumValue: T): T", false),
    ("coerceAtMost", "fun <T: Comparable<T>> T.coerceAtMost(maximumValue: T): T", false),
    ("Pair", "data class Pair<A, B>(val first: A, val second: B)", false),
    ("Triple", "data class Triple<A, B, C>(val first: A, val second: B, val third: C)", false),
    ("to", "infix fun <A, B> A.to(that: B): Pair<A, B>", true),
    ("lazy", "fun <T> lazy(initializer: () -> T): Lazy<T>", false),
    ("lazy", "fun <T> lazy(mode: LazyThreadSafetyMode, initializer: () -> T): Lazy<T>", false),
];

/// The receivers that have the extensions of collections.
pub const COLLECTION_TYPES: [&'static str; 9] = [
    "Iterable",
    "Collection",
    "MutableCollection",
    "List",
    "MutableList",
    "Set",
    "MutableSet",
    "Map",
    "MutableMap",
];

/// The receivers that have the extensions of strings.
pub const STRING_TYPES: [&'static str; 2] = ["String", "CharSequence"];

/// The entry that a row of a table writes down.
pub open spec fn entry_of(row: (&'static str, &'static str, bool)) -> StdlibEntry {
    StdlibEntry { name: row.0, signature: row.1, is_extension: row.2 }
}

/// The entries of a table.
pub open spec fn entries_of(rows: Seq<(&'static str, &'static str, bool)>) -> Seq<StdlibEntry> {
    rows.map_values(|row: (&'static str, &'static str, bool)| entry_of(row))
}

/// All entries, table after table.
pub open spec fn all_entries() -> Seq<StdlibEntry> {
    entries_of(SCOPE_FUNS@) + entries_of(COLLECTION_FUNS@) + entries_of(STRING_FUNS@) + entries_of(
        NULLABLE_FUNS@,
    ) + entries_of(TOP_LEVEL_FUNS@)
}

/// The entries that complete a bare name.
pub open spec fn bare_entries() -> Seq<StdlibEntry> {
    entries_of(SCOPE_FUNS@) + entries_of(TOP_LEVEL_FUNS@)
}

/// The signatures of the entries called `name`, in order.
pub open spec fn signatures(entries: Seq<StdlibEntry>, name: Seq<char>) -> Seq<Seq<char>>
    decreases entries.len(),
{
    if entries.len() == 0 {
        Seq::empty()
    } else {
        let before = signatures(entries.drop_last(), name);
        if entries.last().name@ == name {
            before.push(entries.last().signature@)
        } else {
            before
        }
    }
}

/// The hover text of the signatures.
pub open spec fn hover_text(sigs: Seq<Seq<char>>) -> Seq<char> {
    "```kotlin\n"@ + join(sigs, "\n"@) + "\n```\n*(Kotlin stdlib)*"@
}

/// What kind of thing a completion names.
#[derive(Debug, Clone, Copy, PartialEq, Eq, Structural)]
pub enum CompletionItemKind {
    Method,
    Function,
    Class,
}

/// How the text to insert is to be read.
#[derive(Debug, Clone, Copy, PartialEq, Eq, Structural)]
pub enum InsertTextFormat {
    PlainText,
    Snippet,
}

/// A completion.
#[derive(Debug)]
pub struct CompletionItem {
    pub label: String,
    pub kind: CompletionItemKind,
    pub detail: String,
    pub sort_text: String,
    pub insert_text: Option<String>,
    pub insert_text_format: Option<InsertTextFormat>,
}

/// What a [`CompletionItem`] says.
#[verifier::ext_equal]
pub struct ItemView {
    pub label: Seq<char>,
    pub kind: CompletionItemKind,
    pub detail: Seq<char>,
    pub sort_text: Seq<char>,
    pub insert_text: Option<Seq<char>>,
    pub insert_text_format: Option<InsertTextFormat>,
}

impl View for CompletionItem {
    type V = ItemView;

    open spec fn view(&self) -> ItemView {
        ItemView {
            label: self.label@,
            kind: self.kind,
            detail: self.detail@,
            sort_text: self.sort_text@,
            insert_text: crate::uri::text_of(self.insert_text),
            insert_text_format: self.insert_text_format,
        }
    }
}

pub open spec fn item_views(items: Seq<CompletionItem>) -> Seq<ItemView> {
    items.map_values(|i: CompletionItem| i@)
}

/// The completion of an entry: it sorts behind project symbols, and a function inserts its
/// call as a snippet where the editor takes snippets.
pub open spec fn item_of(
    name: Seq<char>,
    kind: CompletionItemKind,
    signature: Seq<char>,
    snippets: bool,
) -> ItemView {
    let calls = snippets && kind != CompletionItemKind::Class;
    ItemView {
        label: name,
        kind,
        detail: signature,
        sort_text: "z:"@ + name,
        insert_text: if calls {
            Some(name + "($1)"@)
        } else {
            None
        },
        insert_text_format: if calls {
            Some(InsertTextFormat::Snippet)
        } else {
            None
        },
    }
}

/// One of the items has this label.
pub open spec fn has_label(items: Seq<ItemView>, label: Seq<char>) -> bool {
    exists|i: int| 0 <= i < items.len() && (#[trigger] items[i]).label == label
}

/// The kind that a bare name completes to.
pub open spec fn bare_kind(name: Seq<char>) -> CompletionItemKind {
    if name.len() > 0 && upper_char(name[0]) {
        CompletionItemKind::Class
    } else {
        CompletionItemKind::Function
    }
}

/// The completions of the entries, of those with one name the first; behind a dot only
/// extensions count.
pub open spec fn completions(
    entries: Seq<StdlibEntry>,
    behind_dot: bool,
    snippets: bool,
) -> Seq<ItemView>
    decreases entries.len(),
{
    if entries.len() == 0 {
        Seq::empty()
    } else {
        let before = completions(entries.drop_last(), behind_dot, snippets);
        let e = entries.last();
        let kind = if behind_dot {
            CompletionItemKind::Method
        } else {
            bare_kind(e.name@)
        };
        if (behind_dot && !e.is_extension) || has_label(before, e.name@) {
            before
        } else {
            before.push(item_of(e.name@, kind, e.signature@, snippets))
        }
    }
}

/// One of the names is `name`.
pub open spec fn names(list: Seq<&'static str>, name: Seq<char>) -> bool {
    exists|i: int| 0 <= i < list.len() && (#[trigger] list[i])@ == name
}

/// The entries that complete behind a dot on the receiver: scope functions on every type,
/// string extensions on strings, collection extensions on collections.
pub open spec fn receiver_entries(receiver: Seq<char>) -> Seq<StdlibEntry> {
    entries_of(SCOPE_FUNS@) + (if names(STRING_TYPES@, receiver) {
        entries_of(STRING_FUNS@)
    } else {
        Seq::empty()
    }) + (if names(COLLECTION_TYPES@, receiver) {
        entries_of(COLLECTION_FUNS@)
    } else {
        Seq::empty()
    })
}

/// No label completes twice.
pub proof fn completions_have_distinct_labels(
    entries: Seq<StdlibEntry>,
    behind_dot: bool,
    snippets: bool,
)
    ensures
        forall|i: int, j: int|
            0 <= i < j < completions(entries, behind_dot, snippets).len() ==> (
            #[trigger] completions(entries, behind_dot, snippets)[i]).label != (
            #[trigger] completions(entries, behind_dot, snippets)[j]).label,
    decreases entries.len(),
{
    if entries.len() > 0 {
        completions_have_distinct_labels(entries.drop_last(), behind_dot, snippets);
        let before = completions(entries.drop_last(), behind_dot, snippets);
        assert(forall|i: int|
            0 <= i < before.len() ==> (#[trigger] before[i]).label == entries.last().name@
                ==> has_label(before, entries.last().name@));
    }
}

/// Every name that completes has a hover text.
pub proof fn completed_names_have_signatures(
    entries: Seq<StdlibEntry>,
    behind_dot: bool,
    snippets: bool,
    name: Seq<char>,
)
    requires
        has_label(completions(entries, behind_dot, snippets), name),
    ensures
        signatures(entries, name).len() > 0,
    decreases entries.len(),
{
    if entries.len() > 0 {
        let before = completions(entries.drop_last(), behind_dot, snippets);
        let all = completions(entries, behind_dot, snippets);
        let i = choose|i: int| 0 <= i < all.len() && (#[trigger] all[i]).label == name;
        if i < before.len() {
            assert(before[i] == all[i]);
            completed_names_have_signatures(entries.drop_last(), behind_dot, snippets, name);
        }
    }
}

/// The signatures in two lists are those of each.
proof fn lemma_signatures_concat(a: Seq<StdlibEntry>, b: Seq<StdlibEntry>, name: Seq<char>)
    ensures
        signatures(a + b, name) == signatures(a, name) + signatures(b, name),
    decreases b.len(),
{
    if b.len() == 0 {
        assert(a + b =~= a);
        assert(signatures(a, name) + signatures(b, name) =~= signatures(a, name));
    } else {
        lemma_signatures_concat(a, b.drop_last(), name);
        assert((a + b).drop_last() =~= a + b.drop_last());
        assert(signatures(a + b, name) =~= signatures(a, name) + signatures(b, name));
    }
}

/// Whatever completes, behind a dot or bare, on any receiver, has a hover text.
pub proof fn completions_have_hover(receiver: Seq<char>, snippets: bool, name: Seq<char>)
    requires
        has_label(completions(all_entries(), true, snippets), name) || has_label(
            completions(bare_entries(), false, snippets),
            name,
        ) || has_label(completions(receiver_entries(receiver), true, snippets), name),
    ensures
        signatures(all_entries(), name).len() > 0,
{
    let scope = entries_of(SCOPE_FUNS@);
    let collection = entries_of(COLLECTION_FUNS@);
    let string = entries_of(STRING_FUNS@);
    let nullable = entries_of(NULLABLE_FUNS@);
    let top = entries_of(TOP_LEVEL_FUNS@);
    lemma_signatures_concat(scope, collection, name);
    lemma_signatures_concat(scope + collection, string, name);
    lemma_signatures_concat(scope + collection + string, nullable, name);
    lemma_signatures_concat(scope + collection + string + nullable, top, name);
    if has_label(completions(all_entries(), true, snippets), name) {
        completed_names_have_signatures(all_entries(), true, snippets, name);
    } else if has_label(completions(bare_entries(), false, snippets), name) {
        completed_names_have_signatures(bare_entries(), false, snippets, name);
        lemma_signatures_concat(scope, top, name);
    } else {
        completed_names_have_signatures(receiver_entries(receiver), true, snippets, name);
        let strings = if names(STRING_TYPES@, receiver) {
            string
        } else {
            Seq::empty()
        };
        let collections = if names(COLLECTION_TYPES@, receiver) {
            collection
        } else {
            Seq::empty()
        };
        lemma_signatures_concat(scope, strings, name);
        lemma_signatures_concat(scope + strings, collections, name);
    }
}

/// Every entry completes, and every extension does behind a dot.
pub proof fn entries_complete(
    entries: Seq<StdlibEntry>,
    behind_dot: bool,
    snippets: bool,
    k: int,
)
    requires
        0 <= k < entries.len(),
        behind_dot ==> entries[k].is_extension,
    ensures
        has_label(completions(entries, behind_dot, snippets), entries[k].name@),
    decreases entries.len(),
{
    let before = completions(entries.drop_last(), behind_dot, snippets);
    let all = completions(entries, behind_dot, snippets);
    if k < entries.len() - 1 {
        entries_complete(entries.drop_last(), behind_dot, snippets, k);
        let i = choose|i: int|
            0 <= i < before.len() && (#[trigger] before[i]).label == entries[k].name@;
        assert(all[i].label == entries[k].name@);
    } else if !has_label(before, entries[k].name@) {
        assert(all[before.len() as int].label == entries[k].name@);
    }
}

/// The entries of a table.
fn table(rows: &[(&'static str, &'static str, bool)], out: &mut Vec<StdlibEntry>)
    ensures
        final(out)@ == old(out)@ + entries_of(rows@),
{
    let ghost start = out@;
    for i in 0..rows.len()
        invariant
            out@ == start + entries_of(rows@).take(i as int),
    {
        let (name, signature, is_extension) = rows[i];
        out.push(StdlibEntry { name, signature, is_extension });
        assert(start + entries_of(rows@).take(i + 1) =~= (start + entries_of(rows@).take(
            i as int,
        )).push(entries_of(rows@)[i as int]));
    }
    assert(entries_of(rows@).take(rows@.len() as int) =~= entries_of(rows@));
}

/// All entries, table after table.
pub fn all() -> (r: Vec<StdlibEntry>)
    ensures
        r@ == all_entries(),
{
    let mut r: Vec<StdlibEntry> = Vec::new();
    table(SCOPE_FUNS.as_slice(), &mut r);
    table(COLLECTION_FUNS.as_slice(), &mut r);
    table(STRING_FUNS.as_slice(), &mut r);
    table(NULLABLE_FUNS.as_slice(), &mut r);
    table(TOP_LEVEL_FUNS.as_slice(), &mut r);
    assert(r@ =~= all_entries());
    r
}

/// The texts one after another, with a line feed between each two.
fn join_lines(parts: &Vec<&'static str>) -> (r: String)
    ensures
        r@ == join(parts@.map_values(|s: &'static str| s@), "\n"@),
{
    let ghost all = parts@.map_values(|s: &'static str| s@);
    let mut r = String::new();
    assert(all.take(0) =~= Seq::<Seq<char>>::empty());
    for i in 0..parts.len()
        invariant
            all == parts@.map_values(|s: &'static str| s@),
            r@ == join(all.take(i as int), "\n"@),
    {
        assert(all.take(i + 1).drop_last() =~= all.take(i as int));
        if i > 0 {
            r.append("\n");
        }
        r.append(parts[i]);
        assert(i == 0 ==> r@ =~= all[0]);
    }
    assert(all.take(all.len() as int) =~= all);
    r
}

/// Hover markdown for a symbol of the standard library, or `None` if it is not known.
///
/// A name that stands in several tables shows all its signatures.
pub fn hover(name: &str) -> (r: Option<String>)
    ensures
        match r {
            Some(text) => signatures(all_entries(), name@).len() > 0 && text@ == hover_text(
                signatures(all_entries(), name@),
            ),
            None => signatures(all_entries(), name@).len() == 0,
        },
{
    let entries = all();
    let mut sigs: Vec<&'static str> = Vec::new();
    let ghost texts_of = |v: Seq<&'static str>| v.map_values(|s: &'static str| s@);
    assert(entries@.take(0) =~= Seq::<StdlibEntry>::empty());
    assert(texts_of(sigs@) =~= signatures(entries@.take(0), name@));
    for i in 0..entries.len()
        invariant
            texts_of == (|v: Seq<&'static str>| v.map_values(|s: &'static str| s@)),
            texts_of(sigs@) == signatures(entries@.take(i as int), name@),
    {
        assert(entries@.take(i + 1).drop_last() =~= entries@.take(i as int));
        let ghost before = texts_of(sigs@);
        if eq_str(entries[i].name, name) {
            sigs.push(entries[i].signature);
            assert(texts_of(sigs@) =~= before.push(entries@[i as int].signature@));
        }
    }
    assert(entries@.take(entries@.len() as int) =~= entries@);
    assert(texts_of(sigs@).len() == sigs@.len());
    if sigs.len() == 0 {
        return None;
    }
    let mut r = "```kotlin\n".to_owned();
    r.append(join_lines(&sigs).as_str());
    r.append("\n```\n*(Kotlin stdlib)*");
    Some(r)
}

/// The completion of an entry.
pub fn make_item(
    name: &'static str,
    kind: CompletionItemKind,
    signature: &'static str,
    snippets: bool,
) -> (r: CompletionItem)
    ensures
        r@ == item_of(name@, kind, signature@, snippets),
{
    let calls = snippets && kind != CompletionItemKind::Class;
    let mut sort_text = "z:".to_owned();
    sort_text.append(name);
    let (insert_text, insert_text_format) = if calls {
        let mut call = name.to_owned();
        call.append("($1)");
        (Some(call), Some(InsertTextFormat::Snippet))
    } else {
        (None, None)
    };
    CompletionItem {
        label: name.to_owned(),
        kind,
        detail: signature.to_owned(),
        sort_text,
        insert_text,
        insert_text_format,
    }
}

/// Whether one of the items has this label.
fn is_listed(items: &Vec<CompletionItem>, label: &str) -> (r: bool)
    ensures
        r == has_label(item_views(items@), label@),
{
    for i in 0..items.len()
        invariant
            forall|j: int| 0 <= j < i ==> (#[trigger] item_views(items@)[j]).label != label@,
    {
        if eq_str(items[i].label.as_str(), label) {
            assert(item_views(items@)[i as int].label == label@);
            return true;
        }
    }
    false
}

/// The kind that a bare name completes to.
fn kind_of_bare(name: &str) -> (r: CompletionItemKind)
    ensures
        r == bare_kind(name@),
{
    let v = chars_of(name);
    if v.len() > 0 && v[0].is_uppercase() {
        CompletionItemKind::Class
    } else {
        CompletionItemKind::Function
    }
}

/// The completions of the entries.
fn complete(entries: &Vec<StdlibEntry>, behind_dot: bool, snippets: bool) -> (r: Vec<
    CompletionItem,
>)
    ensures
        item_views(r@) == completions(entries@, behind_dot, snippets),
{
    let mut items: Vec<CompletionItem> = Vec::new();
    assert(entries@.take(0) =~= Seq::<StdlibEntry>::empty());
    assert(item_views(items@) =~= completions(entries@.take(0), behind_dot, snippets));
    for i in 0..entries.len()
        invariant
            item_views(items@) == completions(entries@.take(i as int), behind_dot, snippets),
    {
        assert(entries@.take(i + 1).drop_last() =~= entries@.take(i as int));
        let ghost before = item_views(items@);
        let e = entries[i];
        let kind = if behind_dot {
            CompletionItemKind::Method
        } else {
            kind_of_bare(e.name)
        };
        if (!behind_dot || e.is_extension) && !is_listed(&items, e.name) {
            items.push(make_item(e.name, kind, e.signature, snippets));
            assert(item_views(items@) =~= before.push(
                item_of(e.name@, kind, e.signature@, snippets),
            ));
        }
    }
    assert(entries@.take(entries@.len() as int) =~= entries@);
    items
}

/// Completions behind a dot, on any receiver.
pub fn dot_completions(snippets: bool) -> (r: Vec<CompletionItem>)
    ensures
        item_views(r@) == completions(all_entries(), true, snippets),
{
    complete(&all(), true, snippets)
}

/// Completions of a bare name: top-level and scope functions.
pub fn bare_completions(snippets: bool) -> (r: Vec<CompletionItem>)
    ensures
        item_views(r@) == completions(bare_entries(), false, snippets),
{
    let mut entries: Vec<StdlibEntry> = Vec::new();
    table(SCOPE_FUNS.as_slice(), &mut entries);
    table(TOP_LEVEL_FUNS.as_slice(), &mut entries);
    assert(entries@ =~= bare_entries());
    complete(&entries, false, snippets)
}

/// Whether one of the names is `name`.
fn is_one_of(list: &[&'static str], name: &str) -> (r: bool)
    ensures
        r == names(list@, name@),
{
    for i in 0..list.len()
        invariant
            forall|j: int| 0 <= j < i ==> (#[trigger] list@[j])@ != name@,
    {
        if eq_str(list[i], name) {
            return true;
        }
    }
    false
}

/// Completions behind a dot on a receiver of this type.
pub fn dot_completions_for(receiver: &str, snippets: bool) -> (r: Vec<CompletionItem>)
    ensures
        item_views(r@) == completions(receiver_entries(receiver@), true, snippets),
{
    let mut entries: Vec<StdlibEntry> = Vec::new();
    table(SCOPE_FUNS.as_slice(), &mut entries);
    if is_one_of(STRING_TYPES.as_slice(), receiver) {
        table(STRING_FUNS.as_slice(), &mut entries);
    }
    if is_one_of(COLLECTION_TYPES.as_slice(), receiver) {
        table(COLLECTION_FUNS.as_slice(), &mut entries);
    }
    assert(entries@ =~= receiver_entries(receiver@));
    complete(&entries, true, snippets)
}

} // verus!
