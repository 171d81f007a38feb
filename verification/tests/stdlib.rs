use kotlin_lsp::stdlib::{
    all, bare_completions, dot_completions, dot_completions_for, hover, make_item, CompletionItem,
    CompletionItemKind, InsertTextFormat,
};

fn labels(items: &[CompletionItem]) -> Vec<&str> {
    items.iter().map(|i| i.label.as_str()).collect()
}

#[test]
fn dot_completions_string_receiver_has_string_fns() {
    let items = dot_completions_for("String", false);
    let names: Vec<&str> = items.iter().map(|i| i.label.as_str()).collect();
    assert!(names.contains(&"trim"), "String should have trim()");
    assert!(names.contains(&"split"), "String should have split()");
    assert!(names.contains(&"let"), "String should have scope fn let()");
    // Collection fns should NOT appear on String
    assert!(!names.contains(&"map"), "String should NOT have map()");
    assert!(
        !names.contains(&"filter"),
        "String should NOT have filter()"
    );
}

#[test]
fn dot_completions_list_receiver_has_collection_fns() {
    let items = dot_completions_for("List", false);
    let names: Vec<&str> = items.iter().map(|i| i.label.as_str()).collect();
    assert!(names.contains(&"map"), "List should have map()");
    assert!(names.contains(&"filter"), "List should have filter()");
    assert!(names.contains(&"forEach"), "List should have forEach()");
    assert!(names.contains(&"let"), "List should have scope fn let()");
    // String-only fns should NOT appear on List
    assert!(!names.contains(&"trim"), "List should NOT have trim()");
    assert!(!names.contains(&"split"), "List should NOT have split()");
}

#[test]
fn dot_completions_custom_type_has_scope_fns_only() {
    let items = dot_completions_for("MyDomainClass", false);
    let names: Vec<&str> = items.iter().map(|i| i.label.as_str()).collect();
    assert!(names.contains(&"let"), "domain type should have let()");
    assert!(names.contains(&"apply"), "domain type should have apply()");
    assert!(
        !names.contains(&"trim"),
        "domain type should NOT have trim()"
    );
    assert!(!names.contains(&"map"), "domain type should NOT have map()");
    assert!(
        !names.contains(&"filter"),
        "domain type should NOT have filter()"
    );
}

#[test]
fn hover_shows_the_signature() {
    assert_eq!(
        hover("let").unwrap(),
        "```kotlin\ninline fun <T, R> T.let(block: (T) -> R): R\n```\n*(Kotlin stdlib)*"
    );
}

#[test]
fn hover_shows_every_signature_of_a_name() {
    let entries = all();
    let first = entries.iter().find(|e| e.name == "isNotEmpty").unwrap();
    let count = entries.iter().filter(|e| e.name == "isNotEmpty").count();
    let text = hover("isNotEmpty").unwrap();
    assert_eq!(text.lines().count(), count + 3);
    assert!(text.contains(first.signature));
}

#[test]
fn hover_knows_nothing_of_other_names() {
    assert!(hover("noSuchFunction").is_none());
    assert!(hover("").is_none());
}

#[test]
fn every_entry_has_a_hover_text() {
    let entries = all();
    assert_eq!(entries.len(), 160);
    for e in &entries {
        assert!(hover(e.name).unwrap().contains(e.signature));
    }
}

#[test]
fn completions_do_not_repeat_a_label() {
    for items in [dot_completions(true), bare_completions(true), dot_completions_for("List", true)]
    {
        let names = labels(&items);
        for (i, name) in names.iter().enumerate() {
            assert!(!names[..i].contains(name), "{name} completes twice");
            assert!(hover(name).is_some());
        }
    }
}

#[test]
fn extensions_complete_behind_a_dot() {
    let items = dot_completions(false);
    let names = labels(&items);
    for e in all() {
        assert_eq!(names.contains(&e.name), all().iter().any(|x| x.name == e.name && x.is_extension));
    }
    assert!(items.iter().all(|i| i.kind == CompletionItemKind::Method));
    assert!(items.iter().all(|i| i.insert_text.is_none() && i.insert_text_format.is_none()));
}

#[test]
fn bare_completions_tell_types_from_functions() {
    let items = bare_completions(true);
    let list_of = items.iter().find(|i| i.label == "listOf").unwrap();
    assert_eq!(list_of.kind, CompletionItemKind::Function);
    assert_eq!(list_of.insert_text.as_deref(), Some("listOf($1)"));
    assert_eq!(list_of.sort_text, "z:listOf");
    for i in &items {
        let upper = i.label.chars().next().unwrap().is_uppercase();
        assert_eq!(upper, i.kind == CompletionItemKind::Class);
        assert_eq!(upper, i.insert_text.is_none());
    }
}

#[test]
fn items_insert_a_call_only_as_a_snippet() {
    let item = make_item("run", CompletionItemKind::Method, "fun run()", true);
    assert_eq!(item.insert_text.as_deref(), Some("run($1)"));
    assert_eq!(item.insert_text_format, Some(InsertTextFormat::Snippet));
    assert_eq!(item.detail, "fun run()");
    let plain = make_item("run", CompletionItemKind::Method, "fun run()", false);
    assert!(plain.insert_text.is_none() && plain.insert_text_format.is_none());
    let class = make_item("Pair", CompletionItemKind::Class, "class Pair", true);
    assert!(class.insert_text.is_none());
}

#[test]
fn sort_text_named_arg_prefix_is_001() {
    assert!(
        "001:foo" < "0foo",
        "named-arg prefix must beat tier-0 sort_text"
    );
    assert!(
        "001:foo" < "3foo",
        "named-arg prefix must beat tier-3 sort_text"
    );
    assert!(
        "001:foo" < "a:foo",
        "named-arg prefix must beat 'a:' keyword prefix"
    );
    assert!(
        "a:foo" < "y:foo",
        "keyword 'a:' prefix must beat live-template 'y:' prefix"
    );
    assert!(
        "a:foo" < "z:foo",
        "keyword 'a:' prefix must beat scope-fun 'z:' prefix"
    );
    assert!(
        "y:foo" < "z:foo",
        "live-template 'y:' prefix must beat scope-fun 'z:'"
    );
    let item = make_item("foo", CompletionItemKind::Function, "fun foo()", false);
    assert_eq!(item.sort_text, "z:foo");
}
