use kotlin_lsp::resolver::declarations::find_declaration_range_in_lines;
use kotlin_lsp::resolver::imports::{
    already_imported, import_file_candidates, import_file_stems, import_insertion_line,
    import_package_prefix, package_prefix,
};
use kotlin_lsp::resolver::infer::{
    extract_collection_element_type, infer_type_in_lines, infer_type_in_lines_raw,
};
use kotlin_lsp::resolver::matching::{is_annotation_context, is_screaming_snake, match_score};
use kotlin_lsp::resolver::receiver::ReceiverType;
use kotlin_lsp::types::{ImportEntry, Position};

#[test]
fn package_prefix_standard() {
    assert_eq!(package_prefix("com.example.app.MyClass"), "com.example.app");
    assert_eq!(
        package_prefix("com.example.OuterClass.InnerClass"),
        "com.example"
    );
    assert_eq!(package_prefix("MyClass"), "");
    assert_eq!(package_prefix("com.example.Foo"), "com.example");
}

#[test]
fn import_package_prefix_strips_lowercase_leaf() {
    assert_eq!(
        import_package_prefix("androidx.compose.ui.res.stringResource"),
        "androidx.compose.ui.res"
    );
    assert_eq!(
        import_package_prefix("com.example.OuterClass.InnerClass"),
        "com.example"
    );
    assert_eq!(import_package_prefix("com.example.Foo"), "com.example");
}

#[test]
fn package_is_what_the_path_begins_with() {
    for path in ["com.example.Foo", "a.b.c", "Foo.bar", "", "x"] {
        assert!(path.starts_with(&package_prefix(path)));
    }
    assert_eq!(package_prefix("a.b.c"), "a.b.c");
    assert_eq!(import_package_prefix("x"), "");
}

#[test]
fn import_candidates_top_level() {
    let c = import_file_candidates("com.example.Foo");
    assert_eq!(c[0], "Foo.kt");
    assert_eq!(c[1], "Foo.java");
    assert_eq!(c[2], "Foo.swift");
}

#[test]
fn import_candidates_nested() {
    let c = import_file_candidates("com.example.OuterClass.InnerClass");
    assert_eq!(c[0], "OuterClass.kt"); // outer class file tried first
    assert_eq!(c[1], "OuterClass.java");
    assert_eq!(c[2], "OuterClass.swift");
    assert_eq!(c[3], "InnerClass.kt");
    assert_eq!(c[4], "InnerClass.java");
    assert_eq!(c[5], "InnerClass.swift");
}

#[test]
fn import_candidates_deeply_nested() {
    let c = import_file_candidates("a.b.Outer.Middle.Inner");
    assert_eq!(c[0], "Middle.kt");
    assert_eq!(c[1], "Middle.java");
    assert_eq!(c[2], "Middle.swift");
    assert_eq!(c[3], "Inner.kt");
    assert_eq!(c[4], "Inner.java");
    assert_eq!(c[5], "Inner.swift");
}

#[test]
fn import_candidates_no_uppercase() {
    assert!(import_file_candidates("com.example.pkg").is_empty());
}

#[test]
fn file_stems_top_level() {
    assert_eq!(
        import_file_stems("cz.moneta.data.EProductScreen"),
        vec!["EProductScreen"]
    );
}

#[test]
fn file_stems_nested() {
    let s = import_file_stems("com.example.OuterClass.InnerClass");
    assert_eq!(s, vec!["OuterClass", "InnerClass"]);
}

#[test]
fn infer_type_in_lines_dotted() {
    let lines: Vec<String> =
        vec!["  private val factory: DashboardProductsReducer.Factory,".to_owned()];
    let t = infer_type_in_lines(&lines, "factory");
    assert_eq!(t.as_deref(), Some("DashboardProductsReducer.Factory"));
}

#[test]
fn local_decl_lambda_untyped() {
    let lines: Vec<String> = vec![
        "list.forEach { account ->".to_string(),
        "  println(account)".to_string(),
    ];
    let range = find_declaration_range_in_lines(&lines, "account");
    assert!(range.is_some(), "untyped lambda param not found");
    assert_eq!(range.unwrap().start.line, 0);
}

#[test]
fn local_decl_lambda_typed() {
    let lines: Vec<String> = vec!["items.map { item: DetailItem ->".to_string()];
    let range = find_declaration_range_in_lines(&lines, "item");
    assert!(range.is_some(), "typed lambda param not found");
}

#[test]
fn local_decl_no_false_positive_usage() {
    let lines: Vec<String> = vec!["val result = account.name".to_string()];
    let range = find_declaration_range_in_lines(&lines, "account");
    assert!(range.is_none(), "false positive on usage line");
}

#[test]
fn declarations_have_utf16_columns() {
    let lines: Vec<String> = vec!["use(total)".to_string(), "/* \u{1f600} */ val total = 1".to_string()];
    let range = find_declaration_range_in_lines(&lines, "total").unwrap();
    assert_eq!(range.start, Position { line: 1, character: 13 });
    assert_eq!(range.end, Position { line: 1, character: 18 });
}

#[test]
fn declarations_are_whole_words() {
    let lines: Vec<String> = vec!["val subtotal = 1".to_string(), "Foo::total".to_string()];
    assert!(find_declaration_range_in_lines(&lines, "total").is_none());
    assert!(find_declaration_range_in_lines(&lines, "").is_none());
    let lines: Vec<String> = vec!["fun total() {}".to_string()];
    assert_eq!(find_declaration_range_in_lines(&lines, "total").unwrap().start.character, 4);
}

#[test]
fn extract_collection_element_list() {
    assert_eq!(
        extract_collection_element_type("List<Product>"),
        Some("Product".into())
    );
}

#[test]
fn extract_collection_element_mutable_list() {
    assert_eq!(
        extract_collection_element_type("MutableList<User>"),
        Some("User".into())
    );
}

#[test]
fn extract_collection_element_flow() {
    assert_eq!(
        extract_collection_element_type("Flow<Event>"),
        Some("Event".into())
    );
}

#[test]
fn extract_collection_element_state_flow() {
    assert_eq!(
        extract_collection_element_type("StateFlow<UiState>"),
        Some("UiState".into())
    );
}

#[test]
fn extract_collection_element_map_returns_first() {
    // Map is not in the collection list → returns None (it's more complex).
    // forEach on Map gives Map.Entry, not the first type arg.
    assert_eq!(extract_collection_element_type("Map<String, Int>"), None);
}

#[test]
fn extract_collection_element_non_collection() {
    // Plain class → not a collection, returns None.
    assert_eq!(extract_collection_element_type("User"), None);
}

#[test]
fn extract_collection_element_nested_arguments() {
    assert_eq!(
        extract_collection_element_type("List<Map<String, Int>>"),
        Some("Map<String, Int>".into())
    );
    assert_eq!(
        extract_collection_element_type("List<(A) -> B>"),
        Some("(A) -> B".into())
    );
    assert_eq!(extract_collection_element_type("List<Open"), None);
}

#[test]
fn infer_type_in_lines_raw_keeps_generics() {
    let lines: Vec<String> = vec!["val items: List<Product> = emptyList()".into()];
    assert_eq!(
        infer_type_in_lines_raw(&lines, "items"),
        Some("List<Product>".into())
    );
}

#[test]
fn infer_type_in_lines_raw_state_flow() {
    let lines: Vec<String> = vec!["    private val _state: StateFlow<UiState>".into()];
    assert_eq!(
        infer_type_in_lines_raw(&lines, "_state"),
        Some("StateFlow<UiState>".into())
    );
}

#[test]
fn infer_type_in_lines_raw_by_lazy_single_line() {
    let lines: Vec<String> = vec!["    private val repo by lazy { UserRepository() }".into()];
    assert_eq!(
        infer_type_in_lines_raw(&lines, "repo"),
        Some("UserRepository".into())
    );
}

#[test]
fn infer_type_in_lines_raw_explicit_annotation_takes_priority() {
    let lines: Vec<String> =
        vec!["    private val repo: UserRepository by lazy { UserRepository() }".into()];
    assert_eq!(
        infer_type_in_lines_raw(&lines, "repo"),
        Some("UserRepository".into())
    );
}

#[test]
fn infer_type_in_lines_constructor_call() {
    let lines: Vec<String> = vec!["    val viewModel = DashboardViewModel()".into()];
    assert_eq!(
        infer_type_in_lines(&lines, "viewModel"),
        Some("DashboardViewModel".into())
    );
}

#[test]
fn infer_type_in_lines_raw_constructor_call() {
    let lines: Vec<String> = vec!["    val viewModel = DashboardViewModel()".into()];
    assert_eq!(
        infer_type_in_lines_raw(&lines, "viewModel"),
        Some("DashboardViewModel".into())
    );
}

#[test]
fn infer_type_in_lines_class_literal_retrofit() {
    let lines: Vec<String> = vec!["    val api = retrofit.create(DashboardApi::class.java)".into()];
    assert_eq!(
        infer_type_in_lines(&lines, "api"),
        Some("DashboardApi".into())
    );
}

#[test]
fn infer_type_in_lines_raw_class_literal_kotlin() {
    let lines: Vec<String> = vec!["    val api = retrofit.create(DashboardApi::class)".into()];
    assert_eq!(
        infer_type_in_lines_raw(&lines, "api"),
        Some("DashboardApi".into())
    );
}

#[test]
fn infer_type_in_lines_bare_class_literal_not_matched() {
    let lines: Vec<String> = vec!["    val key = SomeType::class".into()];
    assert_eq!(infer_type_in_lines(&lines, "key"), None);
}

#[test]
fn infer_type_in_lines_di_inject() {
    let lines: Vec<String> = vec!["    val repo = inject<UserRepository>()".into()];
    assert_eq!(
        infer_type_in_lines(&lines, "repo"),
        Some("UserRepository".into())
    );
}

#[test]
fn infer_type_annotation_still_wins_over_rhs() {
    let lines: Vec<String> = vec!["    val repo: UserRepository = OtherRepository()".into()];
    assert_eq!(
        infer_type_in_lines(&lines, "repo"),
        Some("UserRepository".into())
    );
}

#[test]
fn infer_type_annotation_on_a_later_line_wins() {
    let lines: Vec<String> = vec!["repo = Other()".into(), "lateinit var repo: Repo".into()];
    assert_eq!(infer_type_in_lines(&lines, "repo"), Some("Repo".into()));
}

#[test]
fn infer_type_rhs_no_false_positive_lowercase() {
    let lines: Vec<String> = vec!["    val x = someFactory.create()".into()];
    assert_eq!(infer_type_in_lines(&lines, "x"), None);
}

#[test]
fn infer_type_rhs_no_false_positive_equality() {
    let lines: Vec<String> = vec!["    if (x == SomeType()) {".into()];
    assert_eq!(infer_type_in_lines(&lines, "x"), None);
}

#[test]
fn infer_type_in_lines_generic_create_with_type_arg() {
    let lines: Vec<String> =
        vec!["    val api = retrofit.create<ApiClass>(ApiClass::class.java)".into()];
    assert_eq!(
        infer_type_in_lines(&lines, "api"),
        Some("ApiClass".into()),
        "generic create<T>() with explicit type arg should infer T=ApiClass"
    );
}

#[test]
fn infer_type_in_lines_generic_create_type_arg_only() {
    let lines: Vec<String> = vec!["    val api = retrofit.create<ApiClass>()".into()];
    assert_eq!(
        infer_type_in_lines(&lines, "api"),
        Some("ApiClass".into()),
        "generic create<T>() with type arg only should infer T=ApiClass"
    );
}

#[test]
fn infer_type_in_lines_di_get_still_works() {
    let lines: Vec<String> = vec!["    val repo = get<UserRepository>()".into()];
    assert_eq!(
        infer_type_in_lines(&lines, "repo"),
        Some("UserRepository".into()),
        "DI get<T>() should still infer correctly"
    );
}

fn make_import_entry(full_path: &str, local_name: &str, is_star: bool) -> ImportEntry {
    ImportEntry {
        full_path: full_path.to_string(),
        local_name: local_name.to_string(),
        is_star,
    }
}

#[test]
fn already_imported_exact() {
    let imports = vec![make_import_entry("com.example.Foo", "Foo", false)];
    assert!(already_imported("com.example.Foo", &imports));
}

#[test]
fn already_imported_alias_not_counted() {
    // `import com.example.Foo as Bar` — Foo is not usable as Foo
    let imports = vec![make_import_entry("com.example.Foo", "Bar", false)];
    assert!(!already_imported("com.example.Foo", &imports));
}

#[test]
fn already_imported_star() {
    let imports = vec![make_import_entry("com.example", "*", true)];
    assert!(already_imported("com.example.Foo", &imports));
}

#[test]
fn already_imported_star_wrong_pkg() {
    let imports = vec![make_import_entry("com.other", "*", true)];
    assert!(!already_imported("com.example.Foo", &imports));
}

#[test]
fn import_insertion_after_last_import() {
    let lines = vec![
        "package com.example".to_string(),
        "".to_string(),
        "import com.example.Bar".to_string(),
        "import com.example.Baz".to_string(),
        "".to_string(),
        "class Foo {}".to_string(),
    ];
    assert_eq!(import_insertion_line(&lines), 4); // line after last import
}

#[test]
fn import_insertion_after_package_no_imports() {
    let lines = vec![
        "package com.example".to_string(),
        "".to_string(),
        "class Foo {}".to_string(),
    ];
    assert_eq!(import_insertion_line(&lines), 1); // line after package
}

#[test]
fn import_insertion_at_top_no_package_no_imports() {
    let lines = vec!["class Foo {}".to_string()];
    assert_eq!(import_insertion_line(&lines), 0);
}

#[test]
fn match_score_prefix_is_best() {
    assert_eq!(match_score("Column", "Col"), Some(0));
    assert_eq!(match_score("column", "col"), Some(0));
}

#[test]
fn match_score_acronym_is_second() {
    // CB → ColumnButton (C=Column, B=Button)
    assert_eq!(match_score("ColumnButton", "CB"), Some(1));
    // mSF → myStateFlow
    assert_eq!(match_score("myStateFlow", "mSF"), Some(1));
    // underscore-prefixed private fields: _ColumnButton, _myStateFlow
    assert_eq!(match_score("_ColumnButton", "CB"), Some(1));
    assert_eq!(match_score("_myStateFlow", "mSF"), Some(1));
}

#[test]
fn match_score_substring_is_third() {
    assert_eq!(match_score("RecyclerView", "View"), Some(2));
}

#[test]
fn match_score_no_match_returns_none() {
    assert_eq!(match_score("Column", "xyz"), None);
}

#[test]
fn match_score_of_a_name_with_itself() {
    for name in ["Column", "x", "", "_a", "ÄÖ"] {
        assert_eq!(match_score(name, name), Some(0));
    }
    assert_eq!(match_score("COLUMN", "col"), Some(0));
}

#[test]
fn is_screaming_snake_cases() {
    assert!(is_screaming_snake("MAX_SIZE"));
    assert!(is_screaming_snake("CHILD_DASHBOARD_MAX"));
    assert!(is_screaming_snake("A"));
    assert!(!is_screaming_snake("ChildDashboard"));
    assert!(!is_screaming_snake("maxSize"));
    assert!(!is_screaming_snake("_")); // no letters
    assert!(!is_screaming_snake("123")); // no letters
}

#[test]
fn is_annotation_context_detection() {
    assert!(is_annotation_context("@Composable", "Composable"));
    assert!(is_annotation_context("  @Comp", "Comp"));
    assert!(!is_annotation_context("Composable", "Composable")); // no @
    assert!(is_annotation_context("@", ""));
    assert!(is_annotation_context("  @", ""));
}

#[test]
fn receiver_type_simple() {
    let rt = ReceiverType::from_raw("MyClass".to_string());
    assert_eq!(rt.raw, "MyClass");
    assert_eq!(rt.qualified, "MyClass");
    assert_eq!(rt.outer, "MyClass");
    assert_eq!(rt.leaf, "MyClass");
    assert!(!rt.nullable);
}

#[test]
fn receiver_type_with_generics() {
    let rt = ReceiverType::from_raw("Flow<UiState>".to_string());
    assert_eq!(rt.raw, "Flow<UiState>");
    assert_eq!(rt.qualified, "Flow");
    assert_eq!(rt.outer, "Flow");
    assert_eq!(rt.leaf, "Flow");
    assert!(!rt.nullable);
}

#[test]
fn receiver_type_nullable_simple() {
    let rt = ReceiverType::from_raw("User?".to_string());
    assert_eq!(rt.raw, "User?");
    assert_eq!(rt.qualified, "User");
    assert_eq!(rt.outer, "User");
    assert_eq!(rt.leaf, "User");
    assert!(rt.nullable);
}

#[test]
fn receiver_type_nullable_generic() {
    let rt = ReceiverType::from_raw("StateFlow<UiState>?".to_string());
    assert_eq!(rt.raw, "StateFlow<UiState>?");
    assert_eq!(rt.qualified, "StateFlow");
    assert_eq!(rt.outer, "StateFlow");
    assert_eq!(rt.leaf, "StateFlow");
    assert!(rt.nullable);
}

#[test]
fn receiver_type_nullable_only_in_generic_arg_is_not_nullable() {
    // A `?` inside a generic argument must not make the outer type nullable —
    // `Box<String?>` is a non-null `Box`. Regression for the nullable-dot-call
    // diagnostic, which keys on `ReceiverType::nullable`.
    let rt = ReceiverType::from_raw("Box<String?>".to_string());
    assert_eq!(rt.qualified, "Box");
    assert!(
        !rt.nullable,
        "inner `?` must not make the outer type nullable"
    );

    // A trailing `?` after the generics still is nullable.
    let rt = ReceiverType::from_raw("List<String?>?".to_string());
    assert_eq!(rt.qualified, "List");
    assert!(rt.nullable);
}

#[test]
fn receiver_type_dotted_nested() {
    let rt = ReceiverType::from_raw("Outer.Inner".to_string());
    assert_eq!(rt.raw, "Outer.Inner");
    assert_eq!(rt.qualified, "Outer.Inner");
    assert_eq!(rt.outer, "Outer");
    assert_eq!(rt.leaf, "Inner");
    assert!(!rt.nullable);
}

#[test]
fn receiver_type_dotted_with_generics() {
    let rt = ReceiverType::from_raw("Outer.Inner<Param>".to_string());
    assert_eq!(rt.raw, "Outer.Inner<Param>");
    assert_eq!(rt.qualified, "Outer.Inner");
    assert_eq!(rt.outer, "Outer");
    assert_eq!(rt.leaf, "Inner");
    assert!(!rt.nullable);
}

#[test]
fn receiver_type_generic_with_params() {
    let rt = ReceiverType::from_raw("OneYearOlderInteractor<Params>".to_string());
    assert_eq!(rt.qualified, "OneYearOlderInteractor");
    assert_eq!(rt.outer, "OneYearOlderInteractor");
    assert_eq!(rt.leaf, "OneYearOlderInteractor");
    assert!(!rt.nullable);
}
