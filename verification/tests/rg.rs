use kotlin_lsp::rg::find::{
    definition_search, implementors_search, is_implementor_line, rg_find_definition,
    rg_find_implementors, rg_word_search, word_search,
};
use kotlin_lsp::rg::hits::{has_wrong_qualifier, is_declaration_of};
use kotlin_lsp::rg::ignore::IgnoreMatcher;
use kotlin_lsp::rg::pattern::{build_rg_pattern, regex_escape};
use kotlin_lsp::rg::references::{
    build_rg_patterns, extend_unique_files, merge_decl_files, scope_decl_files,
    should_skip_reference, ReferenceStage, ReferenceStep, RgSearchRequest,
};
use kotlin_lsp::rg::root::{effective_rg_root, git_candidates, walk_to_git_root};
use kotlin_lsp::rg::search::{
    parse_rg_line, parse_rg_line_with_content_rooted, printed, RgOutput, RgSearch, RgTarget,
};
use kotlin_lsp::types::{Location, Position, Range};
use tower_lsp::lsp_types::Url;

fn output(stdout: &str) -> RgOutput {
    RgOutput { stdout: stdout.to_string(), canonical: Vec::new() }
}

fn file_uri(path: &str) -> String {
    Url::from_file_path(path).unwrap().to_string()
}

fn owned(paths: &[&str]) -> Vec<String> {
    paths.iter().map(|p| p.to_string()).collect()
}

fn files_of(locs: &[Location]) -> Vec<String> {
    locs.iter()
        .map(|l| l.uri.path().to_string())
        .collect()
}

#[test]
fn rg_line_absolute_path_parsed() {
    let line = "/home/user/project/Foo.kt:10:5:class Foo {";
    let loc = parse_rg_line(line).unwrap();
    assert_eq!(loc.range.start.line, 9); // 1-indexed → 0-indexed
    assert_eq!(loc.range.start.character, 4);
    assert_eq!(loc.uri.path(), "/home/user/project/Foo.kt");
}

#[test]
fn rg_line_relative_path_ignored() {
    let line = "src/Foo.kt:10:5:class Foo {";
    assert!(
        parse_rg_line(line).is_none(),
        "relative paths must be ignored"
    );
}

#[test]
fn rg_line_of_another_form_is_ignored() {
    for line in ["", "/a.kt", "/a.kt:1", "/a.kt:x:1:c", "/a.kt:1:x:c", "/a.kt:99999999999:1:c"] {
        assert!(parse_rg_line(line).is_none(), "{line}");
    }
    let loc = parse_rg_line("/a.kt: 0 :+7").unwrap();
    assert_eq!(loc.range.start, Position { line: 0, character: 6 });
}

#[test]
fn rg_line_content_may_hold_colons() {
    let hit = parse_rg_line_with_content_rooted("/r/A.kt:2:3:val a: Map<B, C> // x:y", "/r", &None);
    let (loc, content) = hit.unwrap();
    assert_eq!(content, "val a: Map<B, C> // x:y");
    assert_eq!(loc.range.start, Position { line: 1, character: 2 });
}

#[test]
fn rg_line_is_taken_from_the_root() {
    let (loc, _) = parse_rg_line_with_content_rooted("src/A.kt:1:1:x", "/root", &None).unwrap();
    assert_eq!(loc.uri.as_str(), file_uri("/root/src/A.kt"));
    let canonical = Some("/real/src/A.kt".to_string());
    let (loc, _) = parse_rg_line_with_content_rooted("src/A.kt:1:1:x", "rel", &canonical).unwrap();
    assert_eq!(loc.uri.as_str(), file_uri("/real/src/A.kt"));
    assert!(parse_rg_line_with_content_rooted("src/A.kt:1:1:x", "rel", &None).is_none());
    let (loc, _) = parse_rg_line_with_content_rooted("/b/A.kt:1:1:x", "/root", &canonical).unwrap();
    assert_eq!(loc.uri.as_str(), file_uri("/b/A.kt"));
}

#[test]
fn locations_keep_the_order_of_the_output() {
    let search = RgSearch::rooted("/w");
    let out = output("/w/B.kt:2:1:b\nnoise\n/w/A.kt:1:1:a\r\n");
    let locs = search.locations(&out);
    assert_eq!(files_of(&locs), owned(&["/w/B.kt", "/w/A.kt"]));
    let hits = search.locations_with_content(&out);
    assert_eq!(hits[1].1, "a");
}

#[test]
fn relative_paths_are_named_for_canonicalizing() {
    let search = RgSearch::rooted("rel");
    let named = search.relative_paths("a.kt:1:1:x\n/b.kt:1:1:x\nnoise\n");
    assert_eq!(named, vec![Some("rel/a.kt".to_string()), None, None]);
}

#[test]
fn is_declaration_of_matches_exact_name() {
    assert!(is_declaration_of("    fun create(): Foo", "create"));
    assert!(is_declaration_of("    fun create(x: Int): Foo", "create"));
    assert!(is_declaration_of("val create: Factory", "create"));
}

#[test]
fn is_declaration_of_rejects_longer_name_with_same_prefix() {
    // "fun createWidget" must NOT be treated as a declaration of "create"
    assert!(!is_declaration_of(
        "    fun createWidget(): Widget",
        "create"
    ));
    assert!(!is_declaration_of(
        "    fun createReducer() = factory.create()",
        "create"
    ));
    assert!(!is_declaration_of(
        "    fun createAccount(name: String): Account",
        "create"
    ));
}

#[test]
fn is_declaration_of_rejects_call_site_in_non_declaration() {
    assert!(!is_declaration_of("    val x = factory.create()", "create"));
    assert!(!is_declaration_of(
        "    fun build() = factory.create()",
        "create"
    ));
}

#[test]
fn regex_escape_escapes_all_but_words() {
    assert_eq!(regex_escape("foo_Bar9"), "foo_Bar9");
    assert_eq!(regex_escape("a.b*"), r"a\.b\*");
    assert_eq!(regex_escape("ö"), "ö");
}

#[test]
fn rg_pattern_ends_with_the_escaped_name() {
    let pattern = build_rg_pattern("a.b");
    assert!(pattern.starts_with("(?:(?:class|struct|interface|object"));
    assert!(pattern.ends_with(r"|extension\s+)a\.b\b"));
}

#[test]
fn wrong_qualifier_of_a_sibling() {
    assert!(has_wrong_qualifier("val f: ReducerC.Factory", "Factory", "ReducerA"));
    assert!(!has_wrong_qualifier("val f: ReducerA.Factory", "Factory", "ReducerA"));
    assert!(!has_wrong_qualifier("val f: Factory", "Factory", "ReducerA"));
    assert!(!has_wrong_qualifier("x.Factory2 and .Factory", "Factory", "ReducerA"));
    assert!(has_wrong_qualifier("Outer.ReducerA.Factory", "Factory", "ReducerA"));
    assert!(has_wrong_qualifier("ReducerA.Factory, B.Factory", "Factory", "ReducerA"));
}

#[test]
fn rg_arguments_of_a_rooted_search() {
    let args = RgSearch::rooted("/w").with_pattern("a".to_string()).build_command(&[]);
    assert_eq!(
        args,
        owned(&[
            "--no-heading", "--with-filename", "--line-number", "--column", "--glob", "*.kt",
            "--glob", "*.java", "--glob", "*.swift", "-e", "a", "/w",
        ])
    );
}

#[test]
fn rg_arguments_of_a_listing_in_source_paths() {
    let search = RgSearch::scoped(&owned(&["src", "/abs", "gone"]), "/w")
        .list_files()
        .word_regexp()
        .with_patterns(&owned(&["a", "b"]));
    assert_eq!(search.candidate_dirs(), owned(&["/w/src", "/abs", "/w/gone"]));
    let args = search.build_command(&[true, true, false]);
    assert_eq!(
        args,
        owned(&[
            "-l", "--word-regexp", "--glob", "*.kt", "--glob", "*.java", "--glob", "*.swift", "-e",
            "a", "-e", "b", "/w/src", "/abs",
        ])
    );
    let args = search.build_command(&[false, false]);
    assert_eq!(args.last().unwrap(), "/w");
}

#[test]
fn rg_arguments_of_given_files() {
    let args = RgSearch::files(&owned(&["/a.kt", "/b.kt"])).build_command(&[]);
    assert_eq!(args[args.len() - 3..], owned(&["--", "/a.kt", "/b.kt"]));
    assert!(RgSearch::files(&owned(&["/a.kt"])).files_with_matches("/a.kt\n").is_empty());
}

#[test]
fn listed_files_are_taken_from_the_root() {
    let listed = RgSearch::rooted("/w").list_files().files_with_matches("a.kt\n/x/b.kt\n");
    assert_eq!(listed, owned(&["/w/a.kt", "/x/b.kt"]));
    let scoped = RgSearch::scoped(&owned(&["src"]), "/w").files_with_matches("src/a.kt");
    assert_eq!(scoped, owned(&["/w/src/a.kt"]));
    assert!(matches!(RgSearch::scoped(&[], "/w").target, RgTarget::Root(_)));
}

#[test]
fn bare_ignore_patterns_match_at_any_depth() {
    let m = IgnoreMatcher::new(owned(&["bazel-*"]), "/w");
    assert!(m.matches("bazel-out"));
    assert!(m.matches("a/bazel-out/b.kt"));
    assert!(!m.matches("src/bazel.kt"));
    assert!(!m.is_empty());
}

#[test]
fn rooted_ignore_patterns_match_from_the_root() {
    let m = IgnoreMatcher::new(owned(&["build/**"]), "/w");
    assert!(m.matches("build/a.kt"));
    assert!(!m.matches("app/build/a.kt"));
}

#[test]
fn ignore_patterns_take_in_what_lies_inside() {
    let m = IgnoreMatcher::new(owned(&["build/generated", "out/"]), "/w");
    assert!(m.matches("build/generated"));
    assert!(m.matches("build/generated/a/B.kt"));
    assert!(!m.matches("app/build/generated/B.kt"));
    assert!(!m.matches("build/generated2/B.kt"));
    assert!(m.matches("out/A.kt"));
    assert!(!m.matches("app/out/A.kt"));
}

#[test]
fn matchers_of_two_lists_exclude_what_either_does() {
    let one = IgnoreMatcher::new(owned(&["gen"]), "/w");
    let two = IgnoreMatcher::new(owned(&["a/b", "*.java"]), "/w");
    let both = IgnoreMatcher::new(owned(&["gen", "a/b", "*.java"]), "/w");
    let turned = IgnoreMatcher::new(owned(&["a/b", "*.java", "gen"]), "/w");
    let none = IgnoreMatcher::new(Vec::new(), "/w");
    for path in ["gen/A.kt", "x/gen", "a/b", "a/b/C.kt", "a/C.kt", "x/D.java", "x/D.kt", ""] {
        assert_eq!(both.matches(path), one.matches(path) || two.matches(path), "{path}");
        assert_eq!(both.matches(path), turned.matches(path), "{path}");
        assert!(!none.matches(path));
    }
}

#[test]
fn hits_above_the_root_keep_their_path() {
    let m = IgnoreMatcher::new(owned(&["../gen/**"]), "/ws");
    let hit = parse_rg_line("/ws/../gen/F.kt:1:1:x").unwrap();
    let other = parse_rg_line("/ws/../src/F.kt:1:1:x").unwrap();
    assert_eq!(hit.uri.to_file_path().unwrap().to_str(), Some("/ws/../gen/F.kt"));
    let kept = m.filter_locs(vec![hit, other]);
    assert_eq!(kept.len(), 1);
    assert_eq!(kept[0].uri.as_str(), "file:///ws/../src/F.kt");
}

#[test]
fn locations_go_by_the_bytes_of_their_path() {
    let point = Position { line: 0, character: 0 };
    let at = |uri: &str| Location {
        uri: Url::parse(uri).unwrap(),
        range: Range { start: point, end: point },
    };
    let uris = |locs: Vec<Location>| -> Vec<String> {
        locs.into_iter().map(|l| l.uri.to_string()).collect()
    };
    let one_byte = IgnoreMatcher::new(owned(&["?.kt"]), "/w");
    assert!(!one_byte.matches("\u{fffd}.kt"));
    let kept = one_byte.filter_locs(vec![at("file:///w/%FF.kt"), at("file:///w/%FF%FF.kt")]);
    assert_eq!(uris(kept), vec!["file:///w/%FF%FF.kt"]);
    let accented = IgnoreMatcher::new(owned(&["g\u{e9}n/**"]), "/w\u{e9}");
    let kept = accented.filter_locs(vec![
        at("file:///w%C3%A9/g%C3%A9n/A.kt"),
        at("file:///w%C3%A9/gen/A.kt"),
        at("file:///w%E9/g%C3%A9n/A.kt"),
    ]);
    assert_eq!(uris(kept), vec!["file:///w%C3%A9/gen/A.kt", "file:///w%E9/g%C3%A9n/A.kt"]);
}

#[test]
fn failed_runs_print_nothing() {
    assert_eq!(printed(true, "a:1:1:x".to_string()), "a:1:1:x");
    assert_eq!(printed(false, "a:1:1:x".to_string()), "");
}

#[test]
fn absolute_ignore_patterns_are_relative_to_the_root() {
    let m = IgnoreMatcher::new(owned(&["/w/gen", "/elsewhere/src"]), "/w");
    assert!(m.matches("gen/a.kt"));
    assert!(!m.matches("src/a.kt"));
    assert_eq!(m.patterns, owned(&["/w/gen", "/elsewhere/src"]));
}

#[test]
fn invalid_ignore_patterns_exclude_nothing() {
    let m = IgnoreMatcher::new(owned(&["a{b", "gen"]), "/w");
    assert!(m.matches("gen/x.kt"));
    assert!(!m.matches("a{b/x.kt"));
    assert!(IgnoreMatcher::new(Vec::new(), "/w").is_empty());
}

#[test]
fn filters_keep_order_and_drop_excluded_files() {
    let m = IgnoreMatcher::new(owned(&["gen"]), "/w");
    let files = owned(&["/w/src/A.kt", "/w/gen/B.kt", "/other/C.kt"]);
    assert_eq!(m.filter_file_strings(files.clone()), owned(&["/w/src/A.kt", "/other/C.kt"]));
    assert_eq!(m.filter_paths(files.clone()), m.filter_file_strings(files));
    let point = Position { line: 0, character: 0 };
    let at = |uri: &str| Location {
        uri: Url::parse(uri).unwrap(),
        range: Range { start: point, end: point },
    };
    let locs = vec![at("file:///w/gen/B.kt"), at("untitled:x"), at("file:///w/src/A.kt")];
    let kept: Vec<String> = m.filter_locs(locs).into_iter().map(|l| l.uri.to_string()).collect();
    assert_eq!(kept, owned(&["untitled:x", "file:///w/src/A.kt"]));
    assert!(m.glob_set().is_match("gen"));
}

#[test]
fn uris_escape_what_paths_may_hold() {
    let loc = parse_rg_line("/w/a b.kt:1:1:x").unwrap();
    assert_eq!(loc.uri.as_str(), "file:///w/a%20b.kt");
    let m = IgnoreMatcher::new(owned(&["a b.kt"]), "/w");
    assert!(m.filter_locs(vec![loc]).is_empty());
}

#[test]
fn git_root_is_the_nearest_with_a_git_directory() {
    assert_eq!(
        git_candidates("/w/app/src/A.kt"),
        owned(&["/w/app/src/.git", "/w/app/.git", "/w/.git", "/.git"])
    );
    assert_eq!(walk_to_git_root("/w/app/src/A.kt", &[false, false, true, true]).unwrap(), "/w");
    assert!(walk_to_git_root("/w/A.kt", &[false, false]).is_none());
}

#[test]
fn effective_root_prefers_the_workspace_of_the_open_file() {
    let root = effective_rg_root(Some("/w"), Some("/w/a/B.kt"), &[true], Some("/cwd"));
    assert_eq!(root.as_deref(), Some("/w"));
    let root = effective_rg_root(Some("/w"), Some("/w2/a/B.kt"), &[false, true], Some("/cwd"));
    assert_eq!(root.as_deref(), Some("/w2"));
    let root = effective_rg_root(Some("/w"), Some("/x/B.kt"), &[], Some("/cwd"));
    assert_eq!(root.as_deref(), Some("/x"));
    assert_eq!(effective_rg_root(Some("/w"), None, &[], None).as_deref(), Some("/w"));
    assert_eq!(effective_rg_root(None, None, &[], Some("/cwd")).as_deref(), Some("/cwd"));
    assert!(effective_rg_root(None, Some("/"), &[], None).is_none());
}

#[test]
fn definitions_leave_out_ignored_directories() {
    let search = definition_search("MyClass", Some("/w"), "", &[]);
    assert_eq!(search.patterns, vec![build_rg_pattern("MyClass")]);
    let out = output("/w/src/Real.kt:2:1:class MyClass\n/w/buildSrc/generated/MyClass.kt:2:1:class MyClass\n");
    let matcher = IgnoreMatcher::new(owned(&["buildSrc"]), "/w");
    let locs = rg_find_definition(&search, &out, Some(&matcher));
    assert_eq!(files_of(&locs), owned(&["/w/src/Real.kt"]));
    assert_eq!(rg_find_definition(&search, &out, None).len(), 2);
    assert_eq!(definition_search("A", None, "/cwd", &[]).parse_root, "/cwd");
}

#[test]
fn implementors_look_like_type_declarations() {
    assert!(is_implementor_line("  CLASS Foo : Bar", "Bar"));
    assert!(is_implementor_line("enum Foo implements Bar", "Bar"));
    assert!(!is_implementor_line("val x: Bar", "Bar"));
    assert!(!is_implementor_line("class Foo : Baz", "Bar"));
    let search = implementors_search("Bar", Some("/w"), &[]).unwrap();
    let out = output("/w/A.kt:1:1:class A : Bar\n/w/B.kt:1:1:val b: Bar\n");
    assert_eq!(files_of(&rg_find_implementors("Bar", &search, &out, None)), owned(&["/w/A.kt"]));
    assert!(implementors_search("Bar", None, &[]).is_none());
}

#[test]
fn word_search_looks_for_the_escaped_word() {
    let search = word_search("a.b", "/w", &[]);
    assert!(search.word_regexp);
    assert_eq!(search.patterns, owned(&[r"a\.b"]));
    assert_eq!(rg_word_search(&search, &output("/w/A.kt:1:1:a.b")).len(), 1);
}

#[test]
fn file_lists_grow_without_repeats() {
    let mut files = owned(&["a", "b"]);
    extend_unique_files(&mut files, owned(&["b", "c", "c"]));
    assert_eq!(files, owned(&["a", "b", "c"]));
    merge_decl_files(&mut files, &owned(&["c", "d"]));
    assert_eq!(files, owned(&["a", "b", "c", "d"]));
}

#[test]
fn declaration_files_are_scoped_by_components() {
    let decl = owned(&["/src/main/kotlin/A.kt", "/src/main/kotlin2/B.kt"]);
    assert_eq!(
        scope_decl_files(&decl, &owned(&["/src/main/kotlin"])),
        owned(&["/src/main/kotlin/A.kt"])
    );
    assert_eq!(scope_decl_files(&decl, &[]), decl);
}

fn request<'a>(
    name: &'a str,
    parent: Option<&'a str>,
    package: Option<&'a str>,
    include_decl: bool,
    from_uri: &'a str,
    decl_files: &'a [String],
) -> RgSearchRequest<'a> {
    RgSearchRequest::new(name, parent, package, Some("/w"), "", include_decl, from_uri, decl_files)
}

#[test]
fn reference_patterns_depend_on_what_is_known() {
    let all = request("Event", Some("A"), Some("p.q"), true, "", &[]);
    assert_eq!(
        build_rg_patterns(&all),
        owned(&[r"\bA\.\bEvent\b", r"import[^\n]*\bA\.(?:Event\b|\*)", "Event"])
    );
    let package = request("Event", None, Some("p.q"), true, "", &[]);
    assert_eq!(
        build_rg_patterns(&package),
        owned(&[
            r"import[^\n]*\bp\.q\b[^\n]*\bEvent\b|import[^\n]*\bp\.q\b\.\*",
            r"^\s*package\s+p\.q\s*$",
            "Event",
        ])
    );
    let plain = request("Event", None, None, true, "", &[]);
    assert_eq!(build_rg_patterns(&plain), owned(&["Event"]));
}

#[test]
fn imports_and_own_declarations_are_no_references() {
    let uri = file_uri("/w/A.kt");
    let here = parse_rg_line("/w/A.kt:1:1:x").unwrap();
    let there = parse_rg_line("/w/B.kt:1:1:x").unwrap();
    let without = request("foo", None, None, false, &uri, &[]);
    let with = request("foo", None, None, true, &uri, &[]);
    assert!(should_skip_reference(&here, "  import a.foo", &with));
    assert!(should_skip_reference(&here, "package foo", &with));
    assert!(should_skip_reference(&here, "fun foo() {}", &without));
    assert!(!should_skip_reference(&here, "fun foo() {}", &with));
    assert!(!should_skip_reference(&here, "foo()", &without));
    assert!(!should_skip_reference(&there, "fun foo() {}", &without));
}

/// The files of a project, and what ripgrep prints of them for the searches of these tests.
struct Project {
    files: Vec<(String, String)>,
}

impl Project {
    fn words(pattern: &str) -> Vec<String> {
        let import = r"import[^\n]*\b";
        if let Some(rest) = pattern.strip_prefix(import) {
            let parent = rest.split(r"\.(?:").next().unwrap().to_string();
            let name = rest.split(r"\.(?:").nth(1).unwrap().split(r"\b").next().unwrap();
            return vec!["import".to_string(), format!("{parent}.{name}")];
        }
        vec![pattern.replace(r"\b", "").replace(r"\.", ".")]
    }

    fn run(&self, search: &RgSearch) -> RgOutput {
        let mut stdout = String::new();
        for (path, content) in &self.files {
            if let RgTarget::Files(only) = &search.target {
                if !only.contains(path) {
                    continue;
                }
            }
            for (number, line) in content.lines().enumerate() {
                let words = Project::words(&search.patterns[0]);
                if words.iter().all(|w| line.contains(w.as_str())) {
                    if search.list_files {
                        stdout.push_str(&format!("{path}\n"));
                        break;
                    }
                    let column = line.find(words[0].as_str()).unwrap() + 1;
                    stdout.push_str(&format!("{path}:{}:{column}:{line}\n", number + 1));
                }
            }
        }
        output(&stdout)
    }

    fn references(&self, request: &RgSearchRequest, matcher: Option<&IgnoreMatcher>) -> Vec<Location> {
        let mut stage = ReferenceStage::first(request);
        let mut runs = 0;
        loop {
            runs += 1;
            assert!(runs <= 3, "a reference search makes at most three runs");
            let out = self.run(&stage.search(request));
            match stage.advance(request, matcher, &out) {
                ReferenceStep::Next(next) => stage = next,
                ReferenceStep::Done(locs) => return locs,
            }
        }
    }
}

fn contract(package: &str, name: &str) -> String {
    format!("package {package}\ninterface {name} {{\n  sealed interface Event\n}}\n")
}

fn view_model(package: &str, contract: &str, name: &str) -> String {
    format!(
        "package {package}\nimport {package}.{contract}.Event\nclass {name} {{\n  fun handle(e: Event) {{}}\n}}\n"
    )
}

fn two_contracts() -> Project {
    Project {
        files: vec![
            (
                "/w/activate_contract.kt".to_string(),
                contract("com.example.activate", "ActivateUpdateAppContract"),
            ),
            (
                "/w/other_contract.kt".to_string(),
                contract("com.example.other", "OtherContract"),
            ),
            (
                "/w/activate_vm.kt".to_string(),
                view_model("com.example.activate", "ActivateUpdateAppContract", "ActivateViewModel"),
            ),
            (
                "/w/other_vm.kt".to_string(),
                view_model("com.example.other", "OtherContract", "OtherViewModel"),
            ),
        ],
    }
}

#[test]
fn refs_inner_class_does_not_bleed_across_contracts() {
    let uri = file_uri("/w/activate_contract.kt");
    let decl_files = owned(&["/w/activate_contract.kt"]);
    let request = request(
        "Event",
        Some("ActivateUpdateAppContract"),
        Some("com.example.activate"),
        true,
        &uri,
        &decl_files,
    );
    let hit_files = files_of(&two_contracts().references(&request, None));
    assert!(hit_files.contains(&"/w/activate_contract.kt".to_string()));
    assert!(hit_files.contains(&"/w/activate_vm.kt".to_string()));
    assert!(!hit_files.contains(&"/w/other_vm.kt".to_string()));
    assert!(!hit_files.contains(&"/w/other_contract.kt".to_string()));
}

#[test]
fn refs_inner_class_resolved_from_import_in_reference_file() {
    let uri = file_uri("/w/other_vm.kt");
    let decl_files = owned(&["/w/other_contract.kt"]);
    let request = request(
        "Event",
        Some("OtherContract"),
        Some("com.example.other"),
        true,
        &uri,
        &decl_files,
    );
    let hit_files = files_of(&two_contracts().references(&request, None));
    assert!(hit_files.contains(&"/w/other_contract.kt".to_string()));
    assert!(hit_files.contains(&"/w/other_vm.kt".to_string()));
    assert!(!hit_files.contains(&"/w/activate_vm.kt".to_string()));
}

#[test]
fn refs_decl_files_filtered_by_enclosing_class() {
    let project = Project {
        files: vec![
            (
                "/w/DashboardContract.kt".to_string(),
                contract("com.example.dashboard", "DashboardContract"),
            ),
            (
                "/w/VisitBranchContract.kt".to_string(),
                contract("com.example.visitbranch", "VisitBranchContract"),
            ),
            (
                "/w/DashboardViewModel.kt".to_string(),
                view_model("com.example.dashboard", "DashboardContract", "DashboardViewModel"),
            ),
            (
                "/w/VisitBranchViewModel.kt".to_string(),
                view_model("com.example.visitbranch", "VisitBranchContract", "VisitBranchViewModel"),
            ),
        ],
    };
    let uri = file_uri("/w/DashboardContract.kt");
    let decl_files = owned(&["/w/DashboardContract.kt"]);
    let request = request(
        "Event",
        Some("DashboardContract"),
        Some("com.example.dashboard"),
        true,
        &uri,
        &decl_files,
    );
    let hit_files = files_of(&project.references(&request, None));
    assert!(hit_files.contains(&"/w/DashboardContract.kt".to_string()));
    assert!(hit_files.contains(&"/w/DashboardViewModel.kt".to_string()));
    assert!(!hit_files.contains(&"/w/VisitBranchViewModel.kt".to_string()));
    assert!(!hit_files.contains(&"/w/VisitBranchContract.kt".to_string()));
}

#[test]
fn references_in_ignored_directories_are_dropped() {
    let project = Project {
        files: vec![
            (
                "/w/src/Contract.kt".to_string(),
                "package com.example\nclass Contract {\n  class Event\n}\n".to_string(),
            ),
            (
                "/w/src/User.kt".to_string(),
                "package com.example\nimport com.example.Contract.Event\nfun use(e: Event) {}\n"
                    .to_string(),
            ),
            (
                "/w/buildSrc/User.kt".to_string(),
                "import com.example.Contract.Event\nfun use(e: Contract.Event) {}\n".to_string(),
            ),
        ],
    };
    let uri = file_uri("/w/src/Contract.kt");
    let decl_files = owned(&["/w/src/Contract.kt"]);
    let matcher = IgnoreMatcher::new(owned(&["buildSrc"]), "/w");
    let request = request("Event", Some("Contract"), Some("com.example"), true, &uri, &decl_files);
    let hit_files = files_of(&project.references(&request, Some(&matcher)));
    assert_eq!(hit_files, owned(&["/w/src/Contract.kt", "/w/src/User.kt"]));
}

#[test]
fn references_of_an_owner_are_looked_for_where_it_is_mentioned() {
    let project = Project {
        files: vec![
            (
                "/w/Reducer.kt".to_string(),
                "class RegularReducer {\n  class Factory { fun create() }\n}\n".to_string(),
            ),
            (
                "/w/Caller.kt".to_string(),
                "class Caller(val factory: RegularReducer.Factory) {\n  val x = factory.create()\n}\n"
                    .to_string(),
            ),
            (
                "/w/Sibling.kt".to_string(),
                "class SiblingReducer {\n  fun create()\n}\n".to_string(),
            ),
        ],
    };
    let uri = file_uri("/w/Reducer.kt");
    let request = request("create", Some("Factory"), None, true, &uri, &[])
        .with_owner_class("RegularReducer");
    let hit_files = files_of(&project.references(&request, None));
    assert_eq!(hit_files, owned(&["/w/Reducer.kt", "/w/Caller.kt"]));
}

#[test]
fn references_scoped_to_source_paths() {
    let source_paths = owned(&["/w/app/src"]);
    let decl_files = owned(&["/w/app/src/A.kt", "/w/generated/A.kt"]);
    let request = request("Event", Some("Contract"), None, true, "", &decl_files)
        .with_source_paths(&source_paths);
    let first = ReferenceStage::first(&request);
    assert_eq!(first.search(&request).candidate_dirs(), source_paths);
    let step = first.advance(&request, None, &output("/w/app/src/U.kt:1:1:Contract.Event"));
    let ReferenceStep::Next(second) = step else { panic!("the importers come second") };
    assert!(second.search(&request).list_files);
    let step = second.advance(&request, None, &output(""));
    let ReferenceStep::Next(third) = step else { panic!("the declaration file is left") };
    match third.search(&request).target {
        RgTarget::Files(files) => assert_eq!(files, owned(&["/w/app/src/A.kt"])),
        _ => panic!("the bare name is looked for in files"),
    }
    let bare = "/w/app/src/U.kt:1:1:Contract.Event\n/w/app/src/A.kt:3:2:Event\n/w/app/src/A.kt:4:2:Other.Event\n";
    match third.advance(&request, None, &output(bare)) {
        ReferenceStep::Done(locs) => {
            assert_eq!(files_of(&locs), owned(&["/w/app/src/U.kt", "/w/app/src/A.kt"]));
        }
        ReferenceStep::Next(_) => panic!("the search is over"),
    }
}

#[test]
fn plain_and_package_references() {
    let plain = request("foo", None, None, true, "", &[]);
    let stage = ReferenceStage::first(&plain);
    assert!(stage.search(&plain).word_regexp);
    match stage.advance(&plain, None, &output("/w/A.kt:1:1:foo()\n/w/A.kt:2:1:import a.foo\n")) {
        ReferenceStep::Done(locs) => assert_eq!(locs.len(), 1),
        ReferenceStep::Next(_) => panic!("one run is enough"),
    }
    let package = request("foo", None, Some("p"), true, "", &[]);
    let stage = ReferenceStage::first(&package);
    let ReferenceStep::Next(stage) = stage.advance(&package, None, &output("/w/A.kt\n")) else {
        panic!("the members come second")
    };
    let ReferenceStep::Next(stage) = stage.advance(&package, None, &output("/w/A.kt\n/w/B.kt\n"))
    else {
        panic!("the bare name comes third")
    };
    match stage.search(&package).target {
        RgTarget::Files(files) => assert_eq!(files, owned(&["/w/A.kt", "/w/B.kt"])),
        _ => panic!("the bare name is looked for in files"),
    }
    let stage = ReferenceStage::first(&package);
    let ReferenceStep::Next(stage) = stage.advance(&package, None, &output("")) else {
        panic!("the members come second")
    };
    assert!(matches!(
        stage.advance(&package, None, &output("")),
        ReferenceStep::Done(locs) if locs.is_empty()
    ));
}
