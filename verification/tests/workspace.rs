use kotlin_lsp::workspace::actor::{Actor, WorkspaceAction, WorkspaceEvent};
use kotlin_lsp::workspace::config::{
    existing_paths, layout_candidates, Discovery, WorkspaceConfig,
};
use kotlin_lsp::workspace::file_changes::{drain_file_changed_batch, FileChangeHandler};
use kotlin_lsp::workspace::scan_handler::ScanHandler;
use kotlin_lsp::workspace::scan_queue::ScanKind;
use kotlin_lsp::workspace_json::{
    load_library_paths, load_source_paths, ContentRootData, ModuleData, SourceRootData,
    WorkspaceJson,
};
use serde_json::Value;

fn owned(paths: &[&str]) -> Vec<String> {
    paths.iter().map(|p| p.to_string()).collect()
}

fn list<'a>(value: &'a Value, key: &str) -> Vec<&'a Value> {
    match value.get(key).and_then(|v| v.as_array()) {
        Some(items) => items.iter().collect(),
        None => Vec::new(),
    }
}

fn text(value: &Value, key: &str) -> String {
    value.get(key).and_then(|v| v.as_str()).unwrap_or("").to_string()
}

fn source_root(value: &Value) -> SourceRootData {
    SourceRootData { path: text(value, "path"), root_type: text(value, "type") }
}

fn workspace_json(json: &str) -> WorkspaceJson {
    let value: Value = serde_json::from_str(json).unwrap();
    let modules = list(&value, "modules")
        .into_iter()
        .map(|module| ModuleData {
            content_roots: list(module, "contentRoots")
                .into_iter()
                .map(|root| ContentRootData {
                    source_roots: list(root, "sourceRoots").into_iter().map(source_root).collect(),
                })
                .collect(),
        })
        .collect();
    let source_paths = value.get("sourcePaths").and_then(|v| v.as_array()).map(|paths| {
        paths.iter().map(|p| p.as_str().unwrap().to_string()).collect()
    });
    WorkspaceJson { modules, source_paths }
}

#[test]
fn extracts_java_source_and_java_test() {
    let data = workspace_json(
        r#"{
            "modules": [{
                "contentRoots": [{
                    "sourceRoots": [
                        {"path": "<WORKSPACE>/src/main/kotlin", "type": "java-source"},
                        {"path": "<WORKSPACE>/src/test/kotlin", "type": "java-test"},
                        {"path": "<WORKSPACE>/src/main/resources", "type": "java-resource"},
                        {"path": "<WORKSPACE>/src/test/resources", "type": "java-test-resource"}
                    ]
                }]
            }]
        }"#,
    );
    let paths = load_source_paths(&data, "/ws");
    assert_eq!(paths.len(), 2);
    assert_eq!(paths[0], "/ws/src/main/kotlin");
    assert_eq!(paths[1], "/ws/src/test/kotlin");
    // resources excluded
    assert!(!paths.iter().any(|p| p.ends_with("resources")));
}

#[test]
fn deduplicates_paths_across_modules() {
    let data = workspace_json(
        r#"{
        "modules": [
            {"contentRoots": [{"sourceRoots": [{"path": "<WORKSPACE>/src/main/kotlin", "type": "java-source"}]}]},
            {"contentRoots": [{"sourceRoots": [{"path": "<WORKSPACE>/src/main/kotlin", "type": "java-source"}]}]}
        ]
    }"#,
    );
    assert_eq!(load_source_paths(&data, "/ws").len(), 1);
}

#[test]
fn paths_of_one_directory_count_once() {
    let data = workspace_json(
        r#"{
        "modules": [{"contentRoots": [{"sourceRoots": [
            {"path": "<WORKSPACE>/src/main", "type": "java-source"},
            {"path": "<WORKSPACE>//src/./main/", "type": "java-test"}
        ]}]}]
    }"#,
    );
    assert_eq!(load_source_paths(&data, "/ws"), owned(&["/ws/src/main"]));
}

#[test]
fn resolves_workspace_placeholder() {
    let data = workspace_json(
        r#"{
        "modules": [{"contentRoots": [{"sourceRoots": [
            {"path": "<WORKSPACE>/app/src/main/kotlin", "type": "java-source"}
        ]}]}]
    }"#,
    );
    let paths = load_source_paths(&data, "/ws");
    assert_eq!(paths.len(), 1);
    assert!(paths[0].starts_with('/'));
    assert!(paths[0].ends_with("app/src/main/kotlin"));
}

#[test]
fn empty_modules_returns_empty() {
    let data = workspace_json(r#"{"modules": []}"#);
    assert!(load_source_paths(&data, "/ws").is_empty());
    assert!(load_library_paths(&data, "/ws").is_none());
}

fn config(root: &str, explicit: &[&str]) -> WorkspaceConfig {
    WorkspaceConfig {
        root: root.to_string(),
        explicit_source_paths: owned(explicit),
        ignore_patterns: Vec::new(),
        pin_workspace: false,
    }
}

fn nothing_found() -> Discovery {
    Discovery { workspace_json: None, layout_paths: Vec::new(), default_sources: None }
}

#[test]
fn no_workspace_json_no_build_file_no_layout_paths() {
    let sources = config("/ws", &[]).resolve_sources(&nothing_found());
    assert!(!sources.iter().any(|s| s.starts_with("/ws")));
}

#[test]
fn explicit_paths_are_included() {
    let sources =
        config("/ws", &["/some/external/lib", "/another/lib"]).resolve_sources(&nothing_found());
    assert!(sources.contains(&"/some/external/lib".to_string()));
    assert!(sources.contains(&"/another/lib".to_string()));
}

#[test]
fn explicit_paths_come_first() {
    let found = Discovery { layout_paths: owned(&["/ws/src/main/kotlin"]), ..nothing_found() };
    let sources = config("/ws", &["/explicit"]).resolve_sources(&found);
    let explicit_pos = sources.iter().position(|s| s == "/explicit").expect("explicit path missing");
    let layout_pos =
        sources.iter().position(|s| s.ends_with("src/main/kotlin")).expect("layout path missing");
    assert!(explicit_pos < layout_pos);
}

#[test]
fn no_duplicate_paths() {
    let found = Discovery { layout_paths: owned(&["/ws/src/main/kotlin"]), ..nothing_found() };
    let sources = config("/ws", &["/ws/src/main/kotlin"]).resolve_sources(&found);
    let count = sources.iter().filter(|s| s.as_str() == "/ws/src/main/kotlin").count();
    assert_eq!(count, 1);
}

#[test]
fn workspace_json_paths_are_included() {
    let data = workspace_json(
        r#"{"modules": [{"contentRoots": [{"sourceRoots": [
            {"path": "<WORKSPACE>/src/main/kotlin", "type": "java-source"}
        ]}]}]}"#,
    );
    let found = Discovery { workspace_json: Some(data), ..nothing_found() };
    let sources = config("/ws", &[]).resolve_sources(&found);
    assert!(sources.contains(&"/ws/src/main/kotlin".to_string()));
}

#[test]
fn workspace_json_replaces_layout_and_default_sources() {
    let found = Discovery {
        workspace_json: Some(workspace_json(r#"{"sourcePaths": ["<WORKSPACE>/stubs", "/abs"]}"#)),
        layout_paths: owned(&["/ws/src/main/kotlin"]),
        default_sources: Some("/home/u/.kotlin-lsp/sources".to_string()),
    };
    assert_eq!(config("/ws", &[]).resolve_sources(&found), owned(&["/ws/stubs", "/abs"]));
    let found = Discovery {
        workspace_json: Some(workspace_json(r#"{"sourcePaths": []}"#)),
        ..found
    };
    assert!(config("/ws", &[]).resolve_sources(&found).is_empty());
    let found = Discovery { workspace_json: None, ..found };
    assert_eq!(
        config("/ws", &[]).resolve_sources(&found),
        owned(&["/ws/src/main/kotlin", "/home/u/.kotlin-lsp/sources"])
    );
}

#[test]
fn layout_of_each_module() {
    let candidates = layout_candidates(&owned(&["/ws", "/ws/app"]));
    assert_eq!(candidates.len(), 8);
    assert_eq!(candidates[0], "/ws/src/main/kotlin");
    assert_eq!(candidates[7], "/ws/app/src/test/java");
    let is_dir = [true, false, false, false, false, true];
    assert_eq!(
        existing_paths(&candidates, &is_dir),
        owned(&["/ws/src/main/kotlin", "/ws/app/src/main/java"])
    );
}

#[test]
fn initialize_sets_root_and_source_paths() {
    let mut handler: ScanHandler<u32> = ScanHandler::new();
    assert!(handler.current_root().is_none() && !handler.is_ready());
    let found = Discovery {
        workspace_json: Some(workspace_json(r#"{"sourcePaths":[]}"#)),
        ..nothing_found()
    };
    let mut cfg = config("/ws", &["/some/lib"]);
    cfg.ignore_patterns = owned(&["gen"]);
    let scan = handler.handle_initialize(cfg, &found, Some(7)).unwrap();
    assert_eq!(handler.current_root().as_deref(), Some("/ws"));
    assert_eq!(handler.source_paths, owned(&["/some/lib"]));
    assert_eq!(handler.phase.ready().unwrap().source_paths, owned(&["/some/lib"]));
    assert!(handler.ignore_matcher.as_ref().unwrap().matches("gen/A.kt"));
    assert_eq!(scan.root, "/ws");
    assert_eq!(scan.completion_tx, Some(7));
    assert!(!scan.reset_before_scan);
    assert!(matches!(&scan.kind, ScanKind::Prioritized { initial_paths } if initial_paths.is_empty()));
    assert!(handler.is_current(scan.expected_generation));
    assert!(handler.is_scanning() && !handler.is_ready());
    assert!(handler.scan_finished().is_none());
    assert!(handler.is_ready());
}

#[test]
fn reindex_without_a_workspace_does_nothing() {
    let mut handler: ScanHandler<u32> = ScanHandler::new();
    assert!(handler.handle_reindex().is_none());
    assert!(!handler.is_scanning());
    handler.handle_initialize(config("/ws", &["/lib"]), &nothing_found(), None);
    handler.scan_finished();
    let scan = handler.handle_reindex().unwrap();
    assert!(matches!(scan.kind, ScanKind::Full));
    assert!(scan.reset_before_scan);
    assert_eq!(scan.source_paths, owned(&["/lib"]));
}

#[test]
fn switching_the_root_drops_the_old_configuration() {
    let mut handler: ScanHandler<u32> = ScanHandler::new();
    let mut cfg = config("/old", &["/lib"]);
    cfg.ignore_patterns = owned(&["gen"]);
    let first = handler.handle_initialize(cfg, &nothing_found(), None).unwrap();
    assert!(handler.handle_change_root("/new", &nothing_found()).is_none());
    assert!(handler.workspace_pinned);
    assert!(handler.ignore_matcher.is_none() && handler.source_paths.is_empty());
    assert!(!handler.is_current(first.expected_generation));
    let next = handler.scan_finished().unwrap();
    assert_eq!(next.root, "/new");
    assert!(handler.is_current(next.expected_generation));
    handler.scan_finished();
    let opened = handler
        .switch_workspace_root_for_opened_document("/doc", Some("/doc/A.kt".to_string()), &nothing_found())
        .unwrap();
    match opened.kind {
        ScanKind::Prioritized { initial_paths } => assert_eq!(initial_paths, owned(&["/doc/A.kt"])),
        ScanKind::Full => panic!("the opened document comes first"),
    }
}

#[test]
fn a_superseded_reset_is_carried_over() {
    let mut handler: ScanHandler<u32> = ScanHandler::new();
    handler.handle_initialize(config("/1", &[]), &nothing_found(), None);
    handler.handle_change_root("/2", &nothing_found());
    handler.handle_initialize(config("/3", &[]), &nothing_found(), None);
    let scan = handler.scan_finished().unwrap();
    assert_eq!(scan.root, "/3");
    assert!(scan.reset_before_scan);
    handler.scan_finished();
    let scan = handler.handle_initialize(config("/4", &[]), &nothing_found(), None).unwrap();
    assert!(!scan.reset_before_scan);
}

fn initialize(root: &str, completion_tx: Option<u32>) -> WorkspaceEvent<u32> {
    WorkspaceEvent::Initialize { config: config(root, &[]), completion_tx }
}

#[test]
fn later_initializations_wait_and_the_last_one_runs() {
    let mut actor: Actor<u32, u32> = Actor::new();
    let found = nothing_found();
    let first = actor.handle_event(initialize("/1", None), &found, &[]);
    assert!(matches!(first, WorkspaceAction::StartScan(args) if args.root == "/1"));
    assert!(matches!(actor.handle_event(initialize("/2", None), &found, &[]), WorkspaceAction::Nothing));
    assert!(matches!(actor.handle_event(initialize("/3", Some(3)), &found, &[]), WorkspaceAction::Nothing));
    assert_eq!(actor.scans.current_root().as_deref(), Some("/3"));
    assert!(!actor.is_serving());
    match actor.scan_done(1) {
        WorkspaceAction::StartScan(args) => {
            assert_eq!(args.root, "/3");
            assert_eq!(args.completion_tx, Some(3));
            assert!(actor.scans.is_current(args.expected_generation));
        }
        _ => panic!("the waiting scan starts"),
    }
    assert!(!actor.is_serving());
    assert!(matches!(actor.scan_done(3), WorkspaceAction::Nothing));
    assert!(actor.is_serving());
}

#[test]
fn becoming_ready_is_announced_once() {
    let mut actor: Actor<u32, u32> = Actor::new();
    let found = nothing_found();
    assert!(!actor.became_ready());
    actor.handle_event(initialize("/1", None), &found, &[]);
    assert!(!actor.became_ready());
    assert!(!actor.is_serving());
    actor.scan_done(1);
    assert!(actor.became_ready());
    assert!(!actor.became_ready());
    assert!(actor.is_serving());
    actor.handle_event(WorkspaceEvent::Reindex, &found, &[]);
    assert!(!actor.became_ready());
    assert!(actor.is_serving());
    actor.scan_done(1);
    assert!(actor.became_ready());
    assert!(actor.is_serving());
}

#[test]
fn the_last_change_of_a_batch_counts() {
    assert_eq!(drain_file_changed_batch(owned(&["v1", "v2", "v3"])).as_deref(), Some("v3"));
    assert!(drain_file_changed_batch(Vec::new()).is_none());
}

#[test]
fn a_change_cancels_the_waiting_task_of_its_file() {
    let mut actor: Actor<u32, u32> = Actor::new();
    let found = nothing_found();
    let change = |uri: &str| WorkspaceEvent::FileChanged {
        uri: uri.to_string(),
        changes: vec!["text".to_string()],
    };
    match actor.handle_event(change("a"), &found, &[]) {
        WorkspaceAction::UpdateFile { uri, text, cancel } => {
            assert_eq!((uri.as_str(), text.as_str(), cancel), ("a", "text", None));
        }
        _ => panic!("the file is updated"),
    }
    actor.files.schedule("a", 1);
    actor.files.schedule("b", 2);
    let action = actor.handle_event(change("a"), &found, &[false, false]);
    assert!(matches!(action, WorkspaceAction::UpdateFile { cancel: Some(1), .. }));
    let action = actor.handle_event(change("b"), &found, &[true]);
    assert!(matches!(action, WorkspaceAction::UpdateFile { cancel: None, .. }));
    actor.files.schedule("b", 3);
    let close = WorkspaceEvent::FileClosed { uri: "b".to_string() };
    let action = actor.handle_event(close, &found, &[]);
    assert!(matches!(action, WorkspaceAction::CloseFile { cancel: Some(3), .. }));
    let none = WorkspaceEvent::FileChanged { uri: "b".to_string(), changes: Vec::new() };
    assert!(matches!(actor.handle_event(none, &found, &[]), WorkspaceAction::Nothing));
}

#[test]
fn file_events_are_passed_on() {
    let mut actor: Actor<u32, u32> = Actor::new();
    let found = nothing_found();
    let open = WorkspaceEvent::FileOpened {
        uri: "u".to_string(),
        language_id: "kotlin".to_string(),
        content: "c".to_string(),
    };
    assert!(open.root_to_discover().is_none());
    assert!(matches!(
        actor.handle_event(open, &found, &[]),
        WorkspaceAction::OpenFile { content, .. } if content == "c"
    ));
    let save = WorkspaceEvent::FileSaved { uri: "u".to_string() };
    assert!(matches!(actor.handle_event(save, &found, &[]), WorkspaceAction::SaveFile { .. }));
    let delete = WorkspaceEvent::FileDeleted { uri: "u".to_string() };
    assert!(matches!(actor.handle_event(delete, &found, &[]), WorkspaceAction::DeleteFile { .. }));
    let root = WorkspaceEvent::ChangeRoot { root: "/r".to_string() };
    assert_eq!(root.root_to_discover().as_deref(), Some("/r"));
    assert!(matches!(actor.handle_event(root, &found, &[]), WorkspaceAction::StartScan(_)));
}

#[test]
fn rescheduling_hands_back_the_earlier_task() {
    let mut files: FileChangeHandler<u32> = FileChangeHandler::new();
    files.schedule("a", 1);
    files.schedule("b", 2);
    assert_eq!(files.supersede("a", &[false, false]), Some(1));
    files.schedule("a", 3);
    assert_eq!(files.pending_reindex, vec![("b".to_string(), 2), ("a".to_string(), 3)]);
    assert_eq!(files.supersede("a", &[false, true]), None);
    assert_eq!(files.pending_reindex, vec![("b".to_string(), 2)]);
}

#[test]
fn the_root_of_an_opened_document_is_switched_to() {
    let mut actor: Actor<u32, u32> = Actor::new();
    match actor.switch_root("/doc", Some("/doc/A.kt".to_string()), &nothing_found()) {
        WorkspaceAction::StartScan(args) => {
            assert_eq!(args.root, "/doc");
            assert!(args.reset_before_scan);
        }
        _ => panic!("a scan starts"),
    }
    assert!(actor.scans.workspace_pinned);
    assert_eq!(actor.scans.current_root().as_deref(), Some("/doc"));
}

#[test]
fn finished_tasks_are_forgotten() {
    let mut files: FileChangeHandler<u32> = FileChangeHandler::new();
    files.schedule("a", 1);
    files.schedule("b", 2);
    files.schedule("c", 3);
    files.drop_finished(&[true, false, true]);
    assert_eq!(files.pending_reindex, vec![("b".to_string(), 2)]);
    assert_eq!(files.supersede("b", &[]), Some(2));
    assert!(files.cancel_pending_reindex("b").is_none());
}
