use kotlin_lsp::workspace::scan_queue::{ScanArgs, ScanKind, ScanQueue};
use tokio::sync::oneshot;

fn dummy_args(root: &str) -> ScanArgs<oneshot::Sender<()>> {
    ScanArgs {
        root: root.to_string(),
        kind: ScanKind::Full,
        source_paths: Vec::new(),
        completion_tx: None,
        expected_generation: 0,
        reset_before_scan: false,
    }
}

#[test]
fn starts_when_idle() {
    let mut q = ScanQueue::new();
    q.request(dummy_args("/a"));
    let args = q.try_start().expect("should start when idle");
    assert_eq!(args.root, "/a");
    assert!(q.is_in_progress());
}

#[test]
fn returns_none_when_busy() {
    let mut q = ScanQueue::new();
    q.request(dummy_args("/a"));
    q.try_start();
    q.request(dummy_args("/b"));
    assert!(q.try_start().is_none(), "should not start a second scan");
}

#[test]
fn last_write_wins() {
    let mut q = ScanQueue::new();
    q.request(dummy_args("/a"));
    q.try_start();
    q.request(dummy_args("/b"));
    q.request(dummy_args("/c"));
    q.completed();
    let args = q.try_start().expect("pending should have /c");
    assert_eq!(args.root, "/c");
}

#[test]
fn completion_tx_dropped_when_superseded() {
    let mut q = ScanQueue::new();
    q.request(dummy_args("/a"));
    q.try_start();

    let (tx1, mut rx1) = oneshot::channel::<()>();
    q.request(ScanArgs {
        root: "/b".to_string(),
        kind: ScanKind::Full,
        source_paths: Vec::new(),
        completion_tx: Some(tx1),
        expected_generation: 0,
        reset_before_scan: false,
    });
    q.request(dummy_args("/c"));

    assert!(matches!(
        rx1.try_recv(),
        Err(tokio::sync::oneshot::error::TryRecvError::Closed)
    ));
}

#[test]
fn idle_when_no_pending_after_complete() {
    let mut q = ScanQueue::new();
    q.request(dummy_args("/a"));
    q.try_start();
    q.completed();
    assert!(!q.is_in_progress());
    assert!(q.try_start().is_none(), "nothing pending");
}
