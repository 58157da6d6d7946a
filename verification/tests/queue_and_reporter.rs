use telegram_onedrive::queue::{ChatOperation, OutputQueue};
use telegram_onedrive::reporter::{ProgressReporter, ReporterConfig};

fn send(text: &str) -> ChatOperation {
    ChatOperation::Send { text: text.to_string() }
}

fn progress_edit(message_id: i32, text: &str) -> ChatOperation {
    ChatOperation::Edit {
        message_id,
        text: text.to_string(),
        progress: true,
    }
}

fn op_text(op: &ChatOperation) -> String {
    match op {
        ChatOperation::Send { text } => text.clone(),
        ChatOperation::Edit { text, .. } => text.clone(),
        ChatOperation::Delete { message_id } => format!("delete:{}", message_id),
    }
}

#[test]
fn one_conversation_completes_in_submission_order() {
    let mut q = OutputQueue::new(8);
    q.enqueue(1, send("a"));
    q.enqueue(1, send("b"));
    q.enqueue(1, send("c"));
    let mut seen: Vec<String> = Vec::new();
    for _ in 0..3 {
        let op = q.start_next(1).unwrap();
        seen.push(op_text(&op));
        q.complete(1);
    }
    assert_eq!(seen, vec!["a".to_string(), "b".to_string(), "c".to_string()]);
    assert!(q.start_next(1).is_none());
}

#[test]
fn one_in_flight_operation_per_conversation() {
    let mut q = OutputQueue::new(8);
    q.enqueue(1, send("a"));
    q.enqueue(1, send("b"));
    assert!(q.start_next(1).is_some());
    assert!(q.start_next(1).is_none());
    q.complete(1);
    assert!(q.start_next(1).is_some());
}

#[test]
fn conversations_never_block_each_other() {
    let mut q = OutputQueue::new(8);
    q.enqueue(1, send("one"));
    q.enqueue(2, send("two"));
    let busy = q.start_next(1).unwrap();
    assert_eq!(op_text(&busy), "one");
    // conversation 1 is busy; conversation 2 proceeds regardless
    let other = q.start_next(2).unwrap();
    assert_eq!(op_text(&other), "two");
}

#[test]
fn full_lane_sheds_oldest_progress_edit_never_sends() {
    let mut q = OutputQueue::new(2);
    q.enqueue(1, send("s1"));
    q.enqueue(1, progress_edit(5, "p1"));
    q.enqueue(1, send("s2"));
    let mut seen: Vec<String> = Vec::new();
    while let Some(op) = q.start_next(1) {
        seen.push(op_text(&op));
        q.complete(1);
    }
    assert_eq!(seen, vec!["s1".to_string(), "s2".to_string()]);
}

#[test]
fn full_lane_of_critical_operations_drops_nothing() {
    let mut q = OutputQueue::new(2);
    q.enqueue(1, send("s1"));
    q.enqueue(1, send("s2"));
    q.enqueue(1, send("s3"));
    let mut seen: Vec<String> = Vec::new();
    while let Some(op) = q.start_next(1) {
        seen.push(op_text(&op));
        q.complete(1);
    }
    assert_eq!(seen, vec!["s1".to_string(), "s2".to_string(), "s3".to_string()]);
}

#[test]
fn reporter_throttles_and_never_stacks_edits() {
    let cfg = ReporterConfig { min_interval_secs: 1, min_bytes: 10 };
    let mut rep = ProgressReporter::new(cfg, 100);
    assert!(rep.update(100, 5).is_none());
    let edit = rep.update(102, 10).unwrap();
    assert_eq!(edit.bytes, 15);
    assert!(!edit.done);
    // an edit is pending: nothing else is emitted, however far past the
    // thresholds the counters go
    assert!(rep.update(300, 1000).is_none());
    rep.edit_done();
    let edit2 = rep.update(301, 20).unwrap();
    assert_eq!(edit2.bytes, 1035);
}

#[test]
fn final_report_is_emitted_exactly_once() {
    let cfg = ReporterConfig { min_interval_secs: 60, min_bytes: 1 << 20 };
    let mut rep = ProgressReporter::new(cfg, 100);
    assert!(rep.update(101, 5).is_none());
    let done = rep.finalize(102).unwrap();
    assert!(done.done);
    assert_eq!(done.bytes, 5);
    // the final edit is now the one in flight
    assert!(rep.pending_edit);
    assert_eq!(rep.last_reported_bytes, 5);
    assert!(rep.finalize(103).is_none());
}

#[test]
fn total_size_is_carried_into_reports() {
    let cfg = ReporterConfig { min_interval_secs: 0, min_bytes: 0 };
    let mut rep = ProgressReporter::new(cfg, 0);
    rep.set_total(100);
    let edit = rep.update(1, 30).unwrap();
    assert_eq!(edit.total, Some(100));
    let done = rep.finalize(2).unwrap();
    assert_eq!(done.total, Some(100));
}
