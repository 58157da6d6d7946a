use telegram_onedrive::engine::{TaskStatus, TransferEngine};
use telegram_onedrive::registry::{CancellationRegistry, RegistryError};
use telegram_onedrive::strutil::concat_chunks;

#[test]
fn downloaded_chunks_reassemble_in_order() {
    let chunks = vec![vec![1u8, 2], vec![], vec![3u8, 4, 5]];
    assert_eq!(concat_chunks(&chunks), vec![1u8, 2, 3, 4, 5]);
    let none: Vec<Vec<u8>> = Vec::new();
    assert_eq!(concat_chunks(&none), Vec::<u8>::new());
}

#[test]
fn register_twice_fails_until_unregistered() {
    let mut reg = CancellationRegistry::new();
    assert!(reg.register(1, 2).is_ok());
    assert_eq!(reg.register(1, 2).unwrap_err(), RegistryError::DuplicateTask);
    assert!(reg.unregister(1, 2));
    assert!(reg.register(1, 2).is_ok());
}

#[test]
fn duplicate_key_fails_the_second_start_before_any_stream() {
    let mut reg = CancellationRegistry::new();
    let mut a = TransferEngine::new(7, 42, 4, 1);
    let mut b = TransferEngine::new(7, 42, 4, 1);
    assert!(a.start(&mut reg).is_ok());
    assert_eq!(b.start(&mut reg).unwrap_err(), RegistryError::DuplicateTask);
    assert!(matches!(a.status, TaskStatus::Running));
    assert!(matches!(b.status, TaskStatus::Pending));
}

#[test]
fn cancel_after_completion_reports_not_found() {
    let mut reg = CancellationRegistry::new();
    let mut e = TransferEngine::new(3, 4, 4, 1);
    assert!(e.start(&mut reg).is_ok());
    e.on_chunk(&mut reg, vec![1, 2]);
    e.on_stream_end(&mut reg);
    assert!(matches!(e.status, TaskStatus::Completed));
    assert!(!reg.cancel(3, 4));
}

#[test]
fn cancel_after_failure_reports_not_found() {
    let mut reg = CancellationRegistry::new();
    let mut e = TransferEngine::new(3, 5, 4, 0);
    assert!(e.start(&mut reg).is_ok());
    let retried = e.on_error(&mut reg, true);
    assert!(!retried);
    assert!(matches!(e.status, TaskStatus::Failed));
    assert!(!reg.cancel(3, 5));
}

#[test]
fn observed_cancel_ends_the_task_cancelled_not_failed() {
    let mut reg = CancellationRegistry::new();
    let mut e = TransferEngine::new(10, 20, 4, 1);
    assert!(e.start(&mut reg).is_ok());
    assert!(reg.cancel(10, 20));
    let commits = e.on_chunk(&mut reg, vec![9, 9, 9, 9, 9]);
    assert!(commits.is_empty());
    assert!(matches!(e.status, TaskStatus::Cancelled));
    assert!(!reg.is_registered(10, 20));
}

#[test]
fn chunks_are_committed_in_order_at_contiguous_offsets() {
    let mut reg = CancellationRegistry::new();
    let mut e = TransferEngine::new(1, 1, 4, 1);
    assert!(e.start(&mut reg).is_ok());
    let c1 = e.on_chunk(&mut reg, vec![0, 1, 2]);
    assert!(c1.is_empty());
    let c2 = e.on_chunk(&mut reg, vec![3, 4, 5]);
    assert_eq!(c2.len(), 1);
    assert_eq!(c2[0].offset, 0);
    assert_eq!(c2[0].data, vec![0, 1, 2, 3]);
    let c3 = e.on_chunk(&mut reg, vec![6, 7, 8]);
    assert_eq!(c3.len(), 1);
    assert_eq!(c3[0].offset, 4);
    assert_eq!(c3[0].data, vec![4, 5, 6, 7]);
    let last = e.on_stream_end(&mut reg).unwrap();
    assert_eq!(last.offset, 8);
    assert_eq!(last.data, vec![8]);
    assert_eq!(e.committed, 9);
    assert!(matches!(e.status, TaskStatus::Completed));
}

#[test]
fn oversized_chunk_is_split_into_full_parts() {
    let mut reg = CancellationRegistry::new();
    let mut e = TransferEngine::new(2, 2, 3, 1);
    assert!(e.start(&mut reg).is_ok());
    let cs = e.on_chunk(&mut reg, vec![1, 2, 3, 4, 5, 6, 7]);
    assert_eq!(cs.len(), 2);
    assert_eq!(cs[0].offset, 0);
    assert_eq!(cs[0].data, vec![1, 2, 3]);
    assert_eq!(cs[1].offset, 3);
    assert_eq!(cs[1].data, vec![4, 5, 6]);
    assert!(e.on_stream_end(&mut reg).is_some());
}

#[test]
fn transient_errors_are_retried_a_bounded_number_of_times() {
    let mut reg = CancellationRegistry::new();
    let mut e = TransferEngine::new(6, 6, 4, 2);
    assert!(e.start(&mut reg).is_ok());
    assert!(e.on_error(&mut reg, true));
    assert!(e.on_error(&mut reg, true));
    assert!(matches!(e.status, TaskStatus::Running));
    assert!(!e.on_error(&mut reg, true));
    assert!(matches!(e.status, TaskStatus::Failed));
    assert!(!reg.is_registered(6, 6));
}

#[test]
fn fatal_error_fails_at_once_and_releases_the_key() {
    let mut reg = CancellationRegistry::new();
    let mut e = TransferEngine::new(6, 7, 4, 2);
    assert!(e.start(&mut reg).is_ok());
    assert!(!e.on_error(&mut reg, false));
    assert!(matches!(e.status, TaskStatus::Failed));
    assert!(!reg.is_registered(6, 7));
}

#[test]
fn filename_is_recorded_once_resolved() {
    let mut reg = CancellationRegistry::new();
    let mut e = TransferEngine::new(8, 8, 4, 1);
    assert!(e.start(&mut reg).is_ok());
    e.set_filename("photo.jpg".to_string());
    assert_eq!(e.filename.as_deref(), Some("photo.jpg"));
}

#[test]
fn explicit_cancel_path_releases_the_key() {
    let mut reg = CancellationRegistry::new();
    let mut e = TransferEngine::new(9, 9, 4, 1);
    assert!(e.start(&mut reg).is_ok());
    e.on_cancel(&mut reg);
    assert!(matches!(e.status, TaskStatus::Cancelled));
    assert!(!reg.is_registered(9, 9));
    assert!(!reg.cancel(9, 9));
}

#[test]
fn independent_keys_do_not_disturb_each_other() {
    let mut reg = CancellationRegistry::new();
    assert!(reg.register(1, 1).is_ok());
    assert!(reg.register(2, 2).is_ok());
    assert!(reg.cancel(1, 1));
    assert!(reg.is_cancelled(1, 1));
    assert!(!reg.is_cancelled(2, 2));
    assert!(reg.unregister(2, 2));
    assert!(reg.is_registered(1, 1));
}
