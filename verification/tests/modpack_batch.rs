use theseus::error::ErrorKind;
use theseus::modpack_batch::{
    flush_deadline, BatchEvent, BatchNext, DatabaseBatch, CONTENT_DATABASE_BATCH_SIZE,
    CONTENT_DATABASE_FLUSH_INTERVAL_MS,
};

fn run<T>(events: Vec<BatchEvent<T>>) -> Option<BatchNext<T>> {
    let mut batch = DatabaseBatch::new();
    for event in events {
        match batch.step(event) {
            BatchNext::Wait => {}
            other => return Some(other),
        }
    }
    None
}

#[test]
fn modpack_database_batch_flushes_when_channel_closes() {
    match run(vec![BatchEvent::Received(1_u8), BatchEvent::Received(2_u8), BatchEvent::Closed]) {
        Some(BatchNext::Flush(Some(batch))) => assert_eq!(batch, vec![1, 2]),
        _ => panic!("a closed channel should flush the batch"),
    }
    assert!(matches!(run::<u8>(vec![BatchEvent::Closed]), Some(BatchNext::Flush(None))));
}

#[test]
fn modpack_database_batch_flushes_at_size_limit() {
    let events: Vec<BatchEvent<usize>> = (0..CONTENT_DATABASE_BATCH_SIZE + 3).map(BatchEvent::Received).collect();
    match run(events) {
        Some(BatchNext::Flush(Some(batch))) => {
            assert_eq!(batch.len(), CONTENT_DATABASE_BATCH_SIZE);
            assert_eq!(batch, (0..CONTENT_DATABASE_BATCH_SIZE).collect::<Vec<_>>());
        }
        _ => panic!("a full database batch should flush immediately"),
    }
}

#[test]
fn modpack_database_batch_wait_is_cancelable() {
    match run::<u8>(vec![BatchEvent::Canceled]) {
        Some(BatchNext::Fail(ErrorKind::OtherError(message))) => assert!(message.contains("canceled")),
        _ => panic!("database queue cancellation should be immediate"),
    }
    match run(vec![BatchEvent::Received(3_u8), BatchEvent::Canceled]) {
        Some(BatchNext::Flush(Some(batch))) => assert_eq!(batch, vec![3]),
        _ => panic!("a started batch is handed back on cancellation"),
    }
}

#[test]
fn partial_modpack_database_batch_flushes_on_interval() {
    assert!(run::<u8>(vec![BatchEvent::Deadline]).is_none());
    match run(vec![BatchEvent::Received(7_u8), BatchEvent::Deadline]) {
        Some(BatchNext::Flush(Some(batch))) => assert_eq!(batch, vec![7]),
        _ => panic!("a partial database batch should flush on the interval"),
    }
    assert_eq!(flush_deadline(1_000), 1_000 + CONTENT_DATABASE_FLUSH_INTERVAL_MS);
    assert_eq!(flush_deadline(u64::MAX - 1), u64::MAX);
}

#[test]
fn batches_restart_after_a_flush() {
    let mut batch = DatabaseBatch::new();
    assert!(!batch.started());
    assert!(matches!(batch.step(BatchEvent::Received(1_u8)), BatchNext::Wait));
    assert!(batch.started());
    assert!(matches!(batch.step(BatchEvent::Deadline), BatchNext::Flush(Some(_))));
    assert!(!batch.started());
}
