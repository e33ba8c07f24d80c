//! Gathering modpack file records into batches for the database: a batch starts with
//! the first record received and ends when it is full, when no more records will come,
//! when the flush interval has passed, or when the install is canceled.
use vstd::prelude::*;

use crate::error::{other_error, ErrorKind};

verus! {

/// The most records written in one batch.
pub const CONTENT_DATABASE_BATCH_SIZE: usize = 25;

/// How long a started batch waits for more records, in milliseconds.
pub const CONTENT_DATABASE_FLUSH_INTERVAL_MS: u64 = 500;

/// What happened while the collector waited.
pub enum BatchEvent<T> {
    /// The install was canceled.
    Canceled,
    /// A record arrived.
    Received(T),
    /// No more records will come.
    Closed,
    /// The flush interval of the started batch has passed.
    Deadline,
}

/// What the collector does next.
pub enum BatchNext<T> {
    /// Keep waiting (for the flush deadline too, once a batch has started).
    Wait,
    /// The batch is complete; `None` when the records ran out before one started.
    Flush(Option<Vec<T>>),
    /// The wait failed.
    Fail(ErrorKind),
}

/// A batch of records being gathered.
pub struct DatabaseBatch<T> {
    records: Vec<T>,
}

impl<T> DatabaseBatch<T> {
    /// The records gathered so far.
    pub closed spec fn gathered(&self) -> Seq<T> {
        self.records@
    }

    /// A batch never holds a full load while it is still gathering.
    pub closed spec fn wf(&self) -> bool {
        self.records@.len() < CONTENT_DATABASE_BATCH_SIZE
    }

    /// No batch started yet.
    pub fn new() -> (b: Self)
        ensures
            b.wf(),
            b.gathered() == Seq::<T>::empty(),
    {
        DatabaseBatch { records: Vec::new() }
    }

    /// Whether a batch has started (and the flush deadline runs).
    pub fn started(&self) -> (r: bool)
        ensures
            r == (self.gathered().len() > 0),
    {
        self.records.len() > 0
    }

    /// Takes in what happened. Before the first record, a cancellation fails the wait,
    /// the end of the records ends it with no batch, and a deadline is ignored; the first
    /// record starts the batch. Once started, a record joins it and completes it when it
    /// is full; the end of the records, the deadline or a cancellation completes it as
    /// it is.
    pub fn step(&mut self, event: BatchEvent<T>) -> (r: BatchNext<T>)
        requires
            old(self).wf(),
        ensures
            final(self).wf(),
            old(self).gathered().len() == 0 ==> match event {
                BatchEvent::Canceled => (r matches BatchNext::Fail(ErrorKind::OtherError(m)) && m@
                    == "modpack database worker canceled"@) && final(self).gathered() == old(self).gathered(),
                BatchEvent::Received(t) => r is Wait && final(self).gathered() == seq![t],
                BatchEvent::Closed => (r matches BatchNext::Flush(None)) && final(self).gathered() == old(self).gathered(),
                BatchEvent::Deadline => r is Wait && final(self).gathered() == old(self).gathered(),
            },
            old(self).gathered().len() > 0 ==> match event {
                BatchEvent::Received(t) => if old(self).gathered().len() + 1 == CONTENT_DATABASE_BATCH_SIZE {
                    (r matches BatchNext::Flush(Some(b)) && b@ == old(self).gathered().push(t))
                        && final(self).gathered() == Seq::<T>::empty()
                } else {
                    r is Wait && final(self).gathered() == old(self).gathered().push(t)
                },
                _ => (r matches BatchNext::Flush(Some(b)) && b@ == old(self).gathered()) && final(self).gathered()
                    == Seq::<T>::empty(),
            },
    {
        if self.records.len() == 0 {
            match event {
                BatchEvent::Canceled => BatchNext::Fail(other_error("modpack database worker canceled")),
                BatchEvent::Received(t) => {
                    self.records.push(t);
                    BatchNext::Wait
                },
                BatchEvent::Closed => BatchNext::Flush(None),
                BatchEvent::Deadline => BatchNext::Wait,
            }
        } else {
            let full = match event {
                BatchEvent::Received(t) => {
                    self.records.push(t);
                    self.records.len() == CONTENT_DATABASE_BATCH_SIZE
                },
                _ => true,
            };
            if full {
                let mut done: Vec<T> = Vec::new();
                std::mem::swap(&mut done, &mut self.records);
                BatchNext::Flush(Some(done))
            } else {
                BatchNext::Wait
            }
        }
    }
}

/// The flush deadline of a batch started at `started_at_ms`.
pub fn flush_deadline(started_at_ms: u64) -> (r: u64)
    ensures
        r == if started_at_ms <= u64::MAX - CONTENT_DATABASE_FLUSH_INTERVAL_MS {
            started_at_ms + CONTENT_DATABASE_FLUSH_INTERVAL_MS
        } else {
            u64::MAX as int
        },
{
    started_at_ms.saturating_add(CONTENT_DATABASE_FLUSH_INTERVAL_MS)
}

} // verus!
