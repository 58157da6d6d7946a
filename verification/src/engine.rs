//! The transfer engine: one task's state machine. It registers its
//! conversation key, re-buffers source chunks into destination parts
//! committed at strictly increasing contiguous offsets, honors the
//! cancellation registry between chunks, retries transient read errors a
//! bounded number of times, and reaches exactly one terminal status,
//! releasing its registry entry on the way there.

use vstd::prelude::*;
use crate::registry::{CancellationRegistry, RegistryError};

verus! {

/// A task's lifecycle status. The three terminal states are final.
#[derive(Clone, Copy, Debug, PartialEq, Eq, Structural)]
pub enum TaskStatus {
    /// Created, not yet started.
    Pending,
    /// The transfer loop is running.
    Running,
    /// Finished successfully.
    Completed,
    /// Stopped by an explicit cancel signal; not a failure.
    Cancelled,
    /// Stopped by an unrecoverable error.
    Failed,
}

impl TaskStatus {
    /// Whether the status is terminal: no transition leaves it.
    pub open spec fn is_terminal(self) -> bool {
        self is Completed || self is Cancelled || self is Failed
    }
}

/// What the engine observes between state changes.
pub enum TransferEvent {
    /// The conversation key was registered.
    Started,
    /// Registration was refused: a transfer for the key already runs.
    StartRefused,
    /// A chunk arrived and no cancel signal was pending.
    ChunkArrived,
    /// The cancel signal was observed between chunks.
    CancelObserved,
    /// The source stream ended and the upload was finalized.
    StreamEnded,
    /// A transient read error, with retries still left.
    TransientErrorRetried,
    /// A transient error after the last retry, or a fatal error.
    FatalError,
}

/// The status after an event: the total transition function of the task
/// state machine. A terminal status absorbs every event.
pub open spec fn step_status(s: TaskStatus, e: TransferEvent) -> TaskStatus {
    if s.is_terminal() {
        s
    } else {
        match (s, e) {
            (TaskStatus::Pending, TransferEvent::Started) => TaskStatus::Running,
            (TaskStatus::Pending, TransferEvent::StartRefused) => TaskStatus::Pending,
            (TaskStatus::Running, TransferEvent::ChunkArrived) => TaskStatus::Running,
            (TaskStatus::Running, TransferEvent::CancelObserved) => TaskStatus::Cancelled,
            (TaskStatus::Running, TransferEvent::StreamEnded) => TaskStatus::Completed,
            (TaskStatus::Running, TransferEvent::TransientErrorRetried) => TaskStatus::Running,
            (TaskStatus::Running, TransferEvent::FatalError) => TaskStatus::Failed,
            _ => s,
        }
    }
}

/// The status after a whole sequence of events.
pub open spec fn run_status(s: TaskStatus, es: Seq<TransferEvent>) -> TaskStatus
    decreases es.len(),
{
    if es.len() == 0 {
        s
    } else {
        run_status(step_status(s, es[0]), es.skip(1))
    }
}

/// A terminal status absorbs every event: no transition leaves it.
pub proof fn lemma_terminal_absorbs(s: TaskStatus, e: TransferEvent)
    ensures
        s.is_terminal() ==> step_status(s, e) == s,
{
}

/// Once a run reaches a terminal status, every continuation stays there:
/// a task reaches exactly one terminal status, exactly once.
pub proof fn lemma_one_terminal_status(s: TaskStatus, es: Seq<TransferEvent>)
    requires
        s.is_terminal(),
    ensures
        run_status(s, es) == s,
    decreases es.len(),
{
    if es.len() > 0 {
        lemma_one_terminal_status(s, es.skip(1));
    }
}

/// Cancellation is never reported as failure: no event turns an observed
/// cancel into `Failed`, and a cancelled task stays cancelled.
pub proof fn lemma_cancel_is_not_failure(es: Seq<TransferEvent>)
    ensures
        run_status(TaskStatus::Cancelled, es) == TaskStatus::Cancelled,
        step_status(TaskStatus::Running, TransferEvent::CancelObserved) != TaskStatus::Failed,
{
    lemma_one_terminal_status(TaskStatus::Cancelled, es);
}

/// One part committed to the destination upload session.
pub struct TransferCommit {
    /// The offset at which the part starts.
    pub offset: u64,
    /// The part's bytes.
    pub data: Vec<u8>,
}

/// The commits produced by one engine step, in order: the first starts at
/// `from`, each next one right after the one before, and each carries
/// exactly the input bytes of its range — strictly increasing, contiguous,
/// gap-free offsets.
pub open spec fn commits_ok(cs: Seq<TransferCommit>, input: Seq<u8>, from: int, part: int) -> bool {
    &&& forall|i: int| 0 <= i < cs.len() ==> (#[trigger] cs[i]).offset as int == from + i * part
    &&& forall|i: int|
        0 <= i < cs.len() ==> (#[trigger] cs[i]).data@ == input.subrange(
            from + i * part,
            from + i * part + part,
        )
}

/// The transfer engine for one task.
pub struct TransferEngine {
    /// The conversation key: originating chat.
    pub chat_id: i64,
    /// The conversation key: originating message.
    pub message_id: i32,
    /// The task's status.
    pub status: TaskStatus,
    /// Whether the key is held in the cancellation registry.
    pub registered: bool,
    /// The destination part size bound; commits carry exactly this many
    /// bytes, except the last.
    pub part_size: usize,
    /// Bytes committed so far == the next commit offset.
    pub committed: u64,
    /// Transient-error retries left before the task fails.
    pub retries_left: u8,
    /// The resolved destination filename, once known.
    pub filename: Option<String>,
    /// Bytes not yet committed, waiting for a full part.
    pub buffer: Vec<u8>,
    /// All source bytes accepted so far.
    pub input: Ghost<Seq<u8>>,
}

impl TransferEngine {
    /// The engine's invariant: the buffer holds exactly the input bytes
    /// after the committed prefix, and never a full part; the registry key
    /// is held exactly while the task runs.
    pub open spec fn wf(&self) -> bool {
        &&& self.part_size > 0
        &&& self.input@.len() <= u64::MAX
        &&& self.buffer@.len() < self.part_size
        &&& self.committed as int + self.buffer@.len() == self.input@.len()
        &&& self.buffer@ == self.input@.skip(self.committed as int)
        &&& self.registered == (self.status is Running)
        &&& (self.status is Pending ==> self.committed == 0 && self.input@.len() == 0)
    }

    /// The key under which the task is registered.
    pub open spec fn key(&self) -> (int, int) {
        (self.chat_id as int, self.message_id as int)
    }

    /// A fresh engine for one task.
    pub fn new(chat_id: i64, message_id: i32, part_size: usize, retries: u8) -> (r: Self)
        requires
            part_size > 0,
        ensures
            r.wf(),
            r.status is Pending,
            r.chat_id == chat_id,
            r.message_id == message_id,
            r.part_size == part_size,
            r.retries_left == retries,
            r.committed == 0,
            r.input@ == Seq::<u8>::empty(),
            r.filename is None,
    {
        let r = TransferEngine {
            chat_id,
            message_id,
            status: TaskStatus::Pending,
            registered: false,
            part_size,
            committed: 0,
            retries_left: retries,
            filename: None,
            buffer: Vec::new(),
            input: Ghost(Seq::empty()),
        };
        proof {
            assert(r.buffer@ =~= r.input@.skip(0));
        }
        r
    }

    /// Registers the task's key and starts it. With the key already live,
    /// fails fast — before any stream is opened — changing neither the
    /// registry nor the task, and the caller reports "already running."
    pub fn start(&mut self, registry: &mut CancellationRegistry) -> (r: Result<(), RegistryError>)
        requires
            old(self).wf(),
            old(self).status is Pending,
            old(registry).wf(),
        ensures
            final(self).wf(),
            final(registry).wf(),
            old(registry)@.contains_key(old(self).key()) ==> {
                &&& r == Err::<(), RegistryError>(RegistryError::DuplicateTask)
                &&& *final(self) == *old(self)
                &&& final(registry)@ == old(registry)@
                &&& final(self).status == step_status(TaskStatus::Pending, TransferEvent::StartRefused)
            },
            !old(registry)@.contains_key(old(self).key()) ==> {
                &&& r == Ok::<(), RegistryError>(())
                &&& final(registry)@ == old(registry)@.insert(old(self).key(), false)
                &&& final(self).status == step_status(TaskStatus::Pending, TransferEvent::Started)
                &&& *final(self) == (TransferEngine {
                    status: TaskStatus::Running,
                    registered: true,
                    ..*old(self)
                })
            },
    {
        match registry.register(self.chat_id, self.message_id) {
            Ok(()) => {
                self.status = TaskStatus::Running;
                self.registered = true;
                Ok(())
            },
            Err(e) => Err(e),
        }
    }

    /// Records the resolved destination filename, once the resolver has
    /// produced it from the first chunk's metadata.
    pub fn set_filename(&mut self, name: String)
        requires
            old(self).wf(),
            old(self).status is Running,
        ensures
            final(self).wf(),
            *final(self) == (TransferEngine { filename: Some(name), ..*old(self) }),
    {
        self.filename = Some(name);
    }

    /// Accepts one source chunk, first honoring a pending cancel signal.
    /// When the signal is set, the chunk is discarded, the registry entry
    /// is released and the task ends `Cancelled` — never `Failed`. Else
    /// the chunk joins the buffer and every full part is handed back as a
    /// commit, in strictly increasing contiguous offset order.
    pub fn on_chunk(&mut self, registry: &mut CancellationRegistry, data: Vec<u8>) -> (r: Vec<
        TransferCommit,
    >)
        requires
            old(self).wf(),
            old(self).status is Running,
            old(registry).wf(),
            old(self).input@.len() + data@.len() <= u64::MAX,
        ensures
            final(self).wf(),
            final(registry).wf(),
            final(self).chat_id == old(self).chat_id && final(self).message_id == old(
                self,
            ).message_id,
            final(self).part_size == old(self).part_size,
            (old(registry)@.contains_key(old(self).key()) && old(registry)@[old(self).key()])
                ==> {
                &&& final(self).status == step_status(
                    TaskStatus::Running,
                    TransferEvent::CancelObserved,
                )
                &&& final(registry)@ == old(registry)@.remove(old(self).key())
                &&& final(self).input@ == old(self).input@
                &&& final(self).committed == old(self).committed
                &&& final(self).filename == old(self).filename
                &&& final(self).retries_left == old(self).retries_left
                &&& r@.len() == 0
            },
            !(old(registry)@.contains_key(old(self).key()) && old(registry)@[old(self).key()])
                ==> {
                &&& final(self).status == step_status(
                    TaskStatus::Running,
                    TransferEvent::ChunkArrived,
                )
                &&& final(registry)@ == old(registry)@
                &&& final(self).input@ == old(self).input@ + data@
                &&& final(self).committed as int == old(self).committed + r@.len()
                    * old(self).part_size
                &&& commits_ok(
                    r@,
                    final(self).input@,
                    old(self).committed as int,
                    old(self).part_size as int,
                )
                &&& final(self).filename == old(self).filename
                &&& final(self).retries_left == old(self).retries_left
            },
    {
        if registry.is_cancelled(self.chat_id, self.message_id) {
            registry.unregister(self.chat_id, self.message_id);
            self.status = TaskStatus::Cancelled;
            self.registered = false;
            return Vec::new();
        }
        let ghost in0 = self.input@;
        let ghost all = self.input@ + data@;
        proof {
            self.input@ = all;
        }
        let mut di: usize = 0;
        let dn = data.len();
        while di < dn
            invariant
                dn == data@.len(),
                di <= dn,
                self.part_size == old(self).part_size,
                self.part_size > 0,
                self.chat_id == old(self).chat_id,
                self.message_id == old(self).message_id,
                self.status == old(self).status,
                self.registered == old(self).registered,
                self.filename == old(self).filename,
                self.retries_left == old(self).retries_left,
                self.input@ == all,
                all == in0 + data@,
                self.committed == old(self).committed,
                self.buffer@ == in0.skip(self.committed as int) + data@.take(di as int),
                self.committed as int + self.buffer@.len() == in0.len() + di,
                in0.len() + dn <= u64::MAX,
                self.committed as int <= in0.len(),
            decreases dn - di,
        {
            self.buffer.push(data[di]);
            proof {
                assert(in0.skip(self.committed as int) + data@.take(di + 1 as int) =~= (in0.skip(
                    self.committed as int,
                ) + data@.take(di as int)).push(data@[di as int]));
            }
            di = di + 1;
        }
        proof {
            assert(data@.take(dn as int) =~= data@);
            assert(self.buffer@ =~= all.skip(self.committed as int));
        }
        let ghost from = self.committed as int;
        let ghost part = self.part_size as int;
        let mut commits: Vec<TransferCommit> = Vec::new();
        proof {
            assert(commits@.len() == 0);
            assert(commits@.len() * part == 0) by (nonlinear_arith)
                requires
                    commits@.len() == 0,
            ;
            assert(self.committed as int == from + commits@.len() * part);
        }
        while self.buffer.len() >= self.part_size
            invariant
                self.part_size == old(self).part_size,
                self.part_size > 0,
                self.chat_id == old(self).chat_id,
                self.message_id == old(self).message_id,
                self.status == old(self).status,
                self.registered == old(self).registered,
                self.filename == old(self).filename,
                self.retries_left == old(self).retries_left,
                self.input@ == all,
                all.len() <= u64::MAX,
                from <= self.committed as int,
                self.committed as int + self.buffer@.len() == all.len(),
                self.buffer@ == all.skip(self.committed as int),
                self.committed as int == from + commits@.len() * part,
                part == self.part_size as int,
                commits_ok(commits@, all, from, part),
            decreases self.buffer@.len(),
        {
            let mut piece: Vec<u8> = Vec::new();
            let mut k: usize = 0;
            while k < self.part_size
                invariant
                    self.part_size <= self.buffer@.len(),
                    k <= self.part_size,
                    piece@ == self.buffer@.take(k as int),
                decreases self.part_size - k,
            {
                piece.push(self.buffer[k]);
                proof {
                    assert(self.buffer@.take(k + 1 as int) =~= self.buffer@.take(k as int).push(
                        self.buffer@[k as int],
                    ));
                }
                k = k + 1;
            }
            let ghost buf0 = self.buffer@;
            let mut rest: Vec<u8> = Vec::new();
            let mut m: usize = self.part_size;
            while m < self.buffer.len()
                invariant
                    self.buffer@ == buf0,
                    self.part_size <= m <= buf0.len(),
                    rest@ == buf0.subrange(self.part_size as int, m as int),
                decreases self.buffer@.len() - m,
            {
                rest.push(self.buffer[m]);
                proof {
                    assert(buf0.subrange(self.part_size as int, m + 1 as int) =~= buf0.subrange(
                        self.part_size as int,
                        m as int,
                    ).push(buf0[m as int]));
                }
                m = m + 1;
            }
            let offset = self.committed;
            proof {
                assert(piece@ =~= buf0.take(part));
                assert(rest@ =~= buf0.skip(part));
                assert(buf0.take(part) =~= all.subrange(
                    self.committed as int,
                    self.committed as int + part,
                ));
                assert(buf0.skip(part) =~= all.skip(self.committed as int + part));
            }
            self.buffer = rest;
            let ghost commits0 = commits@;
            commits.push(TransferCommit { offset, data: piece });
            self.committed = self.committed + (self.part_size as u64);
            proof {
                assert(commits@.drop_last() =~= commits0);
                assert(commits@.len() * part == commits0.len() * part + part) by (nonlinear_arith)
                    requires
                        commits@.len() == commits0.len() + 1,
                ;
                assert forall|i: int| 0 <= i < commits@.len() implies (
                #[trigger] commits@[i]).offset as int == from + i * part by {
                    if i < commits@.len() - 1 {
                        assert(commits@[i] == commits0[i]);
                    } else {
                        assert(i * part == (commits0.len() as int) * part);
                    }
                }
                assert forall|i: int| 0 <= i < commits@.len() implies (
                #[trigger] commits@[i]).data@ == all.subrange(
                    from + i * part,
                    from + i * part + part,
                ) by {
                    if i < commits@.len() - 1 {
                        assert(commits@[i] == commits0[i]);
                    } else {
                        assert(i * part == (commits0.len() as int) * part);
                    }
                }
            }
        }
        commits
    }

    /// Ends the transfer after the source stream is exhausted: flushes the
    /// buffered remainder as one last commit, releases the registry entry
    /// and completes the task. Afterwards every input byte has been
    /// committed exactly once, in order.
    pub fn on_stream_end(&mut self, registry: &mut CancellationRegistry) -> (r: Option<
        TransferCommit,
    >)
        requires
            old(self).wf(),
            old(self).status is Running,
            old(registry).wf(),
        ensures
            final(self).wf(),
            final(registry).wf(),
            final(self).status == step_status(TaskStatus::Running, TransferEvent::StreamEnded),
            final(registry)@ == old(registry)@.remove(old(self).key()),
            final(self).input@ == old(self).input@,
            final(self).filename == old(self).filename,
            final(self).chat_id == old(self).chat_id && final(self).message_id == old(
                self,
            ).message_id,
            final(self).committed as int == old(self).input@.len(),
            match r {
                Some(c) => c.offset == old(self).committed && c.data@ == old(self).input@.skip(
                    old(self).committed as int,
                ) && c.data@.len() > 0,
                None => old(self).committed as int == old(self).input@.len(),
            },
    {
        let mut r: Option<TransferCommit> = None;
        if self.buffer.len() > 0 {
            let mut piece: Vec<u8> = Vec::new();
            let mut k: usize = 0;
            let ghost buf0 = self.buffer@;
            while k < self.buffer.len()
                invariant
                    self.buffer@ == buf0,
                    k <= buf0.len(),
                    piece@ == buf0.take(k as int),
                decreases buf0.len() - k,
            {
                piece.push(self.buffer[k]);
                proof {
                    assert(buf0.take(k + 1 as int) =~= buf0.take(k as int).push(buf0[k as int]));
                }
                k = k + 1;
            }
            proof {
                assert(buf0.take(buf0.len() as int) =~= buf0);
            }
            r = Some(TransferCommit { offset: self.committed, data: piece });
            self.committed = self.committed + (self.buffer.len() as u64);
            self.buffer = Vec::new();
        }
        registry.unregister(self.chat_id, self.message_id);
        self.status = TaskStatus::Completed;
        self.registered = false;
        proof {
            assert(self.buffer@ =~= self.input@.skip(self.committed as int));
        }
        r
    }

    /// Ends the transfer on an observed cancel signal outside the chunk
    /// path, releasing the registry entry; the task ends `Cancelled`.
    pub fn on_cancel(&mut self, registry: &mut CancellationRegistry)
        requires
            old(self).wf(),
            old(self).status is Running,
            old(registry).wf(),
        ensures
            final(self).wf(),
            final(registry).wf(),
            final(self).status == step_status(TaskStatus::Running, TransferEvent::CancelObserved),
            final(registry)@ == old(registry)@.remove(old(self).key()),
            final(self).input@ == old(self).input@,
            final(self).committed == old(self).committed,
            final(self).filename == old(self).filename,
    {
        registry.unregister(self.chat_id, self.message_id);
        self.status = TaskStatus::Cancelled;
        self.registered = false;
    }

    /// Handles a read or commit error. A transient error with retries left
    /// keeps the task running and costs one retry; anything else releases
    /// the registry entry and fails the task — always releasing the key
    /// first, so none is ever left orphaned.
    pub fn on_error(&mut self, registry: &mut CancellationRegistry, transient: bool) -> (retried:
        bool)
        requires
            old(self).wf(),
            old(self).status is Running,
            old(registry).wf(),
        ensures
            final(self).wf(),
            final(registry).wf(),
            final(self).input@ == old(self).input@,
            final(self).committed == old(self).committed,
            final(self).filename == old(self).filename,
            retried == (transient && old(self).retries_left > 0),
            retried ==> {
                &&& final(self).status == step_status(
                    TaskStatus::Running,
                    TransferEvent::TransientErrorRetried,
                )
                &&& final(self).retries_left == old(self).retries_left - 1
                &&& final(registry)@ == old(registry)@
            },
            !retried ==> {
                &&& final(self).status == step_status(TaskStatus::Running, TransferEvent::FatalError)
                &&& final(registry)@ == old(registry)@.remove(old(self).key())
            },
    {
        if transient && self.retries_left > 0 {
            self.retries_left = self.retries_left - 1;
            true
        } else {
            registry.unregister(self.chat_id, self.message_id);
            self.status = TaskStatus::Failed;
            self.registered = false;
            false
        }
    }
}

} // verus!
