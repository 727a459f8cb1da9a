//! Pieces of the coordinator: its bitmap of things to check, the packing of
//! waker data, the threads it waits on and the relaying of process signals to
//! the worker threads and actors.

pub mod bitmap;
pub mod waker;

use std::io;

use a10::process::Signal;

use vstd::prelude::*;

use crate::io_error::io_error_message;
use crate::text::push_str;

verus! {

/// Error running the coordinator.
#[derive(Debug)]
pub enum Error {
    /// Error polling for OS events.
    Polling(io::Error),
    /// Error handling a process signal.
    SignalHandling(io::Error),
    /// Error sending start signal to worker.
    SendingStartSignal,
    /// Error sending function to worker.
    SendingFunc,
}

impl Error {
    /// What failed, the start of the error's message.
    pub open spec fn description(&self) -> Seq<char> {
        match self {
            Error::Polling(_) => "error polling for OS events"@,
            Error::SignalHandling(_) => "error handling process signal"@,
            Error::SendingStartSignal => "error sending start signal to worker"@,
            Error::SendingFunc => "error sending function to worker"@,
        }
    }

    /// Whether the error carries an error of the operating system, whose
    /// message follows the description.
    pub open spec fn has_cause(&self) -> bool {
        self is Polling || self is SignalHandling
    }

    /// The message of the error: its description, followed by ": " and the
    /// operating system's message where there is a cause.
    pub fn to_string(&self) -> (message: String)
        ensures
            self.has_cause() ==> (self.description() + ": "@).is_prefix_of(message@),
            !self.has_cause() ==> message@ == self.description(),
    {
        let mut message = String::new();
        match self {
            Error::Polling(err) => {
                push_str(&mut message, "error polling for OS events: ");
                proof {
                    reveal_strlit("error polling for OS events: ");
                    reveal_strlit("error polling for OS events");
                    reveal_strlit(": ");
                    assert(message@ =~= self.description() + ": "@);
                }
                let ghost head = message@;
                push_str(&mut message, io_error_message(err).as_str());
                proof {
                    assert(message@.subrange(0, head.len() as int) =~= head);
                }
            },
            Error::SignalHandling(err) => {
                push_str(&mut message, "error handling process signal: ");
                proof {
                    reveal_strlit("error handling process signal: ");
                    reveal_strlit("error handling process signal");
                    reveal_strlit(": ");
                    assert(message@ =~= self.description() + ": "@);
                }
                let ghost head = message@;
                push_str(&mut message, io_error_message(err).as_str());
                proof {
                    assert(message@.subrange(0, head.len() as int) =~= head);
                }
            },
            Error::SendingStartSignal => {
                push_str(&mut message, "error sending start signal to worker");
                proof {
                    assert(message@ =~= self.description());
                }
            },
            Error::SendingFunc => {
                push_str(&mut message, "error sending function to worker");
                proof {
                    assert(message@ =~= self.description());
                }
            },
        }
        message
    }
}

/// What the coordinator does about a bit that is set in its bitmap of things to
/// check: bit 0 stands for the process signals, the next ones for the worker
/// threads and the ones after those for the synchronous worker threads.
#[derive(Copy, Clone, Debug, PartialEq, Eq, Structural)]
pub enum Check {
    /// Relay the process signals that were received.
    RelaySignals,
    /// Join the worker thread with this id.
    JoinWorker(usize),
    /// Join the synchronous worker thread with this id.
    JoinSyncWorker(usize),
}

/// What to do about bit `n` of the bitmap, with `workers` worker threads.
pub open spec fn check_of(n: usize, workers: usize) -> Check {
    if n == 0 {
        Check::RelaySignals
    } else if n <= workers {
        Check::JoinWorker(n)
    } else {
        Check::JoinSyncWorker(n)
    }
}

/// Decides what to do about bit `n` of the bitmap, with `workers` worker
/// threads.
pub fn check_for(n: usize, workers: usize) -> (check: Check)
    ensures
        check == check_of(n, workers),
{
    if n == 0 {
        Check::RelaySignals
    } else if n <= workers {
        Check::JoinWorker(n)
    } else {
        Check::JoinSyncWorker(n)
    }
}

/// The number of `true`s in `running`.
pub open spec fn count_running(running: Seq<bool>) -> nat
    decreases running.len(),
{
    if running.len() == 0 {
        0
    } else {
        count_running(running.drop_last()) + if running.last() {
            1nat
        } else {
            0nat
        }
    }
}

/// Setting one entry of `running` to `false` lowers the count by one where it
/// was `true`, and leaves it where it was `false`.
pub proof fn lemma_count_stop(running: Seq<bool>, index: int)
    requires
        0 <= index < running.len(),
    ensures
        count_running(running.update(index, false)) == count_running(running) - if running[index] {
            1int
        } else {
            0int
        },
    decreases running.len(),
{
    let updated = running.update(index, false);
    if index == running.len() - 1 {
        assert(updated.drop_last() =~= running.drop_last());
    } else {
        lemma_count_stop(running.drop_last(), index);
        assert(updated.drop_last() =~= running.drop_last().update(index, false));
    }
}

/// A count is at most the number of entries.
pub proof fn lemma_count_bound(running: Seq<bool>)
    ensures
        count_running(running) <= running.len(),
    decreases running.len(),
{
    if running.len() > 0 {
        lemma_count_bound(running.drop_last());
    }
}

/// The threads the coordinator waits on: which (synchronous) worker threads
/// are still running, and how many threads are left.
pub struct Threads {
    workers: Vec<bool>,
    sync_workers: Vec<bool>,
    threads_left: usize,
}

impl Threads {
    /// Whether each worker thread, by its id less one, is still running.
    pub closed spec fn spec_workers(&self) -> Seq<bool> {
        self.workers@
    }

    /// Whether each synchronous worker thread, by its id less one, is still
    /// running.
    pub closed spec fn spec_sync_workers(&self) -> Seq<bool> {
        self.sync_workers@
    }

    /// The number of threads that are still running.
    pub closed spec fn spec_threads_left(&self) -> nat {
        self.threads_left as nat
    }

    /// The count of threads left is the number of threads still running.
    #[verifier::type_invariant]
    spec fn counts_running(self) -> bool {
        self.threads_left == count_running(self.workers@) + count_running(self.sync_workers@)
    }

    /// All of `workers` worker threads and `sync_workers` synchronous worker
    /// threads running.
    pub fn new(workers: usize, sync_workers: usize) -> (threads: Threads)
        requires
            workers + sync_workers <= usize::MAX,
        ensures
            threads.spec_workers() == Seq::new(workers as nat, |i: int| true),
            threads.spec_sync_workers() == Seq::new(sync_workers as nat, |i: int| true),
            threads.spec_threads_left() == workers + sync_workers,
    {
        let mut running: Vec<bool> = Vec::new();
        let mut i: usize = 0;
        while i < workers
            invariant
                i <= workers,
                running@ == Seq::new(i as nat, |j: int| true),
                count_running(running@) == i,
            decreases workers - i,
        {
            let ghost before = running@;
            running.push(true);
            proof {
                assert(running@.drop_last() =~= before);
            }
            i = i + 1;
            assert(running@ =~= Seq::new(i as nat, |j: int| true));
        }
        let mut sync_running: Vec<bool> = Vec::new();
        let mut i: usize = 0;
        while i < sync_workers
            invariant
                i <= sync_workers,
                sync_running@ == Seq::new(i as nat, |j: int| true),
                count_running(sync_running@) == i,
            decreases sync_workers - i,
        {
            let ghost before = sync_running@;
            sync_running.push(true);
            proof {
                assert(sync_running@.drop_last() =~= before);
            }
            i = i + 1;
            assert(sync_running@ =~= Seq::new(i as nat, |j: int| true));
        }
        Threads { workers: running, sync_workers: sync_running, threads_left: workers + sync_workers }
    }

    /// The number of threads that are still running.
    pub fn threads_left(&self) -> (left: usize)
        ensures
            left == self.spec_threads_left(),
            left == count_running(self.spec_workers()) + count_running(self.spec_sync_workers()),
    {
        proof {
            use_type_invariant(self);
        }
        self.threads_left
    }

    /// Marks the worker thread with `id` as stopped; returns whether it was
    /// still running, that is whether it must be joined. An id of no worker
    /// thread changes nothing.
    pub fn join_worker(&mut self, id: usize) -> (join: bool)
        ensures
            join == (1 <= id <= old(self).spec_workers().len() && old(self).spec_workers()[id - 1]),
            final(self).spec_workers() == if 1 <= id <= old(self).spec_workers().len() {
                old(self).spec_workers().update(id - 1, false)
            } else {
                old(self).spec_workers()
            },
            final(self).spec_sync_workers() == old(self).spec_sync_workers(),
            final(self).spec_threads_left() == old(self).spec_threads_left() - if join {
                1int
            } else {
                0int
            },
    {
        proof {
            use_type_invariant(&*self);
        }
        if id == 0 || id > self.workers.len() {
            return false;
        }
        let index = id - 1;
        if !self.workers[index] {
            return false;
        }
        proof {
            lemma_count_stop(self.workers@, index as int);
            lemma_count_bound(self.sync_workers@);
        }
        let mut taken = Threads { workers: Vec::new(), sync_workers: Vec::new(), threads_left: 0 };
        std::mem::swap(&mut taken, self);
        let Threads { mut workers, sync_workers, threads_left } = taken;
        workers.set(index, false);
        *self = Threads { workers, sync_workers, threads_left: threads_left - 1 };
        true
    }

    /// Marks the synchronous worker thread with `id` as stopped; returns
    /// whether it was still running, that is whether it must be joined. An id
    /// of no synchronous worker thread changes nothing.
    pub fn join_sync_worker(&mut self, id: usize) -> (join: bool)
        ensures
            join == (1 <= id <= old(self).spec_sync_workers().len() && old(self).spec_sync_workers()[id
                - 1]),
            final(self).spec_sync_workers() == if 1 <= id <= old(self).spec_sync_workers().len() {
                old(self).spec_sync_workers().update(id - 1, false)
            } else {
                old(self).spec_sync_workers()
            },
            final(self).spec_workers() == old(self).spec_workers(),
            final(self).spec_threads_left() == old(self).spec_threads_left() - if join {
                1int
            } else {
                0int
            },
    {
        proof {
            use_type_invariant(&*self);
        }
        if id == 0 || id > self.sync_workers.len() {
            return false;
        }
        let index = id - 1;
        if !self.sync_workers[index] {
            return false;
        }
        proof {
            lemma_count_stop(self.sync_workers@, index as int);
            lemma_count_bound(self.workers@);
        }
        let mut taken = Threads { workers: Vec::new(), sync_workers: Vec::new(), threads_left: 0 };
        std::mem::swap(&mut taken, self);
        let Threads { workers, mut sync_workers, threads_left } = taken;
        sync_workers.set(index, false);
        *self = Threads { workers, sync_workers, threads_left: threads_left - 1 };
        true
    }

    /// The ids of the worker threads that are still running, in order.
    pub fn running_workers(&self) -> (ids: Vec<usize>)
        ensures
            ids@ == running_ids(self.spec_workers()),
    {
        let mut ids: Vec<usize> = Vec::new();
        let mut i: usize = 0;
        while i < self.workers.len()
            invariant
                i <= self.workers@.len(),
                ids@ == running_ids(self.workers@.take(i as int)),
            decreases self.workers@.len() - i,
        {
            let ghost before = ids@;
            if self.workers[i] {
                ids.push(i + 1);
            }
            proof {
                let taken = self.workers@.take(i + 1);
                assert(taken.drop_last() =~= self.workers@.take(i as int));
                assert(taken.last() == self.workers@[i as int]);
                assert(ids@ =~= running_ids(taken));
            }
            i = i + 1;
        }
        proof {
            assert(self.workers@.take(i as int) =~= self.workers@);
        }
        ids
    }

    /// Acts on bit `n` of the coordinator's bitmap: joins the (synchronous)
    /// worker thread it stands for. Returns what to do about it, and whether
    /// there is a thread to join.
    pub fn check(&mut self, n: usize) -> (result: (Check, bool))
        ensures
            result.0 == check_of(n, old(self).spec_workers().len() as usize),
            match result.0 {
                Check::RelaySignals => !result.1 && *final(self) == *old(self),
                Check::JoinWorker(id) => result.1 == (1 <= id <= old(self).spec_workers().len()
                    && old(self).spec_workers()[id - 1]) && final(self).spec_workers() == old(
                    self,
                ).spec_workers().update(id - 1, false) && final(self).spec_sync_workers() == old(
                    self,
                ).spec_sync_workers(),
                Check::JoinSyncWorker(id) => result.1 == (1 <= id <= old(
                    self,
                ).spec_sync_workers().len() && old(self).spec_sync_workers()[id - 1])
                    && final(self).spec_sync_workers() == (if id <= old(self).spec_sync_workers().len() {
                    old(self).spec_sync_workers().update(id - 1, false)
                } else {
                    old(self).spec_sync_workers()
                }) && final(self).spec_workers() == old(self).spec_workers(),
            },
            final(self).spec_threads_left() == old(self).spec_threads_left() - if result.1 {
                1int
            } else {
                0int
            },
    {
        let check = check_for(n, self.workers.len());
        let join = match check {
            Check::RelaySignals => false,
            Check::JoinWorker(id) => self.join_worker(id),
            Check::JoinSyncWorker(id) => self.join_sync_worker(id),
        };
        (check, join)
    }
}

/// No threads are left exactly when no (synchronous) worker thread is still
/// running: the coordinator stops only once every thread has stopped.
pub proof fn lemma_none_left(workers: Seq<bool>, sync_workers: Seq<bool>)
    ensures
        count_running(workers) + count_running(sync_workers) == 0 <==> (forall|i: int|
            0 <= i < workers.len() ==> !workers[i]) && (forall|i: int|
            0 <= i < sync_workers.len() ==> !sync_workers[i]),
{
    lemma_none_running(workers);
    lemma_none_running(sync_workers);
}

/// The count is zero exactly when no entry is `true`.
pub proof fn lemma_none_running(running: Seq<bool>)
    ensures
        count_running(running) == 0 <==> forall|i: int| 0 <= i < running.len() ==> !running[i],
    decreases running.len(),
{
    if running.len() > 0 {
        lemma_none_running(running.drop_last());
        if count_running(running) == 0 {
            assert forall|i: int| 0 <= i < running.len() implies !running[i] by {
                if i < running.len() - 1 {
                    assert(running[i] == running.drop_last()[i]);
                }
            }
        }
        if forall|i: int| 0 <= i < running.len() ==> !running[i] {
            assert forall|i: int| 0 <= i < running.drop_last().len() implies !running.drop_last()[i] by {
                assert(running[i] == running.drop_last()[i]);
            }
            assert(!running[running.len() - 1]);
        }
    }
}

/// The ids, counting from one, of the entries of `running` that are `true`,
/// in order.
pub open spec fn running_ids(running: Seq<bool>) -> Seq<usize>
    decreases running.len(),
{
    if running.len() == 0 {
        Seq::empty()
    } else {
        running_ids(running.drop_last()) + if running.last() {
            seq![running.len() as usize]
        } else {
            Seq::<usize>::empty()
        }
    }
}

/// Whether `signal` is `Signal::USER2` of `a10`, the signal on which the
/// runtime logs its metrics.
pub uninterp spec fn signal_is_user2(signal: Signal) -> bool;

/// `signal == a10::process::Signal::USER2`, by the equality `a10` derives for
/// `Signal`.
#[verifier::external_body]
fn is_user2(signal: Signal) -> (user2: bool)
    ensures
        user2 == signal_is_user2(signal),
{
    signal == Signal::USER2
}

/// What polling the stream of process signals gave.
pub enum SignalPoll {
    /// A process signal was received.
    Received(Signal),
    /// Receiving a process signal failed.
    Failed,
    /// The stream ended, or no signal is ready yet.
    Done,
}

/// What to do with a received process signal.
pub struct Relay {
    /// Log the runtime's metrics first.
    pub log_metrics: bool,
    /// The ids of the worker threads to send the signal to, in order. A
    /// worker that fails to receive it neither stops the relay nor makes it
    /// fail: it is likely stopping, and joining it reports why.
    pub to_workers: Vec<usize>,
    /// Send the signal to the actors that receive process signals.
    pub to_actors: bool,
}

/// The coordinator's decision on what polling the process signals gave, where
/// `user2` is whether a received signal is `Signal::USER2`: a received signal
/// goes to every running worker thread and to the actors, and `Signal::USER2`
/// also has the metrics logged; a failure to receive ends the relay with an
/// error (the coordinator's `Error::SignalHandling`); the end of the stream, or
/// no signal ready yet, ends the relay.
pub fn relay_for(threads: &Threads, poll: &SignalPoll, user2: bool) -> (step: Result<Option<Relay>, ()>)
    ensures
        match poll {
            SignalPoll::Received(_) => match step {
                Ok(Some(relay)) => relay.log_metrics == user2 && relay.to_actors && relay.to_workers@
                    == running_ids(threads.spec_workers()),
                _ => false,
            },
            SignalPoll::Failed => step == Err::<Option<Relay>, ()>(()),
            SignalPoll::Done => step is Ok && step->Ok_0 is None,
        },
{
    match poll {
        SignalPoll::Received(_) => Ok(
            Some(Relay { log_metrics: user2, to_workers: threads.running_workers(), to_actors: true }),
        ),
        SignalPoll::Failed => Err(()),
        SignalPoll::Done => Ok(None),
    }
}

/// Relays what polling the process signals gave: as [`relay_for`], with the
/// metrics logged for `Signal::USER2`.
pub fn relay_signal(threads: &Threads, poll: &SignalPoll) -> (step: Result<Option<Relay>, ()>)
    ensures
        match poll {
            SignalPoll::Received(signal) => match step {
                Ok(Some(relay)) => relay.log_metrics == signal_is_user2(*signal) && relay.to_actors
                    && relay.to_workers@ == running_ids(threads.spec_workers()),
                _ => false,
            },
            SignalPoll::Failed => step == Err::<Option<Relay>, ()>(()),
            SignalPoll::Done => step is Ok && step->Ok_0 is None,
        },
{
    let user2 = match poll {
        SignalPoll::Received(signal) => is_user2(*signal),
        _ => false,
    };
    relay_for(threads, poll, user2)
}

} // verus!
