//! Setting up the runtime: the configuration that [`Setup`] builds, and the
//! scheduler and timers interfaces.

pub mod process_order;
pub mod scheduler;
pub mod timers;

use std::time::Duration;

use vstd::prelude::*;

use crate::text::push_str;
use crate::time::{duration_new, duration_of};

verus! {

/// Setup a runtime.
///
/// This type implements a builder pattern: each method sets one part of the
/// configuration and returns the setup.
#[derive(Debug)]
pub struct Setup<FT> {
    /// Name of the application.
    name: Option<String>,
    /// Number of worker threads to create.
    threads: usize,
    /// Function to create a timers implementation per worker thread.
    create_timers: FT,
    /// Whether or not to automatically set CPU affinity.
    auto_cpu_affinity: bool,
    /// Number of processes to run in between calls to poll.
    run_poll_ratio: usize,
    /// Target time for the duration of a single iteration of the event loop.
    max_run_time: Duration,
}

impl<FT> Setup<FT> {
    /// The name of the application, if set.
    pub closed spec fn spec_name(&self) -> Option<Seq<char>> {
        match self.name {
            Some(name) => Some(name@),
            None => None,
        }
    }

    /// The number of worker threads.
    pub closed spec fn spec_threads(&self) -> usize {
        self.threads
    }

    /// The function that creates the timers of each worker thread.
    pub closed spec fn spec_create_timers(&self) -> FT {
        self.create_timers
    }

    /// Whether the CPU affinity is set automatically.
    pub closed spec fn spec_auto_cpu_affinity(&self) -> bool {
        self.auto_cpu_affinity
    }

    /// The number of processes run between polls.
    pub closed spec fn spec_run_poll_ratio(&self) -> usize {
        self.run_poll_ratio
    }

    /// The maximum time to run processes before polling.
    pub closed spec fn spec_max_run_time(&self) -> Duration {
        self.max_run_time
    }

    /// All settings but the one that a builder method changes are as in
    /// `other`.
    pub open spec fn same_but_name<FT2>(&self, other: &Setup<FT2>) -> bool {
        &&& self.spec_threads() == other.spec_threads()
        &&& self.spec_auto_cpu_affinity() == other.spec_auto_cpu_affinity()
        &&& self.spec_run_poll_ratio() == other.spec_run_poll_ratio()
        &&& self.spec_max_run_time() == other.spec_max_run_time()
    }

    /// A new setup: no name, one worker thread, timers made by
    /// `create_timers`, no CPU affinity, 32 processes between polls and at
    /// most 5 milliseconds of running processes between polls.
    pub fn new(create_timers: FT) -> (setup: Setup<FT>)
        ensures
            setup.spec_name() is None,
            setup.spec_threads() == 1,
            setup.spec_create_timers() == create_timers,
            !setup.spec_auto_cpu_affinity(),
            setup.spec_run_poll_ratio() == 32,
            setup.spec_max_run_time() == duration_of(0, 5_000_000),
    {
        Setup {
            name: None,
            threads: 1,
            create_timers,
            auto_cpu_affinity: false,
            run_poll_ratio: 32,
            max_run_time: duration_new(0, 5_000_000),
        }
    }

    /// Set the name of the application. An empty name can't be used.
    ///
    /// If the name is not set when the runtime is build the name of the binary
    /// called will be used, see [`default_app_name`].
    pub fn with_name(self, name: String) -> (setup: Setup<FT>)
        requires
            name@.len() > 0,
        ensures
            setup.spec_name() == Some(name@),
            setup.same_but_name(&self),
            setup.spec_create_timers() == self.spec_create_timers(),
    {
        Setup { name: Some(name), ..self }
    }

    /// Returns the application name, if set using [`Setup::with_name`].
    pub fn name(&self) -> (name: Option<&str>)
        ensures
            match name {
                Some(name) => self.spec_name() == Some(name@),
                None => self.spec_name() is None,
            },
    {
        match &self.name {
            Some(name) => Some(name.as_str()),
            None => None,
        }
    }

    /// Set the number of worker threads to use, defaults to one. Zero worker
    /// threads can't be created.
    pub fn num_threads(self, n: usize) -> (setup: Setup<FT>)
        requires
            n != 0,
        ensures
            setup.spec_threads() == n,
            setup.spec_name() == self.spec_name(),
            setup.spec_create_timers() == self.spec_create_timers(),
            setup.spec_auto_cpu_affinity() == self.spec_auto_cpu_affinity(),
            setup.spec_run_poll_ratio() == self.spec_run_poll_ratio(),
            setup.spec_max_run_time() == self.spec_max_run_time(),
    {
        Setup { threads: n, ..self }
    }

    /// Set the number of worker threads equal to the number of CPU cores,
    /// `available`, as the operating system reports it; a single worker thread
    /// where it could not report it.
    pub fn use_all_cores(self, available: Option<usize>) -> (setup: Setup<FT>)
        requires
            available != Some(0usize),
        ensures
            setup.spec_threads() == match available {
                Some(n) => n,
                None => 1,
            },
            setup.spec_name() == self.spec_name(),
            setup.spec_create_timers() == self.spec_create_timers(),
            setup.spec_auto_cpu_affinity() == self.spec_auto_cpu_affinity(),
            setup.spec_run_poll_ratio() == self.spec_run_poll_ratio(),
            setup.spec_max_run_time() == self.spec_max_run_time(),
    {
        let n = match available {
            Some(n) => n,
            None => 1,
        };
        self.num_threads(n)
    }

    /// Returns the number of worker threads to use.
    pub fn get_threads(&self) -> (threads: usize)
        ensures
            threads == self.spec_threads(),
    {
        self.threads
    }

    /// Change the thread-local timers implementation: `create_timers` is
    /// called on each worker to create its timers.
    pub fn with_timers<FT2>(self, create_timers: FT2) -> (setup: Setup<FT2>)
        ensures
            setup.spec_create_timers() == create_timers,
            setup.spec_name() == self.spec_name(),
            setup.same_but_name(&self),
    {
        Setup {
            name: self.name,
            threads: self.threads,
            create_timers,
            auto_cpu_affinity: self.auto_cpu_affinity,
            run_poll_ratio: self.run_poll_ratio,
            max_run_time: self.max_run_time,
        }
    }

    /// Automatically set CPU affinity: each worker thread to its own CPU core.
    pub fn auto_cpu_affinity(self) -> (setup: Setup<FT>)
        ensures
            setup.spec_auto_cpu_affinity(),
            setup.spec_name() == self.spec_name(),
            setup.spec_create_timers() == self.spec_create_timers(),
            setup.spec_threads() == self.spec_threads(),
            setup.spec_run_poll_ratio() == self.spec_run_poll_ratio(),
            setup.spec_max_run_time() == self.spec_max_run_time(),
    {
        Setup { auto_cpu_affinity: true, ..self }
    }

    /// Maximum number of processes to run in between polling for more events
    /// (such as I/O events). Defaults to 32.
    pub fn with_run_poll_ratio(self, ratio: usize) -> (setup: Setup<FT>)
        ensures
            setup.spec_run_poll_ratio() == ratio,
            setup.spec_name() == self.spec_name(),
            setup.spec_create_timers() == self.spec_create_timers(),
            setup.spec_threads() == self.spec_threads(),
            setup.spec_auto_cpu_affinity() == self.spec_auto_cpu_affinity(),
            setup.spec_max_run_time() == self.spec_max_run_time(),
    {
        Setup { run_poll_ratio: ratio, ..self }
    }

    /// Maximum time to run processes, before polling for more events. Defaults
    /// to 5 milliseconds.
    pub fn with_max_run_time(self, timeout: Duration) -> (setup: Setup<FT>)
        ensures
            setup.spec_max_run_time() == timeout,
            setup.spec_name() == self.spec_name(),
            setup.spec_create_timers() == self.spec_create_timers(),
            setup.spec_threads() == self.spec_threads(),
            setup.spec_auto_cpu_affinity() == self.spec_auto_cpu_affinity(),
            setup.spec_run_poll_ratio() == self.spec_run_poll_ratio(),
    {
        Setup { max_run_time: timeout, ..self }
    }

    /// Whether the CPU affinity is set automatically.
    pub fn get_auto_cpu_affinity(&self) -> (auto: bool)
        ensures
            auto == self.spec_auto_cpu_affinity(),
    {
        self.auto_cpu_affinity
    }

    /// The number of processes run between polls.
    pub fn get_run_poll_ratio(&self) -> (ratio: usize)
        ensures
            ratio == self.spec_run_poll_ratio(),
    {
        self.run_poll_ratio
    }

    /// The maximum time to run processes before polling.
    pub fn get_max_run_time(&self) -> (timeout: Duration)
        ensures
            timeout == self.spec_max_run_time(),
    {
        self.max_run_time
    }

    /// The function that creates the timers of each worker thread.
    pub fn create_timers(&self) -> (create_timers: &FT)
        ensures
            *create_timers == self.spec_create_timers(),
    {
        &self.create_timers
    }
}

/// What follows the last `separator` in `path`: all of it where there is none.
pub open spec fn after_last(path: Seq<char>, separator: char) -> Seq<char>
    decreases path.len(),
{
    if path.len() == 0 {
        path
    } else if path.last() == separator {
        Seq::empty()
    } else {
        after_last(path.drop_last(), separator).push(path.last())
    }
}

/// The name of the application where none was set: the name of the binary
/// called, what follows the last path `separator` in its path `program` (the
/// first argument of the process), or `<unknown>` where there is none.
pub fn default_app_name(program: Option<String>, separator: char) -> (name: String)
    ensures
        name@ == match program {
            Some(path) => after_last(path@, separator),
            None => "<unknown>"@,
        },
{
    match program {
        Some(path) => {
            let len = path.as_str().unicode_len();
            let mut start = len;
            proof {
                assert(path@.take(start as int) =~= path@);
                assert(path@.skip(start as int) =~= Seq::<char>::empty());
                assert(after_last(path@, separator) + Seq::<char>::empty() =~= after_last(path@, separator));
            }
            while start > 0 && path.as_str().get_char(start - 1) != separator
                invariant
                    start <= len,
                    len == path@.len(),
                    after_last(path@, separator) == after_last(path@.take(start as int), separator) + path@.skip(
                        start as int,
                    ),
                decreases start,
            {
                proof {
                    let t = path@.take(start as int);
                    assert(t.drop_last() =~= path@.take(start - 1));
                    assert(t.last() == path@[start - 1]);
                    assert(path@.skip(start - 1) =~= seq![path@[start - 1]] + path@.skip(start as int));
                    assert(after_last(t.drop_last(), separator).push(t.last()) + path@.skip(start as int)
                        =~= after_last(t.drop_last(), separator) + path@.skip(start - 1));
                }
                start = start - 1;
            }
            proof {
                if start > 0 {
                    assert(path@.take(start as int).last() == separator);
                } else {
                    assert(path@.take(0) =~= Seq::<char>::empty());
                }
                assert(Seq::<char>::empty() + path@.skip(start as int) =~= path@.skip(start as int));
            }
            let rest = path.as_str().substring_char(start, len);
            let mut name = String::new();
            push_str(&mut name, rest);
            proof {
                assert(rest@ =~= path@.skip(start as int));
            }
            name
        },
        None => {
            let mut name = String::new();
            push_str(&mut name, "<unknown>");
            name
        },
    }
}

} // verus!
