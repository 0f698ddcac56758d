//! The worker of the scheduler, as the decisions it takes: what to do with
//! an entry of the job queue, and what to do with a file once it was read.
//! Pulling from the queue, reading files and writing reports is left to the
//! caller, which performs each action and comes back with the event.

use crate::config::Language;
use crate::detail::{flat, lemma_order_independent, totals};
use crate::parse::{classify, counted, Data};
use std::io::ErrorKind;
use std::path::PathBuf;
use vstd::prelude::*;

verus! {

/// `std::path::PathBuf`, carried through and never looked into.
#[verifier::external_type_specification]
#[verifier::external_body]
pub struct ExPathBuf(PathBuf);

/// `std::io::ErrorKind`, carried through and never looked into.
#[verifier::external_type_specification]
#[verifier::external_body]
pub struct ExErrorKind(ErrorKind);

/// An entry of the job queue.
#[derive(Debug)]
pub enum Work<'a> {
    /// A file to count, and the language it is written in.
    Parse(PathBuf, &'a Language),
    /// The token that ends one worker.
    Quit,
}

/// What came back from the action a worker asked for.
#[derive(Debug)]
pub enum Event<'a> {
    /// The queue was asked: it gave an entry, or had none ready.
    Pulled(Option<Work<'a>>),
    /// The file was read: its text and its size in bytes.
    Read(String, u64),
    /// The file could not be read.
    Unreadable(ErrorKind, PathBuf),
    /// The path names nothing that can be counted.
    Invalid,
}

/// What a worker asks for next.
#[derive(Debug)]
pub enum Action {
    /// Take the next entry from the queue.
    Pull,
    /// Read this file.
    Load(PathBuf),
    /// Tell that this file could not be read, then take the next entry from
    /// the queue.
    Report(ErrorKind, PathBuf),
    /// Stop, and hand the counts back.
    Return,
}

/// Where a worker stands.
pub struct State {
    /// The counts of the files read so far, in the order they were read.
    pub results: Seq<Data>,
    /// The language of the file that is being read, if one is.
    pub reading: Option<Language>,
    /// Whether the worker has met its termination token.
    pub done: bool,
    /// Whether files that cannot be read are reported.
    pub print_error: bool,
}

/// The state after `event`, and the action that answers it.
///
/// A worker that is done stays so and asks for nothing more. An empty pull
/// is tried again. A termination token ends the worker. A file to count is
/// read, and once read it is counted under the language it came with. A file
/// that cannot be read adds nothing; it is reported where reports are wanted.
/// Whatever happens to a file, the worker goes on with the next entry.
pub open spec fn next(state: State, event: Event) -> (State, Action) {
    if state.done {
        (state, Action::Return)
    } else {
        match event {
            Event::Pulled(None) => (state, Action::Pull),
            Event::Pulled(Some(Work::Quit)) => (State { done: true, ..state }, Action::Return),
            Event::Pulled(Some(Work::Parse(path, language))) => (
                State { reading: Some(*language), ..state },
                Action::Load(path),
            ),
            Event::Read(text, size) => match state.reading {
                Some(language) => (
                    State {
                        results: state.results.push(counted(text@, language, size)),
                        reading: None,
                        ..state
                    },
                    Action::Pull,
                ),
                None => (state, Action::Pull),
            },
            Event::Unreadable(kind, path) => (
                State { reading: None, ..state },
                if state.print_error {
                    Action::Report(kind, path)
                } else {
                    Action::Pull
                },
            ),
            Event::Invalid => (State { reading: None, ..state }, Action::Pull),
        }
    }
}

/// The state after `events`, taken in turn.
pub open spec fn run(state: State, events: Seq<Event>) -> State
    decreases events.len(),
{
    if events.len() == 0 {
        state
    } else {
        run(next(state, events.first()).0, events.drop_first())
    }
}

/// A worker that has met its termination token takes nothing more in.
pub proof fn lemma_done_stays_done(state: State, events: Seq<Event>)
    requires
        state.done,
    ensures
        run(state, events) == state,
    decreases events.len(),
{
    if events.len() > 0 {
        lemma_done_stays_done(state, events.drop_first());
    }
}

/// What a worker has counted stays counted, in the order it was counted:
/// events only ever add to the end of the results.
pub proof fn lemma_results_are_kept(state: State, events: Seq<Event>)
    ensures
        state.results.is_prefix_of(run(state, events).results),
        run(state, events).print_error == state.print_error,
    decreases events.len(),
{
    if events.len() > 0 {
        let after = next(state, events.first()).0;
        lemma_results_are_kept(after, events.drop_first());
        let end = run(state, events).results;
        assert(state.results.is_prefix_of(after.results)) by {
            if after.results != state.results {
                assert(after.results.subrange(0, state.results.len() as int) =~= state.results);
            }
        }
        assert(state.results =~= end.subrange(0, state.results.len() as int)) by {
            assert(after.results == end.subrange(0, after.results.len() as int));
        }
    }
}

/// One worker of the pool.
pub struct Task<'a> {
    results: Vec<Data>,
    reading: Option<&'a Language>,
    done: bool,
    print_error: bool,
}

impl<'a> View for Task<'a> {
    type V = State;

    closed spec fn view(&self) -> State {
        State {
            results: self.results@,
            reading: match self.reading {
                Some(language) => Some(*language),
                None => None,
            },
            done: self.done,
            print_error: self.print_error,
        }
    }
}

impl<'a> Task<'a> {
    /// A worker that has read nothing yet.
    pub fn new(print_error: bool) -> (task: Task<'a>)
        ensures
            task@ == (State { results: Seq::empty(), reading: None, done: false, print_error }),
    {
        Task { results: Vec::new(), reading: None, done: false, print_error }
    }

    /// Takes `event` in and says what to do next.
    pub fn step(&mut self, event: Event<'a>) -> (action: Action)
        ensures
            (final(self)@, action) == next(old(self)@, event),
    {
        if self.done {
            return Action::Return;
        }
        match event {
            Event::Pulled(None) => Action::Pull,
            Event::Pulled(Some(Work::Quit)) => {
                self.done = true;
                Action::Return
            },
            Event::Pulled(Some(Work::Parse(path, language))) => {
                self.reading = Some(language);
                Action::Load(path)
            },
            Event::Read(text, size) => {
                match self.reading {
                    Some(language) => {
                        let data = classify(text.as_str(), language, size);
                        self.results.push(data);
                        self.reading = None;
                    },
                    None => {},
                }
                Action::Pull
            },
            Event::Unreadable(kind, path) => {
                self.reading = None;
                if self.print_error {
                    Action::Report(kind, path)
                } else {
                    Action::Pull
                }
            },
            Event::Invalid => {
                self.reading = None;
                Action::Pull
            },
        }
    }

    /// The counts of the files this worker has read, in the order it read
    /// them.
    pub fn into_results(self) -> (results: Vec<Data>)
        ensures
            results@ == self@.results,
    {
        self.results
    }
}

/// Asks `num_cpus::get` for the number of processors that this process may
/// use. The number differs from machine to machine and from run to run, and
/// nothing is taken for granted of it.
#[verifier::external_body]
fn processors() -> (n: usize) {
    num_cpus::get()
}

/// The number of workers for a machine that reports `processors`
/// processors: one for each, and one where none is reported, so that the
/// queue is always served.
pub fn pool_for(processors: usize) -> (workers: usize)
    ensures
        workers == if processors < 1 { 1 } else { processors },
{
    if processors < 1 {
        1
    } else {
        processors
    }
}

/// The number of workers of the pool on this machine: never less than one.
pub fn pool_size() -> (workers: usize)
    ensures
        workers >= 1,
{
    pool_for(processors())
}

/// The entries of the job queue for `jobs` and a pool of `workers`: every
/// job in order, then one termination token for each worker.
pub open spec fn queue_of(jobs: Seq<(PathBuf, &Language)>, workers: nat) -> Seq<Work> {
    Seq::new(jobs.len(), |i: int| Work::Parse(jobs[i].0, jobs[i].1)) + Seq::new(
        workers,
        |i: int| Work::Quit,
    )
}

/// Lays the job queue out: every job first, then one termination token for
/// each worker, so that no worker stops while work is left.
pub fn plan<'a>(jobs: Vec<(PathBuf, &'a Language)>, workers: usize) -> (queue: Vec<Work<'a>>)
    ensures
        queue@ == queue_of(jobs@, workers as nat),
{
    let ghost all = jobs@;
    let mut queue: Vec<Work<'a>> = Vec::new();
    for job in it: jobs
        invariant
            it.seq() == all,
            queue@ == Seq::new(it.index() as nat, |i: int| Work::Parse(all[i].0, all[i].1)),
    {
        queue.push(Work::Parse(job.0, job.1));
    }
    let ghost parsed = queue@;
    let mut k: usize = 0;
    while k < workers
        invariant
            k <= workers,
            queue@ == parsed + Seq::new(k as nat, |i: int| Work::Quit),
        decreases workers - k,
    {
        queue.push(Work::Quit);
        k += 1;
    }
    queue
}

/// Whether `lists` can be what a pool of `workers` returns for files whose
/// counts are `files`: one list for each worker, and each file counted in
/// exactly one of them.
pub open spec fn shared_out(files: Seq<Data>, lists: Seq<Vec<Data>>, workers: nat) -> bool {
    lists.len() == workers && flat(lists).to_multiset() == files.to_multiset()
}

/// However many workers share the files out among them, the totals are
/// those of a single worker.
pub proof fn lemma_worker_count_invariant(
    files: Seq<Data>,
    one: Seq<Vec<Data>>,
    many: Seq<Vec<Data>>,
    workers: nat,
)
    requires
        shared_out(files, one, 1),
        shared_out(files, many, workers),
    ensures
        totals(flat(one)) == totals(flat(many)),
        totals(flat(many)) == totals(files),
{
    lemma_order_independent(flat(one), files);
    lemma_order_independent(flat(many), files);
}

} // verus!
