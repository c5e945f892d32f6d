//! The job-dispatch core of a fixed-size worker pool.
//!
//! A pool owns a queue of messages and the state of each of its workers.
//! Producers put jobs at the back of the queue; a worker takes the message
//! at the front and either gets a job to run or is told to exit. Shutting
//! the pool down puts one exit signal per worker behind the pending jobs,
//! so every job accepted before is handed out before any worker exits. A
//! job submitted while the workers are exiting is still accepted, but it
//! stands behind the signals and no worker gets to it; once the last
//! worker has exited a submission fails.
//!
//! The pool itself is sequential: whoever shares it between threads guards
//! it with a lock, lets an idle worker wait while `receive` has nothing for
//! it, and runs a job after it has let go of the lock.

use crate::text::{append_chars, chars_of, decimal, push_decimal, string_of};
use std::collections::VecDeque;
use vstd::prelude::*;

verus! {

/// What travels through the queue.
#[derive(Debug)]
pub enum Message<J> {
    /// A job for whichever worker takes it.
    NewJob(J),
    /// The signal that makes the worker that takes it exit.
    Terminate,
}

/// Where a worker stands in its life.
#[derive(Clone, Copy, Debug, PartialEq, Eq, Structural)]
pub enum WorkerState {
    /// The worker takes messages.
    Running,
    /// The worker has taken its exit signal and takes nothing more.
    Terminated,
}

/// What a worker does about the message it took.
#[derive(Debug)]
pub enum Action<J> {
    /// Run the job, then come back for the next message.
    Run(J),
    /// Leave the loop.
    Exit,
}

impl<J> Action<J> {
    /// The log entry of a worker that has taken a message with this outcome.
    pub open spec fn notice_text(self, worker: nat) -> Seq<char> {
        match self {
            Action::Run(_) => "Worker "@ + decimal(worker) + " got a job; executing."@,
            Action::Exit => "Worker "@ + decimal(worker) + " should terminate."@,
        }
    }

    /// Writes the log entry for worker `worker` having taken a message with
    /// this outcome.
    pub fn notice(&self, worker: usize) -> (entry: String)
        ensures
            entry@ == self.notice_text(worker as nat),
    {
        let mut out = chars_of("Worker ");
        push_decimal(&mut out, worker);
        match self {
            Action::Run(_) => {
                append_chars(&mut out, &chars_of(" got a job; executing."));
            },
            Action::Exit => {
                append_chars(&mut out, &chars_of(" should terminate."));
            },
        }
        string_of(&out)
    }
}

/// A job that the pool did not accept, handed back.
#[derive(Debug)]
pub struct SendError<J>(pub J);

/// One worker of a pool.
#[derive(Clone, Copy, Debug)]
pub struct Worker {
    /// The worker's number within its pool.
    pub id: usize,
    /// Whether it still takes messages.
    pub state: WorkerState,
}

impl Worker {
    /// A running worker with the given number.
    pub fn new(id: usize) -> (worker: Worker)
        ensures
            worker == (Worker { id: id, state: WorkerState::Running }),
    {
        Worker { id: id, state: WorkerState::Running }
    }

    /// The worker's reaction to a message: a job leaves it running with the
    /// job to run, the exit signal terminates it.
    pub fn handle<J>(&mut self, message: Message<J>) -> (action: Action<J>)
        requires
            old(self).state is Running,
        ensures
            final(self).id == old(self).id,
            match message {
                Message::NewJob(job) => action == Action::Run(job) && final(self).state is Running,
                Message::Terminate => action is Exit && final(self).state is Terminated,
            },
    {
        match message {
            Message::NewJob(job) => Action::Run(job),
            Message::Terminate => {
                self.state = WorkerState::Terminated;
                Action::Exit
            },
        }
    }
}

/// The number of workers among `workers` that are running.
pub open spec fn running(workers: Seq<Worker>) -> nat
    decreases workers.len(),
{
    if workers.len() == 0 {
        0
    } else if workers.last().state is Running {
        running(workers.drop_last()) + 1
    } else {
        running(workers.drop_last())
    }
}

/// The jobs in a queue, front first.
pub open spec fn jobs<J>(queue: Seq<Message<J>>) -> Seq<J>
    decreases queue.len(),
{
    if queue.len() == 0 {
        Seq::empty()
    } else {
        match queue.last() {
            Message::NewJob(job) => jobs(queue.drop_last()).push(job),
            Message::Terminate => jobs(queue.drop_last()),
        }
    }
}

/// The number of exit signals in a queue.
pub open spec fn signals<J>(queue: Seq<Message<J>>) -> nat
    decreases queue.len(),
{
    if queue.len() == 0 {
        0
    } else {
        match queue.last() {
            Message::NewJob(_) => signals(queue.drop_last()),
            Message::Terminate => signals(queue.drop_last()) + 1,
        }
    }
}

/// The state of a pool as plain values.
pub struct PoolView<J> {
    /// The workers, by number.
    pub workers: Seq<Worker>,
    /// The messages not yet taken, front first.
    pub queue: Seq<Message<J>>,
    /// Whether the pool has been shut down.
    pub closing: bool,
}

impl<J> PoolView<J> {
    /// A pool of `size` running workers with nothing queued.
    pub open spec fn fresh(size: nat) -> PoolView<J> {
        PoolView {
            workers: Seq::new(size, |i: int| Worker { id: i as usize, state: WorkerState::Running }),
            queue: Seq::empty(),
            closing: false,
        }
    }

    /// The states a pool can be in.
    ///
    /// Worker `i` has number `i`. Until shutdown every worker runs and the
    /// queue holds jobs only. From shutdown on, the queue holds exactly one
    /// exit signal for each worker still running.
    pub open spec fn wf(self) -> bool {
        &&& self.workers.len() > 0
        &&& forall|i: int| 0 <= i < self.workers.len() ==> (#[trigger] self.workers[i]).id == i
        &&& signals(self.queue) == (if self.closing {
            running(self.workers)
        } else {
            0
        })
        &&& !self.closing ==> running(self.workers) == self.workers.len()
    }

    /// Whether every worker has exited, so that each can be joined and
    /// nobody is left to take a message.
    pub open spec fn finished(self) -> bool {
        forall|i: int| 0 <= i < self.workers.len() ==> (#[trigger] self.workers[i]).state is Terminated
    }

    /// The pool after it has accepted `job`: the job stands at the back of
    /// the queue.
    pub open spec fn submit(self, job: J) -> PoolView<J> {
        PoolView { queue: self.queue.push(Message::NewJob(job)), ..self }
    }

    /// The pool after a shutdown: one exit signal per worker goes behind the
    /// queue. A pool that is shut down already stays as it is.
    pub open spec fn close(self) -> PoolView<J> {
        if self.closing {
            self
        } else {
            PoolView {
                queue: self.queue + Seq::new(self.workers.len(), |i: int| Message::<J>::Terminate),
                closing: true,
                ..self
            }
        }
    }

    /// Whether worker `w` gets a message when it asks for one: it must be a
    /// running worker of the pool, and the queue must hold something.
    pub open spec fn serves(self, w: int) -> bool {
        &&& 0 <= w < self.workers.len()
        &&& self.workers[w].state is Running
        &&& self.queue.len() > 0
    }

    /// What worker `w` is told to do when it asks for a message.
    pub open spec fn action(self, w: int) -> Option<Action<J>> {
        if self.serves(w) {
            Some(
                match self.queue[0] {
                    Message::NewJob(job) => Action::Run(job),
                    Message::Terminate => Action::Exit,
                },
            )
        } else {
            None
        }
    }

    /// The pool after worker `w` has asked for a message: if it is served,
    /// the front of the queue is gone, and an exit signal has terminated
    /// the worker.
    pub open spec fn receive(self, w: int) -> PoolView<J> {
        if self.serves(w) {
            PoolView {
                workers: match self.queue[0] {
                    Message::NewJob(_) => self.workers,
                    Message::Terminate => self.workers.update(
                        w,
                        Worker { id: self.workers[w].id, state: WorkerState::Terminated },
                    ),
                },
                queue: self.queue.skip(1),
                closing: self.closing,
            }
        } else {
            self
        }
    }

}

/// Among `n` workers at most `n` run; all run exactly when the count is
/// `n`, and none runs exactly when it is zero.
pub proof fn lemma_running_count(workers: Seq<Worker>)
    ensures
        running(workers) <= workers.len(),
        running(workers) == workers.len() <==> forall|i: int|
            0 <= i < workers.len() ==> (#[trigger] workers[i]).state is Running,
        running(workers) == 0 <==> forall|i: int|
            0 <= i < workers.len() ==> (#[trigger] workers[i]).state is Terminated,
    decreases workers.len(),
{
    if workers.len() > 0 {
        let front = workers.drop_last();
        lemma_running_count(front);
        assert forall|i: int| 0 <= i < front.len() implies front[i] == workers[i] by {}
        if running(workers) == workers.len() {
            assert forall|i: int| 0 <= i < workers.len() implies (#[trigger] workers[i]).state is Running by {
                if i < front.len() {
                    assert(front[i].state is Running);
                }
            }
        }
        if forall|i: int| 0 <= i < workers.len() ==> (#[trigger] workers[i]).state is Running {
            assert forall|i: int| 0 <= i < front.len() implies (#[trigger] front[i]).state is Running by {
                assert(workers[i].state is Running);
            }
        }
        if running(workers) == 0 {
            assert forall|i: int| 0 <= i < workers.len() implies (#[trigger] workers[i]).state is Terminated by {
                if i < front.len() {
                    assert(front[i].state is Terminated);
                }
            }
        }
        if forall|i: int| 0 <= i < workers.len() ==> (#[trigger] workers[i]).state is Terminated {
            assert(workers.last().state is Terminated);
            assert forall|i: int| 0 <= i < front.len() implies (#[trigger] front[i]).state is Terminated by {
                assert(workers[i].state is Terminated);
            }
        }
    }
}

/// When a running worker exits, one worker fewer runs.
pub proof fn lemma_running_after_exit(workers: Seq<Worker>, w: int)
    requires
        0 <= w < workers.len(),
        workers[w].state is Running,
    ensures
        running(workers.update(w, Worker { id: workers[w].id, state: WorkerState::Terminated }))
            == running(workers) - 1,
    decreases workers.len(),
{
    let gone = Worker { id: workers[w].id, state: WorkerState::Terminated };
    let after = workers.update(w, gone);
    if w == workers.len() - 1 {
        assert(after.drop_last() =~= workers.drop_last());
    } else {
        lemma_running_after_exit(workers.drop_last(), w);
        assert(after.drop_last() =~= workers.drop_last().update(w, gone));
    }
}

/// Every message is a job or an exit signal.
pub proof fn lemma_queue_count<J>(queue: Seq<Message<J>>)
    ensures
        jobs(queue).len() + signals(queue) == queue.len(),
    decreases queue.len(),
{
    if queue.len() > 0 {
        lemma_queue_count(queue.drop_last());
    }
}

/// Taking the front message takes the first job, or one exit signal.
pub proof fn lemma_queue_front<J>(queue: Seq<Message<J>>)
    requires
        queue.len() > 0,
    ensures
        match queue[0] {
            Message::NewJob(job) => jobs(queue) == seq![job] + jobs(queue.skip(1)) && signals(
                queue,
            ) == signals(queue.skip(1)),
            Message::Terminate => jobs(queue) == jobs(queue.skip(1)) && signals(queue) == signals(
                queue.skip(1),
            ) + 1,
        },
    decreases queue.len(),
{
    if queue.len() == 1 {
        assert(queue.drop_last() =~= Seq::<Message<J>>::empty());
        assert(queue.skip(1) =~= Seq::<Message<J>>::empty());
        match queue[0] {
            Message::NewJob(job) => {
                assert(jobs(queue) =~= seq![job] + jobs(queue.skip(1)));
            },
            Message::Terminate => {},
        }
    } else {
        let front = queue.drop_last();
        lemma_queue_front(front);
        assert(front.skip(1) =~= queue.skip(1).drop_last());
        assert(queue.skip(1).last() == queue.last());
        match queue[0] {
            Message::NewJob(job) => {
                assert(jobs(queue) =~= seq![job] + jobs(queue.skip(1)));
            },
            Message::Terminate => {},
        }
    }
}

/// Exit signals put behind a queue leave its jobs as they are.
pub proof fn lemma_queue_with_signals<J>(queue: Seq<Message<J>>, n: nat)
    ensures
        jobs(queue + Seq::new(n, |i: int| Message::<J>::Terminate)) == jobs(queue),
        signals(queue + Seq::new(n, |i: int| Message::<J>::Terminate)) == signals(queue) + n,
    decreases n,
{
    let longer = queue + Seq::new(n, |i: int| Message::<J>::Terminate);
    if n == 0 {
        assert(longer =~= queue);
    } else {
        let shorter = queue + Seq::new((n - 1) as nat, |i: int| Message::<J>::Terminate);
        lemma_queue_with_signals(queue, (n - 1) as nat);
        assert(longer.drop_last() =~= shorter);
    }
}

/// A queue without exit signals holds jobs only.
pub proof fn lemma_no_signals<J>(queue: Seq<Message<J>>)
    requires
        signals(queue) == 0,
    ensures
        forall|i: int| 0 <= i < queue.len() ==> (#[trigger] queue[i]) is NewJob,
    decreases queue.len(),
{
    if queue.len() > 0 {
        let front = queue.drop_last();
        lemma_no_signals(front);
        assert forall|i: int| 0 <= i < queue.len() implies (#[trigger] queue[i]) is NewJob by {
            if i < front.len() {
                assert(front[i] is NewJob);
            }
        }
    }
}

/// A fresh pool is in order, and its workers run.
pub proof fn lemma_fresh<J>(size: nat)
    requires
        0 < size <= usize::MAX,
    ensures
        PoolView::<J>::fresh(size).wf(),
        !PoolView::<J>::fresh(size).finished(),
{
    let v = PoolView::<J>::fresh(size);
    lemma_running_count(v.workers);
    assert(v.workers[0].state is Running);
}

/// In a pool in order that is not shut down, some worker runs.
pub proof fn lemma_open_pool_runs<J>(v: PoolView<J>)
    requires
        v.wf(),
        !v.closing,
    ensures
        !v.finished(),
{
    lemma_running_count(v.workers);
    assert(v.workers[0].state is Running);
}

/// Accepting a job keeps a pool in order and puts the job behind those
/// that are pending.
pub proof fn lemma_submit<J>(v: PoolView<J>, job: J)
    ensures
        v.wf() ==> v.submit(job).wf(),
        jobs(v.submit(job).queue) == jobs(v.queue).push(job),
{
    let after = v.submit(job);
    assert(after.queue.drop_last() =~= v.queue);
}

/// Shutting down keeps a pool in order and its pending jobs as they are.
pub proof fn lemma_close<J>(v: PoolView<J>)
    ensures
        v.wf() ==> v.close().wf(),
        jobs(v.close().queue) == jobs(v.queue),
{
    if !v.closing {
        lemma_queue_with_signals(v.queue, v.workers.len());
    }
}

/// A worker's request keeps a pool in order. The job it is given is the
/// first of the pending ones; no other job leaves the queue.
pub proof fn lemma_receive<J>(v: PoolView<J>, w: int)
    ensures
        v.wf() ==> v.receive(w).wf(),
        v.receive(w).closing == v.closing,
        match v.action(w) {
            Some(Action::Run(job)) => jobs(v.queue) == seq![job] + jobs(v.receive(w).queue),
            _ => jobs(v.receive(w).queue) == jobs(v.queue),
        },
{
    if v.serves(w) {
        let after = v.receive(w);
        lemma_queue_front(v.queue);
        match v.queue[0] {
            Message::NewJob(job) => {},
            Message::Terminate => {
                if v.wf() {
                    lemma_running_after_exit(v.workers, w);
                    lemma_running_count(v.workers);
                    lemma_running_count(after.workers);
                    assert(after.workers[w].state is Terminated);
                }
            },
        }
    }
}

/// A fixed set of workers fed from one queue.
pub struct ThreadPool<J> {
    workers: Vec<Worker>,
    queue: VecDeque<Message<J>>,
    closing: bool,
}

impl<J> View for ThreadPool<J> {
    type V = PoolView<J>;

    closed spec fn view(&self) -> PoolView<J> {
        PoolView { workers: self.workers@, queue: self.queue@, closing: self.closing }
    }
}

impl<J> ThreadPool<J> {
    /// Whether the pool is in one of the states a pool can be in.
    pub open spec fn wf(&self) -> bool {
        self@.wf()
    }

    /// A pool of `size` running workers, numbered from zero, with an empty
    /// queue.
    pub fn new(size: usize) -> (pool: ThreadPool<J>)
        requires
            size > 0,
        ensures
            pool.wf(),
            pool@ == PoolView::<J>::fresh(size as nat),
            pool@.workers.len() == size,
            forall|i: int, j: int|
                0 <= i < j < size ==> pool@.workers[i].id != pool@.workers[j].id,
    {
        let mut workers: Vec<Worker> = Vec::new();
        let mut id: usize = 0;
        while id < size
            invariant
                id <= size,
                workers@ == PoolView::<J>::fresh(id as nat).workers,
            decreases size - id,
        {
            workers.push(Worker::new(id));
            id += 1;
            assert(workers@ =~= PoolView::<J>::fresh(id as nat).workers);
        }
        let pool = ThreadPool { workers: workers, queue: VecDeque::new(), closing: false };
        proof {
            lemma_fresh::<J>(size as nat);
            assert(pool@ =~= PoolView::<J>::fresh(size as nat));
        }
        pool
    }

    /// A pool of `size` workers, or nothing where `size` is zero: a pool
    /// without workers could never run a job.
    pub fn try_new(size: usize) -> (made: Option<ThreadPool<J>>)
        ensures
            made is Some <==> size > 0,
            made is Some ==> made->0.wf() && made->0@ == PoolView::<J>::fresh(size as nat),
    {
        if size > 0 {
            Some(ThreadPool::new(size))
        } else {
            None
        }
    }

    /// The number of workers.
    pub fn size(&self) -> (size: usize)
        ensures
            size == self@.workers.len(),
    {
        self.workers.len()
    }

    /// The numbers of the workers, in the order in which they are started
    /// and, at the end, joined.
    pub fn worker_ids(&self) -> (ids: Vec<usize>)
        requires
            self.wf(),
        ensures
            ids@ == Seq::new(self@.workers.len(), |i: int| i as usize),
            ids@ == self@.workers.map_values(|w: Worker| w.id),
    {
        let mut ids: Vec<usize> = Vec::new();
        let mut i: usize = 0;
        while i < self.workers.len()
            invariant
                self.wf(),
                i <= self.workers.len(),
                ids@ == Seq::new(i as nat, |k: int| k as usize),
            decreases self.workers.len() - i,
        {
            ids.push(self.workers[i].id);
            i += 1;
            assert(ids@ =~= Seq::new(i as nat, |k: int| k as usize));
        }
        assert(ids@ =~= self@.workers.map_values(|w: Worker| w.id));
        ids
    }

    /// Puts `job` at the back of the queue, for whichever worker gets to it.
    /// Nothing is run and no worker changes state: the caller is done as
    /// soon as the job is queued.
    ///
    /// Fails only when every worker has exited, so that nobody is left to
    /// take the job: the pool hands it back and stays as it is. Between a
    /// shutdown and the exit of the last worker a job is accepted, but it
    /// stands behind the exit signals and is not handed out.
    pub fn execute(&mut self, job: J) -> (sent: Result<(), SendError<J>>)
        requires
            old(self).wf(),
        ensures
            final(self).wf(),
            !old(self)@.finished() ==> sent is Ok && final(self)@ == old(self)@.submit(job),
            old(self)@.finished() ==> final(self)@ == old(self)@ && sent == Err::<
                (),
                SendError<J>,
            >(SendError(job)),
    {
        if self.is_finished() {
            Err(SendError(job))
        } else {
            proof {
                lemma_submit(self@, job);
            }
            self.queue.push_back(Message::NewJob(job));
            Ok(())
        }
    }

    /// Lets worker `worker` take the message at the front of the queue and
    /// tells it what to do. `None` means there is nothing for it: the queue
    /// is empty and the worker has to wait, or it has exited already, or the
    /// pool has no such worker.
    pub fn receive(&mut self, worker: usize) -> (action: Option<Action<J>>)
        requires
            old(self).wf(),
        ensures
            final(self).wf(),
            final(self)@ == old(self)@.receive(worker as int),
            action == old(self)@.action(worker as int),
    {
        proof {
            lemma_receive(self@, worker as int);
        }
        if worker >= self.workers.len() {
            return None;
        }
        let mut taker: Worker = self.workers[worker];
        match taker.state {
            WorkerState::Terminated => {
                return None;
            },
            WorkerState::Running => {},
        }
        match self.queue.pop_front() {
            None => None,
            Some(message) => {
                let action = taker.handle(message);
                self.workers.set(worker, taker);
                assert(final(self)@.queue =~= old(self)@.queue.skip(1));
                assert(final(self)@.workers =~= old(self)@.receive(worker as int).workers);
                Some(action)
            },
        }
    }

    /// Begins the teardown: one exit signal per worker goes behind the
    /// pending jobs. Tells whether this call began it; on a pool that is
    /// shut down already it changes nothing.
    pub fn shutdown(&mut self) -> (began: bool)
        requires
            old(self).wf(),
        ensures
            final(self).wf(),
            final(self)@ == old(self)@.close(),
            began == !old(self)@.closing,
    {
        proof {
            lemma_close(self@);
        }
        if self.closing {
            return false;
        }
        let mut sent: usize = 0;
        while sent < self.workers.len()
            invariant
                sent <= self.workers.len(),
                self.workers == old(self).workers,
                self.closing == old(self).closing,
                self.queue@ == old(self).queue@ + Seq::new(
                    sent as nat,
                    |i: int| Message::<J>::Terminate,
                ),
            decreases self.workers.len() - sent,
        {
            self.queue.push_back(Message::Terminate);
            sent += 1;
            assert(self.queue@ =~= old(self).queue@ + Seq::new(
                sent as nat,
                |i: int| Message::<J>::Terminate,
            ));
        }
        self.closing = true;
        true
    }

    /// The log entry that opens a teardown.
    pub fn shutdown_notice() -> (entry: String)
        ensures
            entry@ == "Terminating all workers"@,
    {
        String::from_str("Terminating all workers")
    }

    /// The log entry written before worker `worker` is joined.
    pub fn join_notice(worker: usize) -> (entry: String)
        ensures
            entry@ == "Shutting down worker "@ + decimal(worker as nat),
    {
        let mut out = chars_of("Shutting down worker ");
        push_decimal(&mut out, worker);
        string_of(&out)
    }

    /// The log entry for a job that failed in the hands of worker `worker`,
    /// which goes on to its next message.
    pub fn failure_notice(worker: usize) -> (entry: String)
        ensures
            entry@ == "Worker "@ + decimal(worker as nat) + " lost a job that failed."@,
    {
        let mut out = chars_of("Worker ");
        push_decimal(&mut out, worker);
        append_chars(&mut out, &chars_of(" lost a job that failed."));
        string_of(&out)
    }

    /// Whether the pool has been shut down.
    pub fn is_closing(&self) -> (closing: bool)
        ensures
            closing == self@.closing,
    {
        self.closing
    }

    /// The number of messages waiting in the queue.
    pub fn pending(&self) -> (n: usize)
        ensures
            n == self@.queue.len(),
    {
        broadcast use vstd::std_specs::vecdeque::axiom_spec_len;

        self.queue.len()
    }

    /// Whether `worker` is a worker of the pool that still takes messages.
    pub fn is_running(&self, worker: usize) -> (runs: bool)
        ensures
            runs == (worker < self@.workers.len() && self@.workers[worker as int].state is Running),
    {
        worker < self.workers.len() && match self.workers[worker].state {
            WorkerState::Running => true,
            WorkerState::Terminated => false,
        }
    }

    /// Whether every worker has exited, so that joining them all returns
    /// and a submission fails.
    pub fn is_finished(&self) -> (done: bool)
        ensures
            done == self@.finished(),
    {
        let mut i: usize = 0;
        while i < self.workers.len()
            invariant
                i <= self.workers.len(),
                forall|k: int| 0 <= k < i ==> (#[trigger] self.workers@[k]).state is Terminated,
            decreases self.workers.len() - i,
        {
            match self.workers[i].state {
                WorkerState::Running => {
                    return false;
                },
                WorkerState::Terminated => {},
            }
            i += 1;
        }
        true
    }
}

} // verus!
