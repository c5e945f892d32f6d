//! What holds of every run of a pool, whichever worker gets to the queue
//! first: no job is lost or run twice, and a teardown always ends.

use crate::pool::{
    jobs, lemma_close, lemma_no_signals, lemma_open_pool_runs, lemma_queue_count, lemma_receive,
    lemma_running_after_exit, lemma_running_count, lemma_submit, running, signals, Action,
    PoolView,
};
use vstd::prelude::*;

verus! {

/// One thing that happens to a pool: one call of a method of `ThreadPool`
/// that may change it.
pub enum Event<J> {
    /// A producer submits a job (`execute`).
    Submit(J),
    /// The worker with this number asks for a message (`receive`).
    Receive(int),
    /// The owner shuts the pool down (`shutdown`).
    Shutdown,
}

/// The pool after one event. A pool whose workers have all exited turns
/// submissions away, and a worker that is not served leaves the pool as it
/// is.
pub open spec fn step<J>(v: PoolView<J>, event: Event<J>) -> PoolView<J> {
    match event {
        Event::Submit(job) => if v.finished() {
            v
        } else {
            v.submit(job)
        },
        Event::Receive(w) => v.receive(w),
        Event::Shutdown => v.close(),
    }
}

/// The pool after the events of `trace`, in order.
pub open spec fn run<J>(v: PoolView<J>, trace: Seq<Event<J>>) -> PoolView<J>
    decreases trace.len(),
{
    if trace.len() == 0 {
        v
    } else {
        step(run(v, trace.drop_last()), trace.last())
    }
}

/// The jobs that `trace` submits, in order.
pub open spec fn submitted<J>(trace: Seq<Event<J>>) -> Seq<J>
    decreases trace.len(),
{
    if trace.len() == 0 {
        Seq::empty()
    } else {
        match trace.last() {
            Event::Submit(job) => submitted(trace.drop_last()).push(job),
            _ => submitted(trace.drop_last()),
        }
    }
}

/// The jobs that the pool accepts in the course of `trace`, in order:
/// those submitted while a worker was left to take them.
pub open spec fn accepted<J>(v: PoolView<J>, trace: Seq<Event<J>>) -> Seq<J>
    decreases trace.len(),
{
    if trace.len() == 0 {
        Seq::empty()
    } else {
        let earlier = accepted(v, trace.drop_last());
        match trace.last() {
            Event::Submit(job) => if run(v, trace.drop_last()).finished() {
                earlier
            } else {
                earlier.push(job)
            },
            _ => earlier,
        }
    }
}

/// The jobs that workers are given to run in the course of `trace`, in the
/// order in which they are handed out.
pub open spec fn executed<J>(v: PoolView<J>, trace: Seq<Event<J>>) -> Seq<J>
    decreases trace.len(),
{
    if trace.len() == 0 {
        Seq::empty()
    } else {
        let earlier = executed(v, trace.drop_last());
        match trace.last() {
            Event::Receive(w) => match run(v, trace.drop_last()).action(w) {
                Some(Action::Run(job)) => earlier.push(job),
                _ => earlier,
            },
            _ => earlier,
        }
    }
}

/// Whether `trace` holds nothing but requests of workers, each made when
/// the worker is running and the queue is not empty.
pub open spec fn served<J>(v: PoolView<J>, trace: Seq<Event<J>>) -> bool
    decreases trace.len(),
{
    if trace.len() == 0 {
        true
    } else {
        &&& served(v, trace.drop_last())
        &&& trace.last() matches Event::Receive(w) && run(v, trace.drop_last()).serves(w)
    }
}

/// Every event leaves a pool in order, with the workers it had, and shut
/// down if it was.
pub proof fn law_step_keeps_order<J>(v: PoolView<J>, event: Event<J>)
    requires
        v.wf(),
    ensures
        step(v, event).wf(),
        step(v, event).workers.len() == v.workers.len(),
        v.closing ==> step(v, event).closing,
{
    match event {
        Event::Submit(job) => {
            lemma_submit(v, job);
        },
        Event::Receive(w) => {
            lemma_receive(v, w);
        },
        Event::Shutdown => {
            lemma_close(v);
        },
    }
}

/// Every run leaves a pool in order, with the workers it had, and shut
/// down if it was.
pub proof fn law_run_keeps_order<J>(v: PoolView<J>, trace: Seq<Event<J>>)
    requires
        v.wf(),
    ensures
        run(v, trace).wf(),
        run(v, trace).workers.len() == v.workers.len(),
        v.closing ==> run(v, trace).closing,
    decreases trace.len(),
{
    if trace.len() > 0 {
        law_run_keeps_order(v, trace.drop_last());
        law_step_keeps_order(run(v, trace.drop_last()), trace.last());
    }
}

/// Each accepted job is handed to a worker at most once, and none is lost.
///
/// After any run, the jobs handed out so far, followed by the jobs still
/// in the queue, are the jobs that were pending at the start followed by
/// the jobs accepted since: the same jobs, as often, in the same order,
/// whichever workers asked and whenever.
pub proof fn law_every_job_once<J>(v: PoolView<J>, trace: Seq<Event<J>>)
    ensures
        executed(v, trace) + jobs(run(v, trace).queue) == jobs(v.queue) + accepted(v, trace),
    decreases trace.len(),
{
    if trace.len() == 0 {
        assert(executed(v, trace) + jobs(v.queue) =~= jobs(v.queue) + accepted(v, trace));
    } else {
        let earlier = trace.drop_last();
        let before = run(v, earlier);
        law_every_job_once(v, earlier);
        match trace.last() {
            Event::Submit(job) => {
                if !before.finished() {
                    lemma_submit(before, job);
                    assert(executed(v, trace) + jobs(run(v, trace).queue) =~= (executed(v, earlier)
                        + jobs(before.queue)).push(job));
                    assert(jobs(v.queue) + accepted(v, trace) =~= (jobs(v.queue) + accepted(
                        v,
                        earlier,
                    )).push(job));
                }
            },
            Event::Receive(w) => {
                lemma_receive(before, w);
                match before.action(w) {
                    Some(Action::Run(job)) => {
                        assert(executed(v, trace) + jobs(run(v, trace).queue) =~= executed(
                            v,
                            earlier,
                        ) + (seq![job] + jobs(run(v, trace).queue)));
                    },
                    _ => {},
                }
            },
            Event::Shutdown => {
                lemma_close(before);
            },
        }
    }
}

/// A pool that is not shut down accepts every job submitted to it.
pub proof fn law_open_pool_accepts<J>(v: PoolView<J>, trace: Seq<Event<J>>)
    requires
        v.wf(),
        !v.closing,
        forall|i: int| 0 <= i < trace.len() ==> !(#[trigger] trace[i] is Shutdown),
    ensures
        run(v, trace).wf(),
        !run(v, trace).closing,
        accepted(v, trace) == submitted(trace),
    decreases trace.len(),
{
    if trace.len() > 0 {
        let earlier = trace.drop_last();
        assert forall|i: int| 0 <= i < earlier.len() implies !(#[trigger] earlier[i] is Shutdown) by {
            assert(earlier[i] == trace[i]);
        }
        law_open_pool_accepts(v, earlier);
        assert(!(trace[trace.len() - 1] is Shutdown));
        lemma_open_pool_runs(run(v, earlier));
        law_step_keeps_order(run(v, earlier), trace.last());
        match trace.last() {
            Event::Receive(w) => {
                lemma_receive(run(v, earlier), w);
            },
            _ => {},
        }
    }
}

/// A pool that is not shut down serves every worker that asks while a job
/// is pending, so a pending job does not wait for any worker in particular.
pub proof fn law_open_pool_serves<J>(v: PoolView<J>, w: int)
    requires
        v.wf(),
        !v.closing,
        0 <= w < v.workers.len(),
        v.queue.len() > 0,
    ensures
        v.serves(w),
        v.action(w) is Some,
        v.receive(w).queue.len() == v.queue.len() - 1,
{
    lemma_running_count(v.workers);
}

/// The requests of the workers `workers`, one after the other.
pub open spec fn requests<J>(workers: Seq<int>) -> Seq<Event<J>> {
    Seq::new(workers.len(), |i: int| Event::<J>::Receive(workers[i]))
}

/// In a pool that is not shut down, as many requests as jobs are pending,
/// by whichever workers of the pool, hand all those jobs out: each once,
/// in the order in which they were submitted, and the queue is empty.
pub proof fn law_pending_jobs_all_run<J>(v: PoolView<J>, workers: Seq<int>)
    requires
        v.wf(),
        !v.closing,
        workers.len() <= v.queue.len(),
        forall|i: int| 0 <= i < workers.len() ==> 0 <= #[trigger] workers[i] < v.workers.len(),
    ensures
        served(v, requests(workers)),
        run(v, requests(workers)).queue.len() == v.queue.len() - workers.len(),
        workers.len() == v.queue.len() ==> executed(v, requests(workers)) == jobs(v.queue),
    decreases workers.len(),
{
    let trace = requests::<J>(workers);
    if workers.len() > 0 {
        let fewer = workers.drop_last();
        assert forall|i: int| 0 <= i < fewer.len() implies 0 <= #[trigger] fewer[i]
            < v.workers.len() by {
            assert(fewer[i] == workers[i]);
        }
        law_pending_jobs_all_run(v, fewer);
        assert(trace.drop_last() =~= requests::<J>(fewer));
        let before = run(v, requests::<J>(fewer));
        law_served_run(v, requests::<J>(fewer));
        assert(0 <= workers[workers.len() - 1] < v.workers.len());
        law_run_keeps_order(v, requests::<J>(fewer));
        law_open_pool_serves(before, workers.last());
    }
    law_served_run(v, trace);
    law_every_job_once(v, trace);
    if workers.len() == v.queue.len() {
        assert(executed(v, trace) + jobs(run(v, trace).queue) =~= executed(v, trace));
        assert(jobs(v.queue) + accepted(v, trace) =~= jobs(v.queue));
    }
}

/// Without a teardown in between, every submitted job runs exactly once.
///
/// In a run without a shutdown, of a pool that was not shut down before,
/// the jobs handed out followed by the jobs still queued are the jobs
/// pending at the start followed by all the jobs submitted. So once the
/// queue is empty, the jobs handed out are exactly those, each once.
pub proof fn law_jobs_run_exactly_once<J>(v: PoolView<J>, trace: Seq<Event<J>>)
    requires
        v.wf(),
        !v.closing,
        forall|i: int| 0 <= i < trace.len() ==> !(#[trigger] trace[i] is Shutdown),
    ensures
        executed(v, trace) + jobs(run(v, trace).queue) == jobs(v.queue) + submitted(trace),
        run(v, trace).queue.len() == 0 ==> executed(v, trace) == jobs(v.queue) + submitted(trace),
{
    law_every_job_once(v, trace);
    law_open_pool_accepts(v, trace);
    if run(v, trace).queue.len() == 0 {
        assert(executed(v, trace) + jobs(run(v, trace).queue) =~= executed(v, trace));
    }
}

/// Submitting a job hands nothing to any worker and changes no worker: the
/// submitter does not wait for the job to run.
pub proof fn law_submit_only_queues<J>(v: PoolView<J>, trace: Seq<Event<J>>, job: J)
    ensures
        executed(v, trace.push(Event::Submit(job))) == executed(v, trace),
        run(v, trace.push(Event::Submit(job))).workers == run(v, trace).workers,
{
    assert(trace.push(Event::Submit(job)).drop_last() =~= trace);
}

/// During a teardown, the workers are done exactly when no exit signal is
/// left in the queue, and until then every running worker that asks is
/// served: no worker waits for ever.
pub proof fn law_teardown_progress<J>(v: PoolView<J>)
    requires
        v.wf(),
        v.closing,
    ensures
        v.finished() <==> signals(v.queue) == 0,
        !v.finished() ==> v.queue.len() > 0,
        !v.finished() ==> forall|w: int|
            0 <= w < v.workers.len() && v.workers[w].state is Running ==> #[trigger] v.serves(w),
{
    lemma_running_count(v.workers);
    lemma_queue_count(v.queue);
}

/// Requests that are served shorten the queue by one each and leave the
/// pool as open or shut as it was.
pub proof fn law_served_run<J>(v: PoolView<J>, trace: Seq<Event<J>>)
    requires
        v.wf(),
        served(v, trace),
    ensures
        run(v, trace).wf(),
        run(v, trace).closing == v.closing,
        run(v, trace).queue.len() == v.queue.len() - trace.len(),
        accepted(v, trace) == Seq::<J>::empty(),
    decreases trace.len(),
{
    if trace.len() > 0 {
        let earlier = trace.drop_last();
        law_served_run(v, earlier);
        lemma_receive(run(v, earlier), trace.last()->Receive_0);
    }
}

/// A teardown ends, and it ends with every pending job handed out.
///
/// In a pool that is shut down, as many served requests as the queue is
/// long, by whichever workers in whichever order, leave the queue empty
/// and every worker exited, so that every join returns; and the jobs
/// handed out on the way are exactly the jobs that were pending.
pub proof fn law_teardown_completes<J>(v: PoolView<J>, trace: Seq<Event<J>>)
    requires
        v.wf(),
        v.closing,
        served(v, trace),
        trace.len() == v.queue.len(),
    ensures
        run(v, trace).finished(),
        run(v, trace).queue.len() == 0,
        executed(v, trace) == jobs(v.queue),
{
    law_served_run(v, trace);
    law_teardown_progress(run(v, trace));
    law_every_job_once(v, trace);
    assert(executed(v, trace) + jobs(run(v, trace).queue) =~= executed(v, trace));
    assert(jobs(v.queue) + accepted(v, trace) =~= jobs(v.queue));
}

/// Tearing down an idle pool exits all its workers.
///
/// A pool of `k` running workers with nothing pending, once shut down,
/// holds `k` exit signals; `k` served requests, however they fall to the
/// workers, leave every worker exited and the queue empty.
pub proof fn law_idle_teardown<J>(v: PoolView<J>, trace: Seq<Event<J>>)
    requires
        v.wf(),
        !v.closing,
        v.queue.len() == 0,
        served(v.close(), trace),
        trace.len() == v.workers.len(),
    ensures
        v.close().queue.len() == v.workers.len(),
        signals(v.close().queue) == v.workers.len(),
        run(v.close(), trace).finished(),
        run(v.close(), trace).queue.len() == 0,
        executed(v.close(), trace) == Seq::<J>::empty(),
{
    lemma_close(v);
    lemma_queue_count(v.close().queue);
    law_teardown_completes(v.close(), trace);
    assert(jobs(v.queue) =~= Seq::<J>::empty());
}

/// After a shutdown the queue holds, front first, the jobs that were
/// pending and have not been handed out, then one exit signal for each
/// worker still running, then whatever was submitted since; and no worker
/// exits while one of the pending jobs is left.
proof fn lemma_after_shutdown<J>(v: PoolView<J>, trace: Seq<Event<J>>)
    requires
        v.wf(),
        !v.closing,
    ensures
        run(v.close(), trace).wf(),
        run(v.close(), trace).closing,
        executed(v.close(), trace).len() <= jobs(v.queue).len(),
        ({
            let now = run(v.close(), trace);
            let left = jobs(v.queue).len() - executed(v.close(), trace).len();
            let alive = running(now.workers);
            &&& left + alive <= now.queue.len()
            &&& forall|i: int| 0 <= i < left ==> (#[trigger] now.queue[i]) is NewJob
            &&& forall|i: int| left <= i < left + alive ==> (#[trigger] now.queue[i]) is Terminate
            &&& left > 0 ==> alive == now.workers.len()
        }),
    decreases trace.len(),
{
    let shut = v.close();
    lemma_close(v);
    if trace.len() == 0 {
        lemma_no_signals(v.queue);
        lemma_queue_count(v.queue);
        assert forall|i: int| 0 <= i < v.queue.len() implies (#[trigger] shut.queue[i]) is NewJob by {
            assert(shut.queue[i] == v.queue[i]);
        }
    } else {
        let earlier = trace.drop_last();
        let before = run(shut, earlier);
        let now = run(shut, trace);
        lemma_after_shutdown(v, earlier);
        law_step_keeps_order(before, trace.last());
        let left_before = jobs(v.queue).len() - executed(shut, earlier).len();
        let alive_before = running(before.workers);
        let left = jobs(v.queue).len() - executed(shut, trace).len();
        let alive = running(now.workers);
        match trace.last() {
            Event::Submit(job) => {
                assert forall|i: int| 0 <= i < left implies (#[trigger] now.queue[i]) is NewJob by {
                    assert(before.queue[i] is NewJob);
                }
                assert forall|i: int| left <= i < left + alive implies (#[trigger] now.queue[i]) is Terminate by {
                    assert(before.queue[i] is Terminate);
                }
            },
            Event::Receive(w) => {
                if before.serves(w) {
                    lemma_running_count(before.workers);
                    assert(alive_before > 0);
                    if left_before > 0 {
                        assert(before.queue[0] is NewJob);
                    } else {
                        assert(before.queue[0] is Terminate);
                        lemma_running_after_exit(before.workers, w);
                    }
                    assert forall|i: int| 0 <= i < left implies (#[trigger] now.queue[i]) is NewJob by {
                        assert(before.queue[i + 1] is NewJob);
                    }
                    assert forall|i: int| left <= i < left + alive implies (#[trigger] now.queue[i]) is Terminate by {
                        assert(before.queue[i + 1] is Terminate);
                    }
                }
            },
            Event::Shutdown => {},
        }
    }
}

/// A teardown waits for the jobs that were pending when it began.
///
/// Whatever happens after a shutdown, by the time the last worker has
/// exited every job that was in the queue at the shutdown has been handed
/// to a worker, in order.
pub proof fn law_teardown_runs_pending_jobs<J>(v: PoolView<J>, trace: Seq<Event<J>>)
    requires
        v.wf(),
        !v.closing,
        run(v.close(), trace).finished(),
    ensures
        executed(v.close(), trace) == jobs(v.queue),
{
    let now = run(v.close(), trace);
    lemma_after_shutdown(v, trace);
    lemma_running_count(now.workers);
    law_jobs_after_shutdown_wait(v, trace);
    assert(executed(v.close(), trace) =~= jobs(v.queue));
}

/// A job submitted after the shutdown is not handed out.
///
/// It stands behind the exit signals, one for each running worker, so
/// that every worker has exited before the job would be at the front: the
/// jobs handed out after a shutdown are among those that were pending at
/// the shutdown, in their order.
pub proof fn law_jobs_after_shutdown_wait<J>(v: PoolView<J>, trace: Seq<Event<J>>)
    requires
        v.wf(),
        !v.closing,
    ensures
        executed(v.close(), trace).is_prefix_of(jobs(v.queue)),
{
    let shut = v.close();
    let now = run(shut, trace);
    lemma_after_shutdown(v, trace);
    lemma_close(v);
    law_every_job_once(shut, trace);
    let pending = jobs(v.queue);
    let ran = executed(shut, trace);
    assert forall|i: int| 0 <= i < ran.len() implies pending[i] == ran[i] by {
        assert((ran + jobs(now.queue))[i] == ran[i]);
        assert((pending + accepted(shut, trace))[i] == pending[i]);
    }
    assert(ran =~= pending.subrange(0, ran.len() as int));
}

} // verus!
