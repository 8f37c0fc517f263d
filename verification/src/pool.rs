//! Lifecycle model of the fixed-size worker pool.
//!
//! A pool owns `size` long-lived workers, the producing end of an unbounded
//! FIFO job queue, and a record of every job ever submitted. Jobs are
//! identified by submission order: the `k`-th call to [`ThreadPool::execute`]
//! submits job `k`. Each transition of the model corresponds to one observable
//! event of the running pool: a submission, a worker pulling a job off the
//! queue, a job finishing (normally or by panicking), the producing end being
//! closed, a worker seeing the closed and drained queue and exiting, and a
//! worker being joined during teardown.
//!
//! The well-formedness predicate [`ThreadPool::wf`] ties the three records
//! together: the queue holds exactly the pending jobs in submission order, a
//! running job is held by exactly one worker, and a worker can only have been
//! joined once its thread has ended. From it follow the pool's guarantees:
//! no job is ever delivered twice ([`lemma_exclusive_delivery`]), dispatch is
//! FIFO ([`lemma_dispatch_fifo`]), and once every worker is joined and none
//! panicked, every submitted job has run to completion
//! ([`lemma_every_job_done`]).

use vstd::prelude::*;

verus! {

/// What a single worker thread is doing.
#[derive(Clone, Copy, Debug, PartialEq, Eq, Structural)]
pub enum Phase {
    /// Blocked on the shared queue, waiting for a job.
    Listening,
    /// Running job `job` to completion; not listening meanwhile.
    Executing { job: usize },
    /// Saw the queue closed and drained; its thread function returned normally.
    Terminated,
    /// A job panicked on this worker; its thread died without returning.
    Poisoned,
}

/// What became of a submitted job.
#[derive(Clone, Copy, Debug, PartialEq, Eq, Structural)]
pub enum JobStatus {
    /// Waiting in the queue; no worker has pulled it yet.
    Queued,
    /// Pulled by worker `worker`, which is running it now.
    Running { worker: usize },
    /// Ran to completion on some worker.
    Done,
    /// Was being run by worker `worker` when that worker's thread panicked;
    /// the job will never complete.
    Lost { worker: usize },
}

/// One worker of the pool: a small integer id, what its thread is doing, and
/// whether teardown has already joined it.
#[derive(Clone, Copy, Debug, PartialEq, Eq, Structural)]
pub struct Worker {
    pub id: usize,
    pub phase: Phase,
    pub joined: bool,
}

impl Worker {
    /// A freshly spawned worker: listening on the queue, not yet joined.
    pub fn new(id: usize) -> (w: Worker)
        ensures
            w == (Worker { id, phase: Phase::Listening, joined: false }),
    {
        Worker { id, phase: Phase::Listening, joined: false }
    }
}

/// The pool: its workers, whether the producing end of the queue is still
/// open, the pending jobs in submission order, and the status of every job
/// ever submitted (job `j` is the `j`-th submission).
pub struct ThreadPool {
    pub workers: Vec<Worker>,
    pub sender_open: bool,
    pub queue: Vec<usize>,
    pub statuses: Vec<JobStatus>,
}

impl ThreadPool {
    /// Every invariant the pool maintains between transitions.
    pub open spec fn wf(self) -> bool {
        let ws = self.workers@;
        let st = self.statuses@;
        let q = self.queue@;
        // at least one worker, ids in order
        &&& ws.len() >= 1
        &&& forall|i: int| 0 <= i < ws.len() ==> (#[trigger] ws[i]).id == i
        // the queue holds pending jobs only
        &&& forall|k: int|
            0 <= k < q.len() ==> (#[trigger] q[k]) < st.len() && st[q[k] as int] is Queued
        // submission order, hence no duplicates
        &&& forall|k1: int, k2: int|
            0 <= k1 < k2 < q.len() ==> (#[trigger] q[k1]) < (#[trigger] q[k2])
        // every pending job is in the queue
        &&& forall|j: int|
            0 <= j < st.len() && (#[trigger] st[j]) is Queued ==> q.contains(j as usize)
        // a running job is held by exactly the worker recorded for it
        &&& forall|j: int|
            0 <= j < st.len() ==> ((#[trigger] st[j]) matches JobStatus::Running { worker }
                ==> worker < ws.len() && ws[worker as int].phase == (Phase::Executing {
                    job: j as usize,
                }))
        // an executing worker holds exactly the job recorded for it
        &&& forall|i: int|
            0 <= i < ws.len() ==> ((#[trigger] ws[i]).phase matches Phase::Executing { job }
                ==> job < st.len() && st[job as int] == (JobStatus::Running {
                    worker: i as usize,
                }))
        // a lost job names the worker whose thread its panic killed
        &&& forall|j: int|
            0 <= j < st.len() ==> ((#[trigger] st[j]) matches JobStatus::Lost { worker }
                ==> worker < ws.len() && ws[worker as int].phase is Poisoned)
        // only an ended thread can have been joined
        &&& forall|i: int|
            0 <= i < ws.len() && (#[trigger] ws[i]).joined ==> (ws[i].phase is Terminated
                || ws[i].phase is Poisoned)
        // a worker exits its loop only after the producing end is closed
        &&& forall|i: int|
            0 <= i < ws.len() && (#[trigger] ws[i]).phase is Terminated ==> !self.sender_open
        // a worker exits its loop only once the queue has drained
        &&& ((forall|i: int| 0 <= i < ws.len() ==> (#[trigger] ws[i]).phase is Terminated)
            ==> q.len() == 0)
    }

    /// The thread of worker `w` has ended, normally or by panic.
    pub open spec fn resolved(self, w: int) -> bool {
        self.workers@[w].phase is Terminated || self.workers@[w].phase is Poisoned
    }

    pub open spec fn all_resolved(self) -> bool {
        forall|i: int| 0 <= i < self.workers@.len() ==> self.resolved(i)
    }

    pub open spec fn all_joined(self) -> bool {
        forall|i: int| 0 <= i < self.workers@.len() ==> (#[trigger] self.workers@[i]).joined
    }

    pub open spec fn none_joined(self) -> bool {
        forall|i: int| 0 <= i < self.workers@.len() ==> !(#[trigger] self.workers@[i]).joined
    }

    pub open spec fn none_poisoned(self) -> bool {
        forall|i: int|
            0 <= i < self.workers@.len() ==> !((#[trigger] self.workers@[i]).phase is Poisoned)
    }
}

/// The ids of the workers among the first `n` whose thread died by panic, in
/// id order: what teardown reports.
pub open spec fn poisoned_ids(ws: Seq<Worker>, n: int) -> Seq<usize>
    decreases n,
{
    if n <= 0 {
        Seq::empty()
    } else if ws[n - 1].phase is Poisoned {
        poisoned_ids(ws, n - 1).push(ws[n - 1].id)
    } else {
        poisoned_ids(ws, n - 1)
    }
}

impl ThreadPool {
    /// Construct a pool of exactly `size` workers, all listening, with an
    /// empty queue and the producing end open. A pool of zero workers could
    /// never make progress, so `size == 0` is ruled out up front.
    pub fn new(size: usize) -> (pool: ThreadPool)
        requires
            size >= 1,
        ensures
            pool.wf(),
            pool.workers@.len() == size,
            forall|i: int|
                0 <= i < size ==> (#[trigger] pool.workers@[i]) == (Worker {
                    id: i as usize,
                    phase: Phase::Listening,
                    joined: false,
                }),
            pool.sender_open,
            pool.queue@.len() == 0,
            pool.statuses@.len() == 0,
    {
        let mut workers: Vec<Worker> = Vec::new();
        let mut id: usize = 0;
        while id < size
            invariant
                id <= size,
                workers@.len() == id,
                forall|i: int|
                    0 <= i < id ==> (#[trigger] workers@[i]) == (Worker {
                        id: i as usize,
                        phase: Phase::Listening,
                        joined: false,
                    }),
            decreases size - id,
        {
            workers.push(Worker::new(id));
            id += 1;
        }
        ThreadPool { workers, sender_open: true, queue: Vec::new(), statuses: Vec::new() }
    }

    /// Submit a job: append it to the queue and record it as pending. The
    /// call never waits (the queue is unbounded) and never drops the job.
    /// Submitting after the producing end was closed is a usage-order bug,
    /// ruled out up front.
    pub fn execute(&mut self) -> (job: usize)
        requires
            old(self).wf(),
            old(self).sender_open,
        ensures
            final(self).wf(),
            job == old(self).statuses@.len(),
            final(self).statuses@ == old(self).statuses@.push(JobStatus::Queued),
            final(self).queue@ == old(self).queue@.push(job),
            final(self).workers@ == old(self).workers@,
            final(self).sender_open,
    {
        let job = self.statuses.len();
        self.statuses.push(JobStatus::Queued);
        self.queue.push(job);
        proof {
            let p0 = *old(self);
            let p1 = *self;
            assert forall|i: int|
                0 <= i < p1.workers@.len() implies !((#[trigger] p1.workers@[i]).phase
                is Terminated) by {
                assert(p0.workers@[i].phase is Terminated ==> !p0.sender_open);
            }
            assert forall|k: int|
                0 <= k < p1.queue@.len() implies (#[trigger] p1.queue@[k]) < p1.statuses@.len()
                && p1.statuses@[p1.queue@[k] as int] is Queued by {
                if k < p0.queue@.len() {
                    assert(p0.queue@[k] < p0.statuses@.len());
                    assert(p0.statuses@[p0.queue@[k] as int] is Queued);
                }
            }
            assert forall|j: int|
                0 <= j < p1.statuses@.len() && (#[trigger] p1.statuses@[j])
                is Queued implies p1.queue@.contains(j as usize) by {
                if j < p0.statuses@.len() {
                    assert(p0.queue@.contains(j as usize));
                    let k = choose|k: int|
                        0 <= k < p0.queue@.len() && p0.queue@[k] == j as usize;
                    assert(p1.queue@[k] == j as usize);
                } else {
                    assert(p1.queue@[p0.queue@.len() as int] == j as usize);
                }
            }
            lemma_not_all_terminated(p1, 0);
        }
        job
    }

    /// Worker `w`, listening, pulls the job at the head of the queue and
    /// starts running it. The head is the earliest submitted pending job,
    /// and it is handed to `w` alone.
    pub fn dispatch(&mut self, w: usize) -> (job: usize)
        requires
            old(self).wf(),
            w < old(self).workers@.len(),
            old(self).workers@[w as int].phase is Listening,
            old(self).queue@.len() > 0,
        ensures
            final(self).wf(),
            job == old(self).queue@[0],
            final(self).queue@ == old(self).queue@.drop_first(),
            final(self).statuses@ == old(self).statuses@.update(
                job as int,
                (JobStatus::Running { worker: w }),
            ),
            final(self).workers@ == old(self).workers@.update(
                w as int,
                (Worker {
                    id: old(self).workers@[w as int].id,
                    phase: (Phase::Executing { job }),
                    joined: false,
                }),
            ),
            final(self).sender_open == old(self).sender_open,
    {
        proof {
            assert(old(self).queue@[0] < old(self).statuses@.len());
            assert(!old(self).workers@[w as int].joined);
        }
        let job = self.queue.remove(0);
        let wk = self.workers[w];
        self.statuses[job] = JobStatus::Running { worker: w };
        self.workers[w] = Worker { id: wk.id, phase: Phase::Executing { job }, joined: false };
        proof {
            let p0 = *old(self);
            let p1 = *self;
            let q0 = p0.queue@;
            let q1 = p1.queue@;
            let st0 = p0.statuses@;
            let st1 = p1.statuses@;
            let ws0 = p0.workers@;
            let ws1 = p1.workers@;
            assert(q1 =~= q0.drop_first());
            assert forall|k: int|
                0 <= k < q1.len() implies (#[trigger] q1[k]) < st1.len() && st1[q1[k] as int]
                is Queued by {
                assert(q0[k + 1] == q1[k]);
                assert(q0[k + 1] < st0.len() && st0[q0[k + 1] as int] is Queued);
                assert(q0[0] < q0[k + 1]);
            }
            assert forall|j: int|
                0 <= j < st1.len() && (#[trigger] st1[j]) is Queued implies q1.contains(
                j as usize,
            ) by {
                assert(st0[j] is Queued);
                assert(q0.contains(j as usize));
                let k = choose|k: int| 0 <= k < q0.len() && q0[k] == j as usize;
                assert(j != job as int);
                assert(q0[0] == job);
                assert(p0.statuses.len() == st0.len());
                if k == 0 {
                    assert(j as usize == job);
                    assert(false);
                }
                assert(q1[k - 1] == j as usize);
            }
            assert forall|j: int| 0 <= j < st1.len() implies ((#[trigger] st1[j])
                matches JobStatus::Running { worker } ==> worker < ws1.len() && ws1[
                worker as int].phase == (Phase::Executing { job: j as usize })) by {
                if st1[j] is Running {
                    let w2 = st1[j]->Running_worker;
                    if j != job as int {
                        assert(st0[j] == st1[j]);
                        assert(ws0[w2 as int].phase == (Phase::Executing { job: j as usize }));
                        assert(w2 != w);
                    }
                }
            }
            assert forall|i: int| 0 <= i < ws1.len() implies ((#[trigger] ws1[i]).phase
                matches Phase::Executing { job: jb } ==> jb < st1.len() && st1[jb as int]
                == (JobStatus::Running { worker: i as usize })) by {
                if ws1[i].phase is Executing {
                    let jb = ws1[i].phase->job;
                    if i != w as int {
                        assert(ws0[i].phase == ws1[i].phase);
                        assert(st0[jb as int] == (JobStatus::Running { worker: i as usize }));
                        assert(jb != job);
                    }
                }
            }
            assert forall|j: int| 0 <= j < st1.len() implies ((#[trigger] st1[j])
                matches JobStatus::Lost { worker } ==> worker < ws1.len() && ws1[worker as int].phase
                is Poisoned) by {
                if st1[j] is Lost {
                    let w2 = st1[j]->Lost_worker;
                    assert(st0[j] == st1[j]);
                    assert(ws0[w2 as int].phase is Poisoned);
                    assert(w2 != w);
                }
            }
            lemma_not_all_terminated(p1, w as int);
        }
        job
    }

    /// The job worker `w` was running has returned: record it done and put
    /// the worker back to listening. The pool never learns whether the job
    /// "succeeded"; returning at all is completion.
    pub fn complete(&mut self, w: usize) -> (job: usize)
        requires
            old(self).wf(),
            w < old(self).workers@.len(),
            old(self).workers@[w as int].phase is Executing,
        ensures
            final(self).wf(),
            job == old(self).workers@[w as int].phase->job,
            final(self).statuses@ == old(self).statuses@.update(job as int, JobStatus::Done),
            final(self).workers@ == old(self).workers@.update(
                w as int,
                (Worker {
                    id: old(self).workers@[w as int].id,
                    phase: Phase::Listening,
                    joined: false,
                }),
            ),
            final(self).queue@ == old(self).queue@,
            final(self).sender_open == old(self).sender_open,
    {
        let wk = self.workers[w];
        let job = match wk.phase {
            Phase::Executing { job } => job,
            _ => {
                proof {
                    assert(false);
                }
                0
            },
        };
        self.statuses[job] = JobStatus::Done;
        self.workers[w] = Worker { id: wk.id, phase: Phase::Listening, joined: false };
        proof {
            self.lemma_wf_after_settle(*old(self), w, job, JobStatus::Done);
        }
        job
    }

    /// The job worker `w` was running panicked: the worker's thread dies on
    /// the spot, the job is permanently lost, and no other worker is
    /// affected. The loss surfaces again only when teardown joins `w`.
    pub fn job_panicked(&mut self, w: usize) -> (job: usize)
        requires
            old(self).wf(),
            w < old(self).workers@.len(),
            old(self).workers@[w as int].phase is Executing,
        ensures
            final(self).wf(),
            job == old(self).workers@[w as int].phase->job,
            final(self).statuses@ == old(self).statuses@.update(
                job as int,
                (JobStatus::Lost { worker: w }),
            ),
            final(self).workers@ == old(self).workers@.update(
                w as int,
                (Worker {
                    id: old(self).workers@[w as int].id,
                    phase: Phase::Poisoned,
                    joined: false,
                }),
            ),
            final(self).queue@ == old(self).queue@,
            final(self).sender_open == old(self).sender_open,
    {
        let wk = self.workers[w];
        let job = match wk.phase {
            Phase::Executing { job } => job,
            _ => {
                proof {
                    assert(false);
                }
                0
            },
        };
        self.statuses[job] = JobStatus::Lost { worker: w };
        self.workers[w] = Worker { id: wk.id, phase: Phase::Poisoned, joined: false };
        proof {
            self.lemma_wf_after_settle(*old(self), w, job, JobStatus::Lost { worker: w });
        }
        job
    }

    /// Close the producing end of the queue. This is the first half of
    /// teardown: it is what makes a listening worker's next pull report
    /// "disconnected" once the queue drains, instead of blocking forever.
    pub fn close(&mut self)
        requires
            old(self).wf(),
        ensures
            final(self).wf(),
            !final(self).sender_open,
            final(self).workers@ == old(self).workers@,
            final(self).queue@ == old(self).queue@,
            final(self).statuses@ == old(self).statuses@,
    {
        self.sender_open = false;
    }

    /// Worker `w`, listening on a closed and drained queue, observes the
    /// disconnect and exits its loop: its thread function returns.
    pub fn retire(&mut self, w: usize)
        requires
            old(self).wf(),
            !old(self).sender_open,
            old(self).queue@.len() == 0,
            w < old(self).workers@.len(),
            old(self).workers@[w as int].phase is Listening,
        ensures
            final(self).wf(),
            final(self).workers@ == old(self).workers@.update(
                w as int,
                (Worker {
                    id: old(self).workers@[w as int].id,
                    phase: Phase::Terminated,
                    joined: false,
                }),
            ),
            final(self).queue@ == old(self).queue@,
            final(self).statuses@ == old(self).statuses@,
            final(self).sender_open == old(self).sender_open,
    {
        let wk = self.workers[w];
        self.workers[w] = Worker { id: wk.id, phase: Phase::Terminated, joined: false };
        proof {
            let p0 = *old(self);
            let p1 = *self;
            assert forall|j: int| 0 <= j < p1.statuses@.len() implies ((#[trigger] p1.statuses@[j])
                matches JobStatus::Running { worker } ==> worker < p1.workers@.len()
                && p1.workers@[worker as int].phase == (Phase::Executing { job: j as usize })) by {
                assert(p1.statuses@[j] == p0.statuses@[j]);
                if p1.statuses@[j] is Running {
                    let w2 = p1.statuses@[j]->Running_worker;
                    assert(p0.workers@[w2 as int].phase == (Phase::Executing { job: j as usize }));
                    assert(w2 != w);
                }
            }
            assert forall|j: int| 0 <= j < p1.statuses@.len() implies ((#[trigger] p1.statuses@[j])
                matches JobStatus::Lost { worker } ==> worker < p1.workers@.len()
                && p1.workers@[worker as int].phase is Poisoned) by {
                assert(p1.statuses@[j] == p0.statuses@[j]);
                if p1.statuses@[j] is Lost {
                    let w2 = p1.statuses@[j]->Lost_worker;
                    assert(p0.workers@[w2 as int].phase is Poisoned);
                    assert(w2 != w);
                }
            }
        }
    }

    /// Join worker `w`, whose thread has ended. Joining a poisoned worker
    /// does not hang — the thread is already dead — but the abnormal end is
    /// reported to the caller rather than swallowed.
    pub fn join_worker(&mut self, w: usize) -> (panicked: bool)
        requires
            old(self).wf(),
            w < old(self).workers@.len(),
            old(self).resolved(w as int),
            !old(self).workers@[w as int].joined,
        ensures
            final(self).wf(),
            panicked == (old(self).workers@[w as int].phase is Poisoned),
            final(self).workers@ == old(self).workers@.update(
                w as int,
                (Worker {
                    id: old(self).workers@[w as int].id,
                    phase: old(self).workers@[w as int].phase,
                    joined: true,
                }),
            ),
            final(self).queue@ == old(self).queue@,
            final(self).statuses@ == old(self).statuses@,
            final(self).sender_open == old(self).sender_open,
    {
        let wk = self.workers[w];
        self.workers[w] = Worker { id: wk.id, phase: wk.phase, joined: true };
        let panicked = match wk.phase {
            Phase::Poisoned => true,
            _ => false,
        };
        proof {
            assert forall|i: int|
                0 <= i < self.workers@.len() && (#[trigger] self.workers@[i]).joined implies (
            self.workers@[i].phase is Terminated || self.workers@[i].phase is Poisoned) by {
                if i != w as int {
                    assert(old(self).workers@[i].joined ==> (old(self).workers@[i].phase
                        is Terminated || old(self).workers@[i].phase is Poisoned));
                }
            }
            lemma_wf_joined_only(*old(self), *self);
        }
        panicked
    }

    /// Teardown: close the producing end, then join every worker in id
    /// order. Requires every worker's thread to have ended already — a join
    /// blocks until then — and reports the ids of the workers whose threads
    /// died by panic, in id order.
    pub fn shutdown(&mut self) -> (crashed: Vec<usize>)
        requires
            old(self).wf(),
            old(self).all_resolved(),
            old(self).none_joined(),
        ensures
            final(self).wf(),
            !final(self).sender_open,
            final(self).all_joined(),
            final(self).all_resolved(),
            final(self).workers@.len() == old(self).workers@.len(),
            forall|i: int|
                0 <= i < old(self).workers@.len() ==> (#[trigger] final(self).workers@[i]).phase
                    == old(self).workers@[i].phase && final(self).workers@[i].id
                    == old(self).workers@[i].id,
            final(self).queue@ == old(self).queue@,
            final(self).statuses@ == old(self).statuses@,
            crashed@ == poisoned_ids(old(self).workers@, old(self).workers@.len() as int),
    {
        self.sender_open = false;
        let mut crashed: Vec<usize> = Vec::new();
        let n = self.workers.len();
        let mut i: usize = 0;
        while i < n
            invariant
                old(self).wf(),
                old(self).all_resolved(),
                i <= n,
                n == self.workers@.len(),
                n == old(self).workers@.len(),
                !self.sender_open,
                self.queue@ == old(self).queue@,
                self.statuses@ == old(self).statuses@,
                forall|k: int|
                    0 <= k < n ==> (#[trigger] self.workers@[k]).phase == old(
                        self,
                    ).workers@[k].phase && self.workers@[k].id == old(self).workers@[k].id,
                forall|k: int| 0 <= k < i ==> (#[trigger] self.workers@[k]).joined,
                forall|k: int| i <= k < n ==> !(#[trigger] self.workers@[k]).joined,
                crashed@ == poisoned_ids(old(self).workers@, i as int),
            decreases n - i,
        {
            let wk = self.workers[i];
            self.workers[i] = Worker { id: wk.id, phase: wk.phase, joined: true };
            match wk.phase {
                Phase::Poisoned => crashed.push(wk.id),
                _ => (),
            }
            proof {
                assert(old(self).resolved(i as int));
            }
            i += 1;
        }
        proof {
            assert forall|i: int|
                0 <= i < self.workers@.len() && (#[trigger] self.workers@[i]).joined implies (
            self.workers@[i].phase is Terminated || self.workers@[i].phase is Poisoned) by {
                assert(old(self).resolved(i));
            }
            lemma_wf_joined_only(*old(self), *self);
        }
        crashed
    }
}

/// Well-formedness is insensitive to the producing end being closed and to
/// workers of ended threads being marked joined.
proof fn lemma_wf_joined_only(p0: ThreadPool, p1: ThreadPool)
    requires
        p0.wf(),
        !p1.sender_open || p1.sender_open == p0.sender_open,
        p1.queue@ == p0.queue@,
        p1.statuses@ == p0.statuses@,
        p1.workers@.len() == p0.workers@.len(),
        forall|i: int|
            0 <= i < p1.workers@.len() ==> (#[trigger] p1.workers@[i]).phase
                == p0.workers@[i].phase && p1.workers@[i].id == p0.workers@[i].id,
        forall|i: int|
            0 <= i < p1.workers@.len() && (#[trigger] p1.workers@[i]).joined ==> (
            p1.workers@[i].phase is Terminated || p1.workers@[i].phase is Poisoned),
    ensures
        p1.wf(),
{
    assert forall|j: int| 0 <= j < p1.statuses@.len() implies ((#[trigger] p1.statuses@[j])
        matches JobStatus::Running { worker } ==> worker < p1.workers@.len() && p1.workers@[
    worker as int].phase == (Phase::Executing { job: j as usize })) by {
        if p1.statuses@[j] is Running {
            let w2 = p1.statuses@[j]->Running_worker;
            assert(p0.workers@[w2 as int].phase == (Phase::Executing { job: j as usize }));
        }
    }
    assert forall|j: int| 0 <= j < p1.statuses@.len() implies ((#[trigger] p1.statuses@[j])
        matches JobStatus::Lost { worker } ==> worker < p1.workers@.len() && p1.workers@[
    worker as int].phase is Poisoned) by {
        if p1.statuses@[j] is Lost {
            let w2 = p1.statuses@[j]->Lost_worker;
            assert(p0.workers@[w2 as int].phase is Poisoned);
        }
    }
    assert forall|i: int| 0 <= i < p1.workers@.len() implies ((#[trigger] p1.workers@[i]).phase
        matches Phase::Executing { job } ==> job < p1.statuses@.len() && p1.statuses@[job as int]
        == (JobStatus::Running { worker: i as usize })) by {
        if p1.workers@[i].phase is Executing {
            assert(p0.workers@[i].phase == p1.workers@[i].phase);
        }
    }
    if forall|i: int| 0 <= i < p1.workers@.len() ==> (#[trigger] p1.workers@[i]).phase
        is Terminated {
        assert forall|i: int| 0 <= i < p0.workers@.len() implies (#[trigger] p0.workers@[i]).phase
            is Terminated by {
            assert(p1.workers@[i].phase is Terminated);
        }
    }
}

/// A pool with a worker whose thread has not terminated cannot be in the
/// all-terminated state that forces the queue empty.
proof fn lemma_not_all_terminated(p: ThreadPool, w: int)
    requires
        0 <= w < p.workers@.len(),
        !(p.workers@[w].phase is Terminated),
    ensures
        (forall|i: int| 0 <= i < p.workers@.len() ==> (#[trigger] p.workers@[i]).phase
            is Terminated) ==> p.queue@.len() == 0,
{
    if forall|i: int| 0 <= i < p.workers@.len() ==> (#[trigger] p.workers@[i]).phase
        is Terminated {
        assert(p.workers@[w].phase is Terminated);
    }
}

impl ThreadPool {
    /// Settling a running job (to `Done` or back to the panicking worker as
    /// `Lost`) preserves well-formedness. Shared tail of `complete` and
    /// `job_panicked`.
    proof fn lemma_wf_after_settle(self, p0: ThreadPool, w: usize, job: usize, s: JobStatus)
        requires
            p0.wf(),
            w < p0.workers@.len(),
            p0.workers@[w as int].phase == (Phase::Executing { job }),
            s is Done || s == (JobStatus::Lost { worker: w }),
            self.statuses@ == p0.statuses@.update(job as int, s),
            self.workers@ == p0.workers@.update(
                w as int,
                (Worker {
                    id: p0.workers@[w as int].id,
                    phase: if s is Done {
                        Phase::Listening
                    } else {
                        Phase::Poisoned
                    },
                    joined: false,
                }),
            ),
            self.queue@ == p0.queue@,
            self.sender_open == p0.sender_open,
        ensures
            self.wf(),
    {
        let q0 = p0.queue@;
        let st0 = p0.statuses@;
        let ws0 = p0.workers@;
        let st1 = self.statuses@;
        let ws1 = self.workers@;
        assert(st0[job as int] == (JobStatus::Running { worker: w }));
        assert forall|k: int|
            0 <= k < q0.len() implies (#[trigger] q0[k]) < st1.len() && st1[q0[k] as int]
            is Queued by {
            assert(st0[q0[k] as int] is Queued);
            assert(q0[k] != job);
        }
        assert forall|j: int|
            0 <= j < st1.len() && (#[trigger] st1[j]) is Queued implies q0.contains(
            j as usize,
        ) by {
            assert(j != job as int);
            assert(st0[j] is Queued);
        }
        assert forall|j: int| 0 <= j < st1.len() implies ((#[trigger] st1[j])
            matches JobStatus::Running { worker } ==> worker < ws1.len() && ws1[worker as int].phase
            == (Phase::Executing { job: j as usize })) by {
            if st1[j] is Running {
                let w2 = st1[j]->Running_worker;
                assert(j != job as int);
                assert(st0[j] == st1[j]);
                assert(ws0[w2 as int].phase == (Phase::Executing { job: j as usize }));
                assert(p0.statuses.len() == st0.len());
                if w2 == w {
                    assert(j as usize == job);
                    assert(false);
                }
            }
        }
        assert forall|i: int| 0 <= i < ws1.len() implies ((#[trigger] ws1[i]).phase
            matches Phase::Executing { job: jb } ==> jb < st1.len() && st1[jb as int]
            == (JobStatus::Running { worker: i as usize })) by {
            if ws1[i].phase is Executing {
                let jb = ws1[i].phase->job;
                assert(i != w as int);
                assert(ws0[i].phase == ws1[i].phase);
                assert(st0[jb as int] == (JobStatus::Running { worker: i as usize }));
                assert(jb != job);
            }
        }
        assert forall|j: int| 0 <= j < st1.len() implies ((#[trigger] st1[j])
            matches JobStatus::Lost { worker } ==> worker < ws1.len() && ws1[worker as int].phase
            is Poisoned) by {
            if st1[j] is Lost {
                let w2 = st1[j]->Lost_worker;
                if j == job as int {
                    assert(w2 == w);
                } else {
                    assert(st0[j] == st1[j]);
                    assert(ws0[w2 as int].phase is Poisoned);
                    assert(w2 != w);
                }
            }
        }
        lemma_not_all_terminated(self, w as int);
    }
}

/// No job is ever delivered to two workers: if two workers are executing the
/// same job, they are the same worker.
pub proof fn lemma_exclusive_delivery(p: ThreadPool, w1: int, w2: int, job: usize)
    requires
        p.wf(),
        0 <= w1 < p.workers@.len(),
        0 <= w2 < p.workers@.len(),
        p.workers@[w1].phase == (Phase::Executing { job }),
        p.workers@[w2].phase == (Phase::Executing { job }),
    ensures
        w1 == w2,
{
    assert(p.statuses@[job as int] == (JobStatus::Running { worker: w1 as usize }));
    assert(p.statuses@[job as int] == (JobStatus::Running { worker: w2 as usize }));
}

/// Dispatch is FIFO: the head of the queue is the earliest submitted job
/// still pending.
pub proof fn lemma_dispatch_fifo(p: ThreadPool)
    requires
        p.wf(),
        p.queue@.len() > 0,
    ensures
        forall|k: int| 0 <= k < p.queue@.len() ==> p.queue@[0] <= (#[trigger] p.queue@[k]),
{
    assert forall|k: int| 0 <= k < p.queue@.len() implies p.queue@[0] <= (#[trigger] p.queue@[k]) by {
        if k > 0 {
            assert(p.queue@[0] < p.queue@[k]);
        }
    }
}

/// An empty crash report is conclusive: among the first `n` workers, no
/// thread died by panic. With [`ThreadPool::shutdown`]'s contract this makes
/// a teardown that reports nothing a proof that none of the workers was
/// poisoned, which is what [`lemma_every_job_done`] asks for.
pub proof fn lemma_empty_crash_report(ws: Seq<Worker>, n: int)
    requires
        0 <= n <= ws.len(),
        poisoned_ids(ws, n).len() == 0,
    ensures
        forall|i: int| 0 <= i < n ==> !((#[trigger] ws[i]).phase is Poisoned),
    decreases n,
{
    if n > 0 {
        assert(!(ws[n - 1].phase is Poisoned));
        lemma_empty_crash_report(ws, n - 1);
    }
}

/// Every poisoned worker is surfaced: its id stands in the crash report
/// teardown returns.
pub proof fn lemma_crash_report_contains(ws: Seq<Worker>, n: int, i: int)
    requires
        0 <= i < n <= ws.len(),
        ws[i].phase is Poisoned,
    ensures
        poisoned_ids(ws, n).contains(ws[i].id),
    decreases n,
{
    if i == n - 1 {
        let s = poisoned_ids(ws, n);
        assert(s[s.len() - 1] == ws[i].id);
    } else {
        lemma_crash_report_contains(ws, n - 1, i);
        let s = poisoned_ids(ws, n - 1);
        let k = choose|k: int| 0 <= k < s.len() && s[k] == ws[i].id;
        assert(poisoned_ids(ws, n)[k] == ws[i].id);
    }
}

/// Once teardown has joined every worker and no worker's thread died by
/// panic, every job ever submitted has run to completion, each exactly once.
pub proof fn lemma_every_job_done(p: ThreadPool)
    requires
        p.wf(),
        p.all_joined(),
        p.none_poisoned(),
    ensures
        forall|j: int| 0 <= j < p.statuses@.len() ==> (#[trigger] p.statuses@[j]) is Done,
{
    assert forall|i: int| 0 <= i < p.workers@.len() implies (#[trigger] p.workers@[i]).phase
        is Terminated by {
        assert(p.workers@[i].joined);
        assert(!(p.workers@[i].phase is Poisoned));
    }
    assert(p.queue@.len() == 0);
    assert forall|j: int| 0 <= j < p.statuses@.len() implies (#[trigger] p.statuses@[j])
        is Done by {
        if p.statuses@[j] is Queued {
            assert(p.queue@.contains(j as usize));
        }
        if p.statuses@[j] is Running {
            let worker = p.statuses@[j]->Running_worker;
            assert(p.workers@[worker as int].phase == (Phase::Executing { job: j as usize }));
        }
        if p.statuses@[j] is Lost {
            let worker = p.statuses@[j]->Lost_worker;
            assert(p.workers@[worker as int].phase is Poisoned);
        }
    }
}

} // verus!

