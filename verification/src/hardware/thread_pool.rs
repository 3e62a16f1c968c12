//! Thread pool: bounded queues of tasks, one for each worker, with stealing.
//!
//! The threads themselves are run by the caller.

use vstd::prelude::*;

verus! {

/// Maximum number of workers.
pub const MAX_WORKERS: usize = 32;

/// Maximum number of tasks that wait for a worker.
pub const MAX_TASKS_PER_QUEUE: usize = 1024;

/// Queue of a worker: slots in a ring.
#[derive(Debug)]
pub struct WorkQueue<T> {
    /// Slots.
    pub tasks: Vec<Option<T>>,
    /// Tasks taken so far.
    pub head: u64,
    /// Tasks put so far.
    pub tail: u64,
}

impl<T> WorkQueue<T> {
    /// Slot of task `i`.
    pub open spec fn slot(i: int) -> int {
        i % 1024
    }

    /// The tasks that wait are in their slots.
    pub open spec fn wf(&self) -> bool {
        &&& self.tasks@.len() == MAX_TASKS_PER_QUEUE
        &&& self.head <= self.tail <= self.head + MAX_TASKS_PER_QUEUE
        &&& forall|i: int|
            self.head <= i < self.tail ==> self.tasks@[#[trigger] Self::slot(i)] is Some
    }

    /// Tasks that wait, oldest first.
    pub open spec fn waiting(&self) -> Seq<T> {
        Seq::new(
            (self.tail - self.head) as nat,
            |j: int| self.tasks@[Self::slot(self.head + j)]->0,
        )
    }

    /// Empty queue.
    pub fn new() -> (r: Self)
        ensures
            r.wf(),
            r.waiting() == Seq::<T>::empty(),
            r.tail == 0,
    {
        let mut tasks: Vec<Option<T>> = Vec::new();
        while tasks.len() < MAX_TASKS_PER_QUEUE
            invariant
                tasks@.len() <= MAX_TASKS_PER_QUEUE,
            decreases MAX_TASKS_PER_QUEUE - tasks@.len(),
        {
            tasks.push(None);
        }
        let r = WorkQueue { tasks, head: 0, tail: 0 };
        assert(r.waiting() =~= Seq::<T>::empty());
        r
    }

    /// Put a task behind the others. Fails if the queue is full.
    pub fn push(&mut self, task: T) -> (r: bool)
        requires
            old(self).wf(),
            old(self).tail < u64::MAX,
        ensures
            final(self).wf(),
            r == (old(self).waiting().len() < MAX_TASKS_PER_QUEUE),
            r <==> old(self).tail - old(self).head < 1024,
            r ==> final(self).waiting() == old(self).waiting().push(task),
            r ==> final(self).tail == old(self).tail + 1,
            !r ==> *final(self) == *old(self),
            final(self).head == old(self).head,
    {
        if self.tail - self.head >= MAX_TASKS_PER_QUEUE as u64 {
            return false;
        }
        let idx: usize = (self.tail % 1024) as usize;
        self.tasks.set(idx, Some(task));
        proof {
            assert forall|i: int| old(self).head <= i < old(self).tail implies #[trigger] Self::slot(
                i,
            ) != idx by {}
        }
        self.tail = self.tail + 1;
        assert(Self::slot(old(self).tail as int) == idx);
        assert(self.waiting() =~= old(self).waiting().push(task));
        true
    }

    /// Take the oldest task.
    pub fn pop(&mut self) -> (r: Option<T>)
        requires
            old(self).wf(),
        ensures
            final(self).wf(),
            old(self).waiting().len() == 0 ==> r is None && *final(self) == *old(self),
            old(self).waiting().len() > 0 ==> r == Some(old(self).waiting()[0])
                && final(self).waiting() == old(self).waiting().drop_first(),
            final(self).tail == old(self).tail,
    {
        if self.head >= self.tail {
            return None;
        }
        let idx: usize = (self.head % 1024) as usize;
        assert(Self::slot(self.head as int) == idx);
        let task = self.tasks[idx].take();
        proof {
            assert forall|i: int| old(self).head < i < old(self).tail implies #[trigger] Self::slot(
                i,
            ) != idx by {}
        }
        self.head = self.head + 1;
        assert(self.waiting() =~= old(self).waiting().drop_first());
        task
    }

    /// Check if no task waits.
    pub fn is_empty(&self) -> (r: bool)
        requires
            self.wf(),
        ensures
            r == (self.waiting().len() == 0),
    {
        self.head >= self.tail
    }

    /// Number of tasks that wait.
    pub fn len(&self) -> (r: usize)
        requires
            self.wf(),
        ensures
            r == self.waiting().len(),
    {
        (self.tail - self.head) as usize
    }
}

/// Worker.
#[derive(Debug)]
pub struct Worker<T> {
    /// Number of the worker.
    pub id: usize,
    /// Tasks for it.
    pub queue: WorkQueue<T>,
    /// Its thread runs.
    pub running: bool,
    /// Tasks it has executed.
    pub tasks_executed: u64,
    /// Core it is bound to.
    pub core_id: usize,
}

impl<T> Worker<T> {
    /// Worker without tasks.
    pub fn new(id: usize, core_id: usize) -> (r: Self)
        ensures
            r.queue.wf(),
            r.queue.waiting() == Seq::<T>::empty(),
            r.queue.tail == 0,
            r.id == id,
            r.core_id == core_id,
            !r.running,
            r.tasks_executed == 0,
    {
        Worker { id, queue: WorkQueue::new(), running: false, tasks_executed: 0, core_id }
    }
}

/// Thread pool.
#[derive(Debug)]
pub struct ThreadPool<T> {
    /// Workers.
    pub workers: Vec<Worker<T>>,
    /// Number of workers in use.
    pub worker_count: usize,
    /// Tasks submitted to any worker.
    pub next_worker: usize,
    /// No more tasks are taken.
    pub shutdown: bool,
}

/// Tasks that wait for the first `n` workers.
pub open spec fn pending<T>(workers: Seq<Worker<T>>, n: nat) -> nat
    decreases n,
{
    if n == 0 {
        0
    } else {
        pending(workers, (n - 1) as nat) + workers[n - 1].queue.waiting().len()
    }
}

/// Tasks that the first `n` workers have executed.
pub open spec fn executed<T>(workers: Seq<Worker<T>>, n: nat) -> nat
    decreases n,
{
    if n == 0 {
        0
    } else {
        executed(workers, (n - 1) as nat) + workers[n - 1].tasks_executed as nat
    }
}

/// Two pools differ at most in the queue of one worker.
pub open spec fn same_but_queue<T>(a: Seq<Worker<T>>, b: Seq<Worker<T>>, w: int) -> bool {
    &&& a.len() == b.len()
    &&& forall|i: int| 0 <= i < a.len() && i != w ==> #[trigger] b[i] == a[i]
    &&& b[w] == (Worker { queue: b[w].queue, ..a[w] })
}

impl<T> ThreadPool<T> {
    /// There are workers enough, their queues are in order, and each has its number.
    pub open spec fn wf(&self) -> bool {
        &&& self.workers@.len() == MAX_WORKERS
        &&& self.worker_count <= MAX_WORKERS
        &&& forall|i: int|
            0 <= i < MAX_WORKERS ==> (#[trigger] self.workers@[i]).queue.wf()
                && self.workers@[i].id == i
    }

    /// Pool of workers on a machine with the given number of cores.
    pub fn new(worker_count: usize, num_cpus: usize) -> (r: Self)
        requires
            worker_count <= MAX_WORKERS,
            num_cpus > 0,
        ensures
            r.wf(),
            r.worker_count == worker_count,
            r.next_worker == 0,
            !r.shutdown,
            forall|i: int|
                0 <= i < MAX_WORKERS ==> {
                    let w = #[trigger] r.workers@[i];
                    &&& w.queue.waiting() == Seq::<T>::empty()
                    &&& w.queue.tail == 0
                    &&& w.core_id == i % num_cpus as int
                    &&& !w.running
                    &&& w.tasks_executed == 0
                },
    {
        let mut workers: Vec<Worker<T>> = Vec::new();
        let mut i: usize = 0;
        while i < MAX_WORKERS
            invariant
                i <= MAX_WORKERS,
                num_cpus > 0,
                workers@.len() == i,
                forall|k: int|
                    0 <= k < i ==> {
                        let w = #[trigger] workers@[k];
                        &&& w.queue.wf()
                        &&& w.id == k
                        &&& w.queue.waiting() == Seq::<T>::empty()
                        &&& w.queue.tail == 0
                        &&& w.core_id == k % num_cpus as int
                        &&& !w.running
                        &&& w.tasks_executed == 0
                    },
            decreases MAX_WORKERS - i,
        {
            workers.push(Worker::new(i, i % num_cpus));
            i = i + 1;
        }
        ThreadPool { workers, worker_count, next_worker: 0, shutdown: false }
    }

    /// Let the workers in use run. Gives the core of each.
    pub fn spawn_workers(&mut self) -> (r: Vec<usize>)
        requires
            old(self).wf(),
        ensures
            final(self).wf(),
            r@.len() == old(self).worker_count,
            forall|i: int|
                0 <= i < old(self).worker_count ==> #[trigger] r@[i] == old(self).workers@[i].core_id,
            forall|i: int|
                0 <= i < MAX_WORKERS ==> #[trigger] final(self).workers@[i] == (Worker {
                    running: i < old(self).worker_count || old(self).workers@[i].running,
                    ..old(self).workers@[i]
                }),
            *final(self) == (ThreadPool { workers: final(self).workers, ..*old(self) }),
    {
        let mut cores: Vec<usize> = Vec::new();
        let mut i: usize = 0;
        while i < self.worker_count
            invariant
                self.wf(),
                i <= self.worker_count,
                *self == (ThreadPool { workers: self.workers, ..*old(self) }),
                cores@.len() == i,
                forall|k: int| 0 <= k < i ==> #[trigger] cores@[k] == old(self).workers@[k].core_id,
                forall|k: int|
                    0 <= k < MAX_WORKERS ==> #[trigger] self.workers@[k] == (Worker {
                        running: k < i || old(self).workers@[k].running,
                        ..old(self).workers@[k]
                    }),
            decreases self.worker_count - i,
        {
            cores.push(self.workers[i].core_id);
            let worker = &mut self.workers[i];
            worker.running = true;
            i = i + 1;
        }
        cores
    }

    /// Put a task into the queue of a worker.
    fn enqueue(&mut self, w: usize, task: T) -> (r: bool)
        requires
            old(self).wf(),
            w < MAX_WORKERS,
            old(self).workers@[w as int].queue.tail < u64::MAX,
        ensures
            final(self).wf(),
            ({
                let queue = old(self).workers@[w as int].queue.waiting();
                &&& r == (queue.len() < MAX_TASKS_PER_QUEUE)
                &&& final(self).workers@[w as int].queue.waiting() == if r {
                    queue.push(task)
                } else {
                    queue
                }
                &&& final(self).workers@[w as int].queue.tail == old(self).workers@[w as int].queue.tail + (if r {
                    1int
                } else {
                    0
                })
            }),
            same_but_queue(old(self).workers@, final(self).workers@, w as int),
            *final(self) == (ThreadPool { workers: final(self).workers, ..*old(self) }),
    {
        let worker = &mut self.workers[w];
        worker.queue.push(task)
    }

    /// Worker that the next task goes to.
    pub open spec fn next(&self) -> int {
        self.next_worker as int % self.worker_count as int
    }

    /// Submit a task to the workers in turn. Fails if the pool is shut down or the
    /// queue of the worker is full.
    pub fn submit(&mut self, task: T) -> (r: bool)
        requires
            old(self).wf(),
            !old(self).shutdown ==> old(self).worker_count > 0
                && old(self).workers@[old(self).next()].queue.tail < u64::MAX,
        ensures
            final(self).wf(),
            old(self).shutdown ==> !r && *final(self) == *old(self),
            !old(self).shutdown ==> {
                let w = old(self).next();
                let queue = old(self).workers@[w].queue.waiting();
                &&& r == (queue.len() < MAX_TASKS_PER_QUEUE)
                &&& final(self).workers@[w].queue.waiting() == if r {
                    queue.push(task)
                } else {
                    queue
                }
                &&& final(self).workers@[w].queue.tail == old(self).workers@[w].queue.tail + (if r {
                    1int
                } else {
                    0
                })
                &&& same_but_queue(old(self).workers@, final(self).workers@, w)
                &&& *final(self) == (ThreadPool {
                    workers: final(self).workers,
                    next_worker: old(self).next_worker.wrapping_add(1),
                    ..*old(self)
                })
            },
    {
        if self.shutdown {
            return false;
        }
        let w: usize = self.next_worker % self.worker_count;
        self.next_worker = self.next_worker.wrapping_add(1);
        self.enqueue(w, task)
    }

    /// Submit a task to a worker. Fails if there is no such worker or its queue is
    /// full.
    pub fn submit_to(&mut self, worker_id: usize, task: T) -> (r: bool)
        requires
            old(self).wf(),
            worker_id < old(self).worker_count ==> old(self).workers@[worker_id as int].queue.tail < u64::MAX,
        ensures
            final(self).wf(),
            worker_id >= old(self).worker_count ==> !r && *final(self) == *old(self),
            worker_id < old(self).worker_count ==> {
                let w = worker_id as int;
                let queue = old(self).workers@[w].queue.waiting();
                &&& r == (queue.len() < MAX_TASKS_PER_QUEUE)
                &&& final(self).workers@[w].queue.waiting() == if r {
                    queue.push(task)
                } else {
                    queue
                }
                &&& final(self).workers@[w].queue.tail == old(self).workers@[w].queue.tail + (if r {
                    1int
                } else {
                    0
                })
                &&& same_but_queue(old(self).workers@, final(self).workers@, w)
                &&& *final(self) == (ThreadPool { workers: final(self).workers, ..*old(self) })
            },
    {
        if worker_id >= self.worker_count {
            return false;
        }
        self.enqueue(worker_id, task)
    }

    /// Worker whose queue a worker takes from: its own, or else the first of those
    /// before it that has a task; `None` if there is no task.
    pub open spec fn source(&self, worker_id: int, source: Option<int>) -> bool {
        match source {
            Some(s) => {
                &&& 0 <= s <= worker_id
                &&& self.workers@[s].queue.waiting().len() > 0
                &&& s < worker_id ==> self.workers@[worker_id].queue.waiting().len() == 0
                &&& s < worker_id ==> forall|j: int|
                    0 <= j < s ==> (#[trigger] self.workers@[j]).queue.waiting().len() == 0
            },
            None => forall|j: int|
                0 <= j <= worker_id ==> (#[trigger] self.workers@[j]).queue.waiting().len() == 0,
        }
    }

    /// A worker takes its next task: the oldest of its own, or else one stolen from
    /// the workers before it. The task counts as executed by the worker.
    pub fn take_task(&mut self, worker_id: usize) -> (r: Option<T>)
        requires
            old(self).wf(),
            worker_id < MAX_WORKERS,
        ensures
            final(self).wf(),
            match r {
                Some(task) => exists|s: int| #[trigger]
                    old(self).source(worker_id as int, Some(s)) && {
                        &&& task == old(self).workers@[s].queue.waiting()[0]
                        &&& final(self).workers@[s].queue.waiting() == old(self).workers@[s].queue.waiting().drop_first()
                    } && forall|i: int|
                        0 <= i < MAX_WORKERS && i != s ==> (#[trigger] final(self).workers@[i]).queue
                            == old(self).workers@[i].queue,
                None => old(self).source(worker_id as int, None) && forall|i: int|
                    0 <= i < MAX_WORKERS ==> (#[trigger] final(self).workers@[i]).queue == old(self).workers@[i].queue,
            },
            forall|i: int|
                0 <= i < MAX_WORKERS ==> #[trigger] final(self).workers@[i] == (Worker {
                    queue: final(self).workers@[i].queue,
                    tasks_executed: if i == worker_id && r is Some {
                        old(self).workers@[i].tasks_executed.wrapping_add(1)
                    } else {
                        old(self).workers@[i].tasks_executed
                    },
                    ..old(self).workers@[i]
                }),
            *final(self) == (ThreadPool { workers: final(self).workers, ..*old(self) }),
    {
        let own = self.workers[worker_id].queue.is_empty();
        let mut from: usize = worker_id;
        if own {
            from = 0;
            while from < worker_id && self.workers[from].queue.is_empty()
                invariant
                    self.wf(),
                    *self == *old(self),
                    from <= worker_id < MAX_WORKERS,
                    forall|j: int|
                        0 <= j < from ==> (#[trigger] self.workers@[j]).queue.waiting().len() == 0,
                decreases worker_id - from,
            {
                from = from + 1;
            }
            if from == worker_id {
                return None;
            }
        }
        assert(old(self).source(worker_id as int, Some(from as int)));
        let source = &mut self.workers[from];
        let task = source.queue.pop();
        let worker = &mut self.workers[worker_id];
        worker.tasks_executed = worker.tasks_executed.wrapping_add(1);
        task
    }

    /// Number of tasks that wait.
    pub fn pending_tasks(&self) -> (r: usize)
        requires
            self.wf(),
        ensures
            r == pending(self.workers@, self.worker_count as nat),
    {
        let mut total: usize = 0;
        let mut i: usize = 0;
        while i < self.worker_count
            invariant
                self.wf(),
                i <= self.worker_count,
                total == pending(self.workers@, i as nat),
                total <= i * 1024,
            decreases self.worker_count - i,
        {
            assert(self.workers@[i as int].queue.wf());
            total = total + self.workers[i].queue.len();
            i = i + 1;
        }
        total
    }

    /// Number of tasks executed.
    pub fn total_executed(&self) -> (r: u128)
        requires
            self.wf(),
        ensures
            r == executed(self.workers@, self.worker_count as nat),
    {
        let mut total: u128 = 0;
        let mut i: usize = 0;
        while i < self.worker_count
            invariant
                self.wf(),
                i <= self.worker_count,
                total == executed(self.workers@, i as nat),
                total <= i * u64::MAX,
            decreases self.worker_count - i,
        {
            total = total + self.workers[i].tasks_executed as u128;
            i = i + 1;
        }
        total
    }

    /// Shut the pool down: no more tasks are taken, and the workers in use stop.
    pub fn shutdown(&mut self)
        requires
            old(self).wf(),
        ensures
            final(self).wf(),
            forall|i: int|
                0 <= i < MAX_WORKERS ==> #[trigger] final(self).workers@[i] == (Worker {
                    running: i >= old(self).worker_count && old(self).workers@[i].running,
                    ..old(self).workers@[i]
                }),
            *final(self) == (ThreadPool {
                workers: final(self).workers,
                shutdown: true,
                ..*old(self)
            }),
    {
        self.shutdown = true;
        let mut i: usize = 0;
        while i < self.worker_count
            invariant
                self.wf(),
                i <= self.worker_count,
                *self == (ThreadPool { workers: self.workers, shutdown: true, ..*old(self) }),
                forall|k: int|
                    0 <= k < MAX_WORKERS ==> #[trigger] self.workers@[k] == (Worker {
                        running: k >= i && old(self).workers@[k].running,
                        ..old(self).workers@[k]
                    }),
            decreases self.worker_count - i,
        {
            let worker = &mut self.workers[i];
            worker.running = false;
            i = i + 1;
        }
    }

    /// Check if the pool is shut down.
    pub fn is_shutdown(&self) -> (r: bool)
        ensures
            r == self.shutdown,
    {
        self.shutdown
    }
}

/// A task that is put into the queue of a worker adds one to the tasks that wait.
pub proof fn lemma_submit_adds_one<T>(a: Seq<Worker<T>>, b: Seq<Worker<T>>, w: int, task: T, n: nat)
    requires
        same_but_queue(a, b, w),
        0 <= w < a.len(),
        n <= a.len(),
        b[w].queue.waiting() == a[w].queue.waiting().push(task),
    ensures
        pending(b, n) == pending(a, n) + if w < n {
            1int
        } else {
            0
        },
    decreases n,
{
    if n > 0 {
        lemma_submit_adds_one(a, b, w, task, (n - 1) as nat);
    }
}

/// Submitted tasks go to the workers in turn.
pub proof fn lemma_round_robin<T>(pool: ThreadPool<T>)
    requires
        pool.worker_count > 0,
        pool.next_worker < usize::MAX,
    ensures
        ({
            let later = ThreadPool { next_worker: (pool.next_worker + 1) as usize, ..pool };
            later.next() == if pool.next() + 1 == pool.worker_count {
                0
            } else {
                pool.next() + 1
            }
        }),
{
    let n = pool.worker_count as int;
    let q = pool.next_worker as int / n;
    let m = pool.next_worker as int % n;
    assert(pool.next_worker == n * q + m) by {
        vstd::arithmetic::div_mod::lemma_fundamental_div_mod(pool.next_worker as int, n);
    }
    if m + 1 == n {
        assert(pool.next_worker + 1 == (q + 1) * n + 0) by (nonlinear_arith)
            requires
                pool.next_worker == n * q + m,
                m + 1 == n,
        ;
        vstd::arithmetic::div_mod::lemma_fundamental_div_mod_converse(
            pool.next_worker + 1,
            n,
            q + 1,
            0,
        );
    } else {
        assert(pool.next_worker + 1 == q * n + (m + 1)) by (nonlinear_arith)
            requires
                pool.next_worker == n * q + m,
        ;
        vstd::arithmetic::div_mod::lemma_fundamental_div_mod_converse(
            pool.next_worker + 1,
            n,
            q,
            m + 1,
        );
    }
}

/// Turns go round the workers that are in use, from the first on.
pub proof fn lemma_turn_is_a_worker<T>(pool: ThreadPool<T>)
    requires
        pool.worker_count > 0,
    ensures
        0 <= pool.next() < pool.worker_count,
        pool.next_worker < pool.worker_count ==> pool.next() == pool.next_worker,
{
    let (n, m) = (pool.next_worker as nat, pool.worker_count as nat);
    vstd::arithmetic::div_mod::lemma_mod_bound(n as int, m as int);
    if n < m {
        vstd::arithmetic::div_mod::lemma_small_mod(n, m);
    }
}

/// A worker takes from its own queue while that holds anything. Then it takes from the
/// first of the workers before it whose queue does. It finds nothing only where all of
/// them are empty.
pub proof fn lemma_own_queue_first<T>(pool: ThreadPool<T>, worker_id: int, s: int, j: int)
    requires
        0 <= worker_id < pool.workers@.len(),
        0 <= s <= worker_id,
        0 <= j <= worker_id,
    ensures
        pool.source(worker_id, Some(s)) ==> pool.workers@[s].queue.waiting().len() > 0,
        pool.workers@[worker_id].queue.waiting().len() > 0 ==> (pool.source(worker_id, Some(s))
            <==> s == worker_id),
        pool.source(worker_id, Some(s)) && j < s && s < worker_id
            ==> pool.workers@[j].queue.waiting().len() == 0,
        pool.source(worker_id, None) ==> pool.workers@[j].queue.waiting().len() == 0,
        pool.workers@[worker_id].queue.waiting().len() == 0 && s < worker_id
            && pool.workers@[s].queue.waiting().len() > 0 ==> !pool.source(worker_id, None)
            && !pool.source(worker_id, Some(worker_id)),
{
}

/// What waits and what has been done are added up over the workers in use.
pub proof fn lemma_totals_add_up<T>(workers: Seq<Worker<T>>, n: nat)
    requires
        n < workers.len(),
        workers[n as int].queue.wf(),
    ensures
        pending(workers, 0) == 0,
        executed(workers, 0) == 0,
        pending(workers, n + 1) == pending(workers, n) + (workers[n as int].queue.tail
            - workers[n as int].queue.head),
        executed(workers, n + 1) == executed(workers, n) + workers[n as int].tasks_executed,
{
}

/// Tasks wait in the order in which they came, from the head of the queue on, each in the
/// place that its number leaves over from a thousand and twenty-four.
pub proof fn lemma_waiting_from_head<T>(queue: WorkQueue<T>, j: int)
    requires
        queue.wf(),
        0 <= j < queue.tail - queue.head,
    ensures
        queue.waiting().len() == queue.tail - queue.head,
        queue.tasks@[(queue.head + j) % 1024] == Some(queue.waiting()[j]),
{
    assert(queue.tasks@[WorkQueue::<T>::slot(queue.head + j)] is Some);
}

} // verus!
