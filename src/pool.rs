//! The shared job queue of a fixed-size worker pool.
//!
//! A `JobQueue` holds the pending messages (jobs and terminate markers) and the
//! state of every worker. Threads, locking and the running of jobs live with the
//! caller; this type decides who receives what, and its model (`QueueModel`)
//! states the protocol: every job is handed to at most one worker, and after
//! `shutdown` no live worker can starve.
use std::collections::VecDeque;
use vstd::prelude::*;

verus! {

/// What a worker is doing, as the queue sees it.
#[derive(Clone, Copy, PartialEq, Eq, Debug, Structural)]
pub enum WorkerState {
    /// Waiting for the next message.
    Idle,
    /// Running the job with this ticket.
    Busy(u64),
    /// Received a terminate marker; its thread has ended or is ending.
    Exited,
    /// Its job failed; its thread ended without a terminate marker.
    Failed,
}

impl WorkerState {
    /// Whether the worker's thread is still running.
    pub open spec fn is_live(self) -> bool {
        self is Idle || self is Busy
    }
}

/// A pending queue entry as the model sees it: a job's ticket, or a terminate marker.
pub enum Pending {
    Task(u64),
    Stop,
}

/// The number of terminate markers in `p`.
pub open spec fn count_stops(p: Seq<Pending>) -> nat
    decreases p.len(),
{
    if p.len() == 0 {
        0
    } else {
        (if p[0] is Stop { 1nat } else { 0nat }) + count_stops(p.drop_first())
    }
}

/// The number of workers in `ws` that have exited.
pub open spec fn count_exited(ws: Seq<WorkerState>) -> nat
    decreases ws.len(),
{
    if ws.len() == 0 {
        0
    } else {
        (if ws[0] is Exited { 1nat } else { 0nat }) + count_exited(ws.drop_first())
    }
}

/// The abstract state of a job queue.
pub struct QueueModel {
    /// Entries not yet taken, front first.
    pub pending: Seq<Pending>,
    /// One state per worker, by worker id.
    pub workers: Seq<WorkerState>,
    /// How many jobs were accepted; the tickets handed out are `0..submitted`.
    pub submitted: nat,
    /// Whether teardown has begun.
    pub closing: bool,
    /// The worker that each taken ticket went to.
    pub delivered: Map<u64, usize>,
}

impl QueueModel {
    /// A fresh queue for `n` idle workers.
    pub open spec fn initial(n: nat) -> QueueModel {
        QueueModel {
            pending: Seq::empty(),
            workers: Seq::new(n, |i: int| WorkerState::Idle),
            submitted: 0,
            closing: false,
            delivered: Map::empty(),
        }
    }

    /// Whether some worker's thread is still running.
    pub open spec fn has_live_worker(self) -> bool {
        exists|i: int| 0 <= i < self.workers.len() && (#[trigger] self.workers[i]).is_live()
    }

    /// A job is accepted while teardown has not begun and some worker is alive.
    pub open spec fn accepts(self) -> bool {
        !self.closing && self.has_live_worker()
    }

    /// A job is accepted: it gets the next ticket and goes to the back.
    pub open spec fn after_submit(self) -> QueueModel {
        QueueModel {
            pending: self.pending.push(Pending::Task(self.submitted as u64)),
            submitted: self.submitted + 1,
            ..self
        }
    }

    pub open spec fn is_idle(self, w: int) -> bool {
        0 <= w < self.workers.len() && self.workers[w] is Idle
    }

    pub open spec fn is_busy(self, w: int) -> bool {
        0 <= w < self.workers.len() && self.workers[w] is Busy
    }

    /// Worker `w` takes the front entry.
    pub open spec fn after_take(self, w: int) -> QueueModel {
        match self.pending[0] {
            Pending::Task(t) => QueueModel {
                pending: self.pending.drop_first(),
                workers: self.workers.update(w, WorkerState::Busy(t)),
                delivered: self.delivered.insert(t, w as usize),
                ..self
            },
            Pending::Stop => QueueModel {
                pending: self.pending.drop_first(),
                workers: self.workers.update(w, WorkerState::Exited),
                ..self
            },
        }
    }

    /// Worker `w` is done with its job and waits again.
    pub open spec fn after_finish(self, w: int) -> QueueModel {
        QueueModel { workers: self.workers.update(w, WorkerState::Idle), ..self }
    }

    /// The job of worker `w` failed, ending its thread.
    pub open spec fn after_fail(self, w: int) -> QueueModel {
        QueueModel { workers: self.workers.update(w, WorkerState::Failed), ..self }
    }

    /// Teardown: one terminate marker per worker, behind every pending job.
    pub open spec fn after_shutdown(self) -> QueueModel {
        QueueModel {
            pending: self.pending + Seq::new(self.workers.len(), |i: int| Pending::Stop),
            closing: true,
            ..self
        }
    }

    /// Every ticket below `submitted` has been taken or is pending, never both;
    /// pending tickets are in increasing order.
    pub open spec fn tickets_wf(self) -> bool {
        &&& forall|t: u64| #[trigger] self.delivered.contains_key(t) ==> (t as nat) < self.submitted
        &&& forall|i: int|
            0 <= i < self.pending.len() && #[trigger] self.pending[i] is Task ==> {
                let t = self.pending[i]->Task_0;
                &&& (t as nat) < self.submitted
                &&& !self.delivered.contains_key(t)
            }
        &&& forall|i: int, j: int|
            0 <= i < j < self.pending.len() && #[trigger] self.pending[i] is Task
                && #[trigger] self.pending[j] is Task ==> self.pending[i]->Task_0
                < self.pending[j]->Task_0
        &&& forall|t: u64|
            (t as nat) < self.submitted ==> #[trigger] self.delivered.contains_key(t) || exists|
                i: int,
            |
                0 <= i < self.pending.len() && #[trigger] self.pending[i] == Pending::Task(t)
    }

    /// Terminate markers exist only once teardown has begun, after every job,
    /// and there is exactly one for each worker that has not yet exited.
    pub open spec fn markers_wf(self) -> bool {
        if self.closing {
            &&& forall|i: int, j: int|
                0 <= i < j < self.pending.len() && #[trigger] self.pending[i] is Stop
                    ==> #[trigger] self.pending[j] is Stop
            &&& count_stops(self.pending) + count_exited(self.workers) == self.workers.len()
        } else {
            &&& forall|i: int| 0 <= i < self.pending.len() ==> !(#[trigger] self.pending[i] is Stop)
            &&& forall|i: int| 0 <= i < self.workers.len() ==> !(#[trigger] self.workers[i] is Exited)
        }
    }

    /// The queue's invariant, kept by every operation.
    pub open spec fn wf(self) -> bool {
        &&& self.workers.len() > 0
        &&& self.tickets_wf()
        &&& self.markers_wf()
    }
}


proof fn lemma_count_stops_append(a: Seq<Pending>, b: Seq<Pending>)
    ensures
        count_stops(a + b) == count_stops(a) + count_stops(b),
    decreases a.len(),
{
    if a.len() == 0 {
        assert(a + b =~= b);
    } else {
        assert((a + b).drop_first() =~= a.drop_first() + b);
        lemma_count_stops_append(a.drop_first(), b);
    }
}

proof fn lemma_count_stops_all(n: nat)
    ensures
        count_stops(Seq::new(n, |i: int| Pending::Stop)) == n,
    decreases n,
{
    if n > 0 {
        assert(Seq::new(n, |i: int| Pending::Stop).drop_first() =~= Seq::new(
            (n - 1) as nat,
            |i: int| Pending::Stop,
        ));
        lemma_count_stops_all((n - 1) as nat);
    }
}

proof fn lemma_count_stops_none(p: Seq<Pending>)
    requires
        forall|i: int| 0 <= i < p.len() ==> !(#[trigger] p[i] is Stop),
    ensures
        count_stops(p) == 0,
    decreases p.len(),
{
    if p.len() > 0 {
        assert(!(p[0] is Stop));
        assert forall|i: int| 0 <= i < p.drop_first().len() implies !(
        #[trigger] p.drop_first()[i] is Stop) by {
            assert(p.drop_first()[i] == p[i + 1]);
        }
        lemma_count_stops_none(p.drop_first());
    }
}

proof fn lemma_count_stops_positive(p: Seq<Pending>, i: int)
    requires
        0 <= i < p.len(),
        p[i] is Stop,
    ensures
        count_stops(p) > 0,
    decreases p.len(),
{
    if i > 0 {
        assert(p.drop_first()[i - 1] == p[i]);
        lemma_count_stops_positive(p.drop_first(), i - 1);
    }
}

proof fn lemma_count_exited_update(ws: Seq<WorkerState>, w: int, s: WorkerState)
    requires
        0 <= w < ws.len(),
    ensures
        count_exited(ws.update(w, s)) + (if ws[w] is Exited { 1int } else { 0int }) == count_exited(
            ws,
        ) + (if s is Exited { 1int } else { 0int }),
    decreases ws.len(),
{
    if w > 0 {
        assert(ws.update(w, s).drop_first() =~= ws.drop_first().update(w - 1, s));
        lemma_count_exited_update(ws.drop_first(), w - 1, s);
    } else {
        assert(ws.update(w, s).drop_first() =~= ws.drop_first());
    }
}

proof fn lemma_count_exited_bounds(ws: Seq<WorkerState>)
    ensures
        count_exited(ws) <= ws.len(),
        count_exited(ws) == ws.len() ==> forall|i: int|
            0 <= i < ws.len() ==> #[trigger] ws[i] is Exited,
        (forall|i: int| 0 <= i < ws.len() ==> !(#[trigger] ws[i] is Exited)) ==> count_exited(ws)
            == 0,
    decreases ws.len(),
{
    if ws.len() > 0 {
        lemma_count_exited_bounds(ws.drop_first());
        if count_exited(ws) == ws.len() {
            assert forall|i: int| 0 <= i < ws.len() implies #[trigger] ws[i] is Exited by {
                if i > 0 {
                    assert(ws.drop_first()[i - 1] == ws[i]);
                }
            }
        }
        if forall|i: int| 0 <= i < ws.len() ==> !(#[trigger] ws[i] is Exited) {
            assert forall|i: int| 0 <= i < ws.drop_first().len() implies !(
            #[trigger] ws.drop_first()[i] is Exited) by {
                assert(ws.drop_first()[i] == ws[i + 1]);
            }
            assert(!(ws[0] is Exited));
        }
    }
}


proof fn lemma_initial_wf(n: nat)
    requires
        n > 0,
    ensures
        QueueModel::initial(n).wf(),
{
    let m = QueueModel::initial(n);
    assert forall|t: u64| (t as nat) < m.submitted implies #[trigger] m.delivered.contains_key(t)
        || exists|i: int| 0 <= i < m.pending.len() && #[trigger] m.pending[i] == Pending::Task(t) by {}
}

proof fn lemma_submit_wf(m: QueueModel)
    requires
        m.wf(),
        m.accepts(),
        m.submitted < u64::MAX,
    ensures
        m.after_submit().wf(),
{
    let m2 = m.after_submit();
    let t = m.submitted as u64;
    assert forall|i: int|
        0 <= i < m2.pending.len() && #[trigger] m2.pending[i] is Task implies {
        let u = m2.pending[i]->Task_0;
        &&& (u as nat) < m2.submitted
        &&& !m2.delivered.contains_key(u)
    } by {
        if i < m.pending.len() {
            assert(m2.pending[i] == m.pending[i]);
        }
    }
    assert forall|i: int, j: int|
        0 <= i < j < m2.pending.len() && #[trigger] m2.pending[i] is Task
            && #[trigger] m2.pending[j] is Task implies m2.pending[i]->Task_0
        < m2.pending[j]->Task_0 by {
        assert(m2.pending[i] == m.pending[i]);
        if j < m.pending.len() {
            assert(m2.pending[j] == m.pending[j]);
        }
    }
    assert forall|u: u64| (u as nat) < m2.submitted implies #[trigger] m2.delivered.contains_key(u)
        || exists|i: int| 0 <= i < m2.pending.len() && #[trigger] m2.pending[i] == Pending::Task(u) by {
        if u == t {
            assert(m2.pending[m.pending.len() as int] == Pending::Task(u));
        } else if !m.delivered.contains_key(u) {
            let i = choose|i: int| 0 <= i < m.pending.len() && #[trigger] m.pending[i] == Pending::Task(u);
            assert(m2.pending[i] == Pending::Task(u));
        }
    }
    assert forall|i: int| 0 <= i < m2.pending.len() implies !(#[trigger] m2.pending[i] is Stop) by {
        if i < m.pending.len() {
            assert(m2.pending[i] == m.pending[i]);
        }
    }
}

proof fn lemma_take_wf(m: QueueModel, w: int)
    requires
        m.wf(),
        m.is_idle(w),
        m.pending.len() > 0,
    ensures
        m.after_take(w).wf(),
{
    let m2 = m.after_take(w);
    assert forall|i: int| 0 <= i < m2.pending.len() implies #[trigger] m2.pending[i] == m.pending[i + 1] by {}
    lemma_count_exited_update(m.workers, w, m2.workers[w]);
    match m.pending[0] {
        Pending::Task(t) => {
            assert forall|i: int|
                0 <= i < m2.pending.len() && #[trigger] m2.pending[i] is Task implies {
                let u = m2.pending[i]->Task_0;
                &&& (u as nat) < m2.submitted
                &&& !m2.delivered.contains_key(u)
            } by {
                assert(m.pending[i + 1] is Task);
                assert(m.pending[0]->Task_0 < m.pending[i + 1]->Task_0);
            }
            assert forall|i: int, j: int|
                0 <= i < j < m2.pending.len() && #[trigger] m2.pending[i] is Task
                    && #[trigger] m2.pending[j] is Task implies m2.pending[i]->Task_0
                < m2.pending[j]->Task_0 by {
                assert(m.pending[i + 1] is Task);
                assert(m.pending[j + 1] is Task);
            }
            assert forall|u: u64| (u as nat) < m2.submitted implies #[trigger] m2.delivered.contains_key(u)
                || exists|i: int| 0 <= i < m2.pending.len() && #[trigger] m2.pending[i] == Pending::Task(u) by {
                if u != t && !m.delivered.contains_key(u) {
                    let i = choose|i: int| 0 <= i < m.pending.len() && #[trigger] m.pending[i] == Pending::Task(u);
                    assert(i != 0);
                    assert(m2.pending[i - 1] == Pending::Task(u));
                }
            }
            if m.closing {
                assert forall|i: int, j: int|
                    0 <= i < j < m2.pending.len() && #[trigger] m2.pending[i] is Stop
                        implies #[trigger] m2.pending[j] is Stop by {
                    assert(m.pending[i + 1] is Stop);
                }
                assert(count_stops(m.pending) == count_stops(m2.pending));
            } else {
                assert forall|i: int| 0 <= i < m2.workers.len() implies !(#[trigger] m2.workers[i] is Exited) by {
                    if i != w {
                        assert(m2.workers[i] == m.workers[i]);
                    }
                }
                assert forall|i: int| 0 <= i < m2.pending.len() implies !(#[trigger] m2.pending[i] is Stop) by {
                    assert(!(m.pending[i + 1] is Stop));
                }
            }
        },
        Pending::Stop => {
            assert forall|i: int|
                0 <= i < m2.pending.len() && #[trigger] m2.pending[i] is Task implies {
                let u = m2.pending[i]->Task_0;
                &&& (u as nat) < m2.submitted
                &&& !m2.delivered.contains_key(u)
            } by {
                assert(m.pending[i + 1] is Task);
            }
            assert forall|i: int, j: int|
                0 <= i < j < m2.pending.len() && #[trigger] m2.pending[i] is Task
                    && #[trigger] m2.pending[j] is Task implies m2.pending[i]->Task_0
                < m2.pending[j]->Task_0 by {
                assert(m.pending[i + 1] is Task);
                assert(m.pending[j + 1] is Task);
            }
            assert forall|u: u64| (u as nat) < m2.submitted implies #[trigger] m2.delivered.contains_key(u)
                || exists|i: int| 0 <= i < m2.pending.len() && #[trigger] m2.pending[i] == Pending::Task(u) by {
                if !m.delivered.contains_key(u) {
                    let i = choose|i: int| 0 <= i < m.pending.len() && #[trigger] m.pending[i] == Pending::Task(u);
                    assert(i != 0);
                    assert(m2.pending[i - 1] == Pending::Task(u));
                }
            }
            assert(m.closing);
            assert forall|i: int, j: int|
                0 <= i < j < m2.pending.len() && #[trigger] m2.pending[i] is Stop
                    implies #[trigger] m2.pending[j] is Stop by {
                assert(m.pending[i + 1] is Stop);
            }
        },
    }
}

proof fn lemma_release_wf(m: QueueModel, w: int, s: WorkerState)
    requires
        m.wf(),
        m.is_busy(w),
        s is Idle || s is Failed,
    ensures
        (QueueModel { workers: m.workers.update(w, s), ..m }).wf(),
{
    let m2 = QueueModel { workers: m.workers.update(w, s), ..m };
    lemma_count_exited_update(m.workers, w, s);
    if !m.closing {
        assert forall|i: int| 0 <= i < m2.workers.len() implies !(#[trigger] m2.workers[i] is Exited) by {
            if i != w {
                assert(m2.workers[i] == m.workers[i]);
            }
        }
    }
}

proof fn lemma_shutdown_wf(m: QueueModel)
    requires
        m.wf(),
        !m.closing,
    ensures
        m.after_shutdown().wf(),
{
    let m2 = m.after_shutdown();
    let stops = Seq::new(m.workers.len(), |i: int| Pending::Stop);
    assert forall|i: int| 0 <= i < m.pending.len() implies #[trigger] m2.pending[i] == m.pending[i] by {}
    assert forall|i: int| m.pending.len() <= i < m2.pending.len() implies #[trigger] m2.pending[i] is Stop by {}
    assert forall|i: int|
        0 <= i < m2.pending.len() && #[trigger] m2.pending[i] is Task implies {
        let u = m2.pending[i]->Task_0;
        &&& (u as nat) < m2.submitted
        &&& !m2.delivered.contains_key(u)
    } by {
        assert(i < m.pending.len());
    }
    assert forall|i: int, j: int|
        0 <= i < j < m2.pending.len() && #[trigger] m2.pending[i] is Task
            && #[trigger] m2.pending[j] is Task implies m2.pending[i]->Task_0
        < m2.pending[j]->Task_0 by {
        assert(j < m.pending.len());
    }
    assert forall|u: u64| (u as nat) < m2.submitted implies #[trigger] m2.delivered.contains_key(u)
        || exists|i: int| 0 <= i < m2.pending.len() && #[trigger] m2.pending[i] == Pending::Task(u) by {
        if !m.delivered.contains_key(u) {
            let i = choose|i: int| 0 <= i < m.pending.len() && #[trigger] m.pending[i] == Pending::Task(u);
            assert(m2.pending[i] == Pending::Task(u));
        }
    }
    assert forall|i: int, j: int|
        0 <= i < j < m2.pending.len() && #[trigger] m2.pending[i] is Stop
            implies #[trigger] m2.pending[j] is Stop by {
        if i < m.pending.len() {
            assert(!(m.pending[i] is Stop));
        }
    }
    lemma_count_stops_append(m.pending, stops);
    lemma_count_stops_none(m.pending);
    lemma_count_stops_all(m.workers.len());
    lemma_count_exited_bounds(m.workers);
}


/// Teardown adds exactly one terminate marker per worker: before it the queue
/// holds none, after it as many as there are workers.
pub proof fn lemma_shutdown_enqueues_one_marker_per_worker(m: QueueModel)
    requires
        m.wf(),
        !m.closing,
    ensures
        count_stops(m.pending) == 0,
        count_stops(m.after_shutdown().pending) == m.workers.len(),
        m.after_shutdown().wf(),
{
    lemma_count_stops_none(m.pending);
    lemma_count_stops_append(m.pending, Seq::new(m.workers.len(), |i: int| Pending::Stop));
    lemma_count_stops_all(m.workers.len());
    lemma_shutdown_wf(m);
}

/// Once teardown has begun, a worker that waits for a message always finds one,
/// so no live worker is left waiting and joining every worker cannot hang on an
/// idle one.
pub proof fn lemma_idle_worker_finds_message(m: QueueModel, w: int)
    requires
        m.wf(),
        m.closing,
        m.is_idle(w),
    ensures
        m.pending.len() > 0,
{
    lemma_count_exited_bounds(m.workers);
    assert(!(m.workers[w] is Exited));
    assert(count_stops(m.pending) > 0);
}

/// Once teardown has begun and the queue is empty, every worker has exited and
/// the jobs handed out are exactly the accepted ones, each to one worker.
pub proof fn lemma_drained_queue(m: QueueModel)
    requires
        m.wf(),
        m.closing,
        m.pending.len() == 0,
    ensures
        forall|i: int| 0 <= i < m.workers.len() ==> #[trigger] m.workers[i] is Exited,
        forall|t: u64| (t as nat) < m.submitted ==> #[trigger] m.delivered.contains_key(t),
        m.delivered.dom() == Set::new(|t: u64| (t as nat) < m.submitted),
{
    lemma_count_exited_bounds(m.workers);
    assert forall|t: u64| (t as nat) < m.submitted implies #[trigger] m.delivered.contains_key(t) by {
        if !m.delivered.contains_key(t) {
            let i = choose|i: int| 0 <= i < m.pending.len() && #[trigger] m.pending[i] == Pending::Task(t);
        }
    }
    assert(m.delivered.dom() =~= Set::new(|t: u64| (t as nat) < m.submitted));
}

/// A job is handed out at most once: the job at the front has not been handed
/// out before, and taking it keeps every earlier delivery as it was.
pub proof fn lemma_take_hands_out_once(m: QueueModel, w: int)
    requires
        m.wf(),
        m.is_idle(w),
        m.pending.len() > 0,
    ensures
        m.pending[0] is Task ==> !m.delivered.contains_key(m.pending[0]->Task_0),
        m.pending[0] is Task ==> m.after_take(w).delivered[m.pending[0]->Task_0] == w as usize,
        m.delivered.submap_of(m.after_take(w).delivered),
        m.after_take(w).wf(),
{
    lemma_take_wf(m, w);
}

/// The number of workers in `ws` that are running a job.
pub open spec fn count_busy(ws: Seq<WorkerState>) -> nat
    decreases ws.len(),
{
    if ws.len() == 0 {
        0
    } else {
        (if ws[0] is Busy { 1nat } else { 0nat }) + count_busy(ws.drop_first())
    }
}

proof fn lemma_count_busy_update(ws: Seq<WorkerState>, w: int, s: WorkerState)
    requires
        0 <= w < ws.len(),
    ensures
        count_busy(ws.update(w, s)) + (if ws[w] is Busy { 1int } else { 0int }) == count_busy(ws)
            + (if s is Busy { 1int } else { 0int }),
    decreases ws.len(),
{
    if w > 0 {
        assert(ws.update(w, s).drop_first() =~= ws.drop_first().update(w - 1, s));
        lemma_count_busy_update(ws.drop_first(), w - 1, s);
    } else {
        assert(ws.update(w, s).drop_first() =~= ws.drop_first());
    }
}

impl QueueModel {
    /// An upper bound on the steps left: each pending entry is taken and, if it
    /// is a job, finished; each running job is finished.
    pub open spec fn drain_measure(self) -> nat {
        2 * self.pending.len() + count_busy(self.workers)
    }
}

/// Teardown ends in a bounded number of steps: once it has begun, every step a
/// worker can make (taking an entry, finishing or failing its job) lowers
/// `drain_measure`, no job is accepted any more, and when the measure reaches
/// zero every worker has exited.
pub proof fn lemma_teardown_terminates(m: QueueModel, w: int)
    requires
        m.wf(),
        m.closing,
    ensures
        !m.accepts(),
        m.is_idle(w) && m.pending.len() > 0 ==> m.after_take(w).drain_measure()
            < m.drain_measure(),
        m.is_busy(w) ==> m.after_finish(w).drain_measure() < m.drain_measure(),
        m.is_busy(w) ==> m.after_fail(w).drain_measure() < m.drain_measure(),
        m.drain_measure() == 0 ==> forall|i: int|
            0 <= i < m.workers.len() ==> #[trigger] m.workers[i] is Exited,
{
    if m.is_idle(w) && m.pending.len() > 0 {
        let s = m.after_take(w).workers[w];
        lemma_count_busy_update(m.workers, w, s);
    }
    if m.is_busy(w) {
        lemma_count_busy_update(m.workers, w, WorkerState::Idle);
        lemma_count_busy_update(m.workers, w, WorkerState::Failed);
    }
    if m.drain_measure() == 0 {
        lemma_drained_queue(m);
    }
}

/// A submitted job: its ticket and the work itself.
pub struct Job<T> {
    pub id: u64,
    pub task: T,
}

/// An entry of the queue.
pub enum Message<T> {
    NewJob(Job<T>),
    Terminate,
}

impl<T> Message<T> {
    /// The entry as the model sees it.
    pub open spec fn pending(self) -> Pending {
        match self {
            Message::NewJob(job) => Pending::Task(job.id),
            Message::Terminate => Pending::Stop,
        }
    }
}

#[derive(Clone, Copy, PartialEq, Eq, Debug, Structural)]
pub enum PoolError {
    /// No job is accepted: teardown has begun, or no worker is left to run it.
    ChannelClosed,
}

/// The queue shared by the workers of one pool.
pub struct JobQueue<T> {
    messages: VecDeque<Message<T>>,
    workers: Vec<WorkerState>,
    submitted: u64,
    closing: bool,
    delivered: Ghost<Map<u64, usize>>,
}

impl<T> View for JobQueue<T> {
    type V = QueueModel;

    closed spec fn view(&self) -> QueueModel {
        QueueModel {
            pending: self.messages@.map_values(|m: Message<T>| m.pending()),
            workers: self.workers@,
            submitted: self.submitted as nat,
            closing: self.closing,
            delivered: self.delivered@,
        }
    }
}

impl<T> JobQueue<T> {
    /// The pending entries, front first, with their jobs.
    pub closed spec fn messages(&self) -> Seq<Message<T>> {
        self.messages@
    }

    /// The model's invariant holds.
    pub closed spec fn wf(&self) -> bool {
        self@.wf()
    }

    /// A queue for `n` idle workers, with ids `0..n`.
    pub fn new(n: usize) -> (r: Self)
        requires
            n > 0,
        ensures
            r.wf(),
            r@ == QueueModel::initial(n as nat),
            r@.accepts(),
            r.messages() == Seq::<Message<T>>::empty(),
    {
        let mut workers: Vec<WorkerState> = Vec::with_capacity(n);
        let mut i: usize = 0;
        while i < n
            invariant
                i <= n,
                workers@ == Seq::new(i as nat, |k: int| WorkerState::Idle),
            decreases n - i,
        {
            workers.push(WorkerState::Idle);
            i = i + 1;
            assert(workers@ =~= Seq::new(i as nat, |k: int| WorkerState::Idle));
        }
        let r = JobQueue {
            messages: VecDeque::new(),
            workers,
            submitted: 0,
            closing: false,
            delivered: Ghost(Map::empty()),
        };
        assert(r@.pending =~= Seq::<Pending>::empty());
        assert(r@ == QueueModel::initial(n as nat));
        assert(r@.workers[0].is_live());
        proof {
            lemma_initial_wf(n as nat);
        }
        r
    }

    /// Whether a job submitted now is accepted.
    pub fn accepts(&self) -> (r: bool)
        ensures
            r == self@.accepts(),
    {
        if self.closing {
            return false;
        }
        let mut i: usize = 0;
        while i < self.workers.len()
            invariant
                !self.closing,
                i <= self.workers@.len(),
                forall|k: int| 0 <= k < i ==> !(#[trigger] self.workers@[k]).is_live(),
            decreases self.workers@.len() - i,
        {
            match self.workers[i] {
                WorkerState::Idle | WorkerState::Busy(_) => {
                    assert(self@.workers[i as int].is_live());
                    return true;
                },
                _ => {},
            }
            i = i + 1;
        }
        false
    }

    /// Enqueues `task` behind every pending entry and returns its ticket, or
    /// fails with `ChannelClosed` when the queue accepts no job.
    pub fn submit(&mut self, task: T) -> (r: Result<u64, PoolError>)
        requires
            old(self).wf(),
            old(self)@.submitted < u64::MAX,
        ensures
            final(self).wf(),
            match r {
                Ok(id) => {
                    &&& old(self)@.accepts()
                    &&& id == old(self)@.submitted
                    &&& final(self)@ == old(self)@.after_submit()
                    &&& final(self).messages() == old(self).messages().push(
                        Message::NewJob(Job { id, task }),
                    )
                },
                Err(e) => {
                    &&& !old(self)@.accepts()
                    &&& e == PoolError::ChannelClosed
                    &&& final(self)@ == old(self)@
                    &&& final(self).messages() == old(self).messages()
                },
            },
    {
        if !self.accepts() {
            return Err(PoolError::ChannelClosed);
        }
        let id = self.submitted;
        proof {
            lemma_submit_wf(self@);
        }
        self.messages.push_back(Message::NewJob(Job { id, task }));
        self.submitted = id + 1;
        assert(self@.pending =~= old(self)@.after_submit().pending);
        Ok(id)
    }

    /// Worker `w`, idle, takes the front entry; `None` when there is none yet.
    /// A job makes the worker busy with it, a terminate marker makes it exit.
    pub fn take(&mut self, w: usize) -> (r: Option<Message<T>>)
        requires
            old(self).wf(),
            old(self)@.is_idle(w as int),
        ensures
            final(self).wf(),
            match r {
                Some(msg) => {
                    &&& old(self)@.pending.len() > 0
                    &&& msg == old(self).messages()[0]
                    &&& final(self).messages() == old(self).messages().drop_first()
                    &&& final(self)@ == old(self)@.after_take(w as int)
                },
                None => {
                    &&& old(self)@.pending.len() == 0
                    &&& final(self)@ == old(self)@
                    &&& final(self).messages() == old(self).messages()
                },
            },
    {
        let ghost before = self@;
        let msg = match self.messages.pop_front() {
            Some(msg) => msg,
            None => {
                return None;
            },
        };
        proof {
            lemma_take_wf(before, w as int);
        }
        match &msg {
            Message::NewJob(job) => {
                self.workers.set(w, WorkerState::Busy(job.id));
                self.delivered = Ghost(self.delivered@.insert(job.id, w));
            },
            Message::Terminate => {
                self.workers.set(w, WorkerState::Exited);
            },
        }
        assert(self@.pending =~= before.after_take(w as int).pending);
        Some(msg)
    }

    /// Worker `w` has run its job to the end and is idle again.
    pub fn finish(&mut self, w: usize)
        requires
            old(self).wf(),
            old(self)@.is_busy(w as int),
        ensures
            final(self).wf(),
            final(self)@ == old(self)@.after_finish(w as int),
            final(self).messages() == old(self).messages(),
    {
        proof {
            lemma_release_wf(self@, w as int, WorkerState::Idle);
        }
        self.workers.set(w, WorkerState::Idle);
    }

    /// The job of worker `w` failed; its thread ends without taking more.
    pub fn fail(&mut self, w: usize)
        requires
            old(self).wf(),
            old(self)@.is_busy(w as int),
        ensures
            final(self).wf(),
            final(self)@ == old(self)@.after_fail(w as int),
            final(self).messages() == old(self).messages(),
    {
        proof {
            lemma_release_wf(self@, w as int, WorkerState::Failed);
        }
        self.workers.set(w, WorkerState::Failed);
    }

    /// Begins teardown: enqueues one terminate marker per worker, behind every
    /// pending job, and returns how many it enqueued.
    pub fn shutdown(&mut self) -> (r: usize)
        requires
            old(self).wf(),
            !old(self)@.closing,
        ensures
            final(self).wf(),
            final(self)@ == old(self)@.after_shutdown(),
            final(self).messages() == old(self).messages() + Seq::new(
                r as nat,
                |i: int| Message::<T>::Terminate,
            ),
            r == old(self)@.workers.len(),
    {
        let ghost before = self@;
        let n = self.workers.len();
        let mut i: usize = 0;
        while i < n
            invariant
                n == self.workers@.len(),
                i <= n,
                self.workers@ == before.workers,
                self.messages@ == old(self).messages() + Seq::new(
                    i as nat,
                    |k: int| Message::<T>::Terminate,
                ),
                self.submitted == old(self).submitted,
                self.delivered@ == before.delivered,
            decreases n - i,
        {
            self.messages.push_back(Message::Terminate);
            i = i + 1;
            assert(self.messages@ =~= old(self).messages() + Seq::new(
                i as nat,
                |k: int| Message::<T>::Terminate,
            ));
        }
        self.closing = true;
        assert(self@.pending =~= before.after_shutdown().pending);
        proof {
            lemma_shutdown_wf(before);
        }
        n
    }

    /// The number of workers.
    pub fn worker_count(&self) -> (r: usize)
        ensures
            r == self@.workers.len(),
    {
        self.workers.len()
    }

    /// The state of worker `w`.
    pub fn worker_state(&self, w: usize) -> (r: WorkerState)
        requires
            w < self@.workers.len(),
        ensures
            r == self@.workers[w as int],
    {
        self.workers[w]
    }

    /// How many jobs were accepted so far.
    pub fn submitted(&self) -> (r: u64)
        ensures
            r == self@.submitted,
    {
        self.submitted
    }

    /// Whether teardown has begun.
    pub fn is_closing(&self) -> (r: bool)
        ensures
            r == self@.closing,
    {
        self.closing
    }
}

} // verus!
