//! Laws of the scheduler, stated over the model and proved.
use vstd::prelude::*;
use crate::model::{
    deliver, first_ready, lemma_detach_wf, lemma_first_ready_from, lemma_remove_wf, lemma_step_wf,
    resume_model, settle, step_model, steps, xmove_model, RunOnceResult, RunStatus, RuntimeModel,
    VmModel,
};
use crate::script::{run_from, Op, Outcome};
use crate::thread::ThreadState;

verus! {

/// With nothing queued, every one of any number of steps reports `Empty`
/// and leaves the VM as it was.
pub proof fn idle_steps_change_nothing(m: VmModel, n: nat)
    requires
        m.runtime matches Some(rt) && rt.queue.len() == 0,
    ensures
        steps(m, n) == m,
        forall|k: nat| k < n ==> #[trigger] step_model(steps(m, k)) == (m, RunOnceResult { op: RunStatus::Empty, state: None }),
    decreases n,
{
    if n > 0 {
        idle_steps_change_nothing(m, (n - 1) as nat);
        assert(first_ready(m.runtime.unwrap().queue) is None);
        assert forall|k: nat| k < n implies #[trigger] step_model(steps(m, k)) == (
            m,
            RunOnceResult { op: RunStatus::Empty, state: None },
        ) by {
            if k < n - 1 {
            } else {
                assert(steps(m, k) == m);
            }
        }
    }
}

/// A finished thread has no queued work.
pub proof fn finished_thread_not_waited(m: VmModel, t: int)
    requires
        m.wf(),
        0 <= t < m.threads.len(),
        m.threads[t].state.is_finished(),
    ensures
        !m.waits(t),
{
    if m.waits(t) {
        let rt = m.runtime.unwrap();
        let i = choose|i: int| 0 <= i < rt.queue.len() && #[trigger] rt.queue[i].thread == t;
        assert(rt.queue[i] == rt.queue[i]);
    }
}

/// One step neither reports nor changes a thread that no queue item resumes,
/// and queues no work for it.
pub proof fn step_leaves_unwaited_thread(m: VmModel, t: int)
    requires
        m.wf(),
        0 <= t < m.threads.len(),
        !m.waits(t),
    ensures
        step_model(m).1.state != Some(t as usize),
        step_model(m).0.threads.len() == m.threads.len(),
        step_model(m).0.threads[t] == m.threads[t],
        !step_model(m).0.waits(t),
{
    if let Some(rt) = m.runtime {
        lemma_first_ready_from(rt.queue, 0);
        if let Some(j) = first_ready(rt.queue) {
            let w = rt.queue[j];
            assert(w.thread != t) by {
                if w.thread == t {
                    assert(m.waits(t));
                }
            }
            let m1 = m.with_runtime(RuntimeModel { queue: rt.queue.remove(j) });
            lemma_remove_wf(m, j);
            let q1 = m1.runtime.unwrap().queue;
            assert(!m1.waits(t)) by {
                if m1.waits(t) {
                    let i = choose|i: int| 0 <= i < q1.len() && #[trigger] q1[i].thread == t;
                    let i0 = if i < j { i } else { i + 1 };
                    assert(q1[i] == rt.queue[i0]);
                }
            }
            let th = m.threads[w.thread as int];
            let run = run_from(th.program, th.pc, th.stack + w.payload);
            let m2 = step_model(m).0;
            assert(m2 == settle(m1, w.thread as int, run.0, run.1, run.2).0);
            if m2.waits(t) {
                let q2 = m2.runtime.unwrap().queue;
                let i = choose|i: int| 0 <= i < q2.len() && #[trigger] q2[i].thread == t;
                if i < q1.len() {
                    match run.2 {
                        Outcome::Yielded(_) => {
                            assert(q2[i] == q1[i]);
                        },
                        _ => {},
                    }
                    assert(q2[i] == q1[i]);
                }
            }
        }
    }
}

/// Any number of steps in a row neither report nor change a thread that no
/// queue item resumes: work deregistered from a thread is never delivered to it.
pub proof fn unwaited_thread_left_alone(m: VmModel, t: int, n: nat)
    requires
        m.wf(),
        0 <= t < m.threads.len(),
        !m.waits(t),
    ensures
        steps(m, n).wf(),
        steps(m, n).threads.len() == m.threads.len(),
        steps(m, n).threads[t] == m.threads[t],
        !steps(m, n).waits(t),
        forall|k: nat| k < n ==> (#[trigger] step_model(steps(m, k))).1.state != Some(t as usize),
    decreases n,
{
    if n > 0 {
        let p = (n - 1) as nat;
        unwaited_thread_left_alone(m, t, p);
        lemma_step_wf(steps(m, p));
        step_leaves_unwaited_thread(steps(m, p), t);
        assert forall|k: nat| k < n implies (#[trigger] step_model(steps(m, k))).1.state != Some(t as usize) by {
            if k == p {
                step_leaves_unwaited_thread(steps(m, p), t);
            }
        }
    }
}

/// A finished thread is never reported again, nor changed, by later steps:
/// no thread produces more than one terminal result.
pub proof fn finished_thread_reported_once(m: VmModel, t: int, n: nat)
    requires
        m.wf(),
        0 <= t < m.threads.len(),
        m.threads[t].state.is_finished(),
    ensures
        steps(m, n).threads[t] == m.threads[t],
        forall|k: nat| k < n ==> (#[trigger] step_model(steps(m, k))).1.state != Some(t as usize),
{
    finished_thread_not_waited(m, t);
    unwaited_thread_left_alone(m, t, n);
}

/// Once a thread is reset or destroyed, no later step delivers work to it,
/// reports it, or changes it: work it waited for is gone for good.
pub proof fn detached_thread_never_delivered(m: VmModel, t: int, destroy: bool, n: nat)
    requires
        m.wf(),
        0 <= t < m.threads.len(),
    ensures
        destroy ==> steps(m.detach(t, m.threads[t].destroyed()), n).threads[t] == m.threads[t].destroyed(),
        destroy ==> forall|k: nat|
            k < n ==> (#[trigger] step_model(steps(m.detach(t, m.threads[t].destroyed()), k))).1.state
                != Some(t as usize),
        !destroy ==> steps(m.detach(t, m.threads[t].reset()), n).threads[t] == m.threads[t].reset(),
        !destroy ==> forall|k: nat|
            k < n ==> (#[trigger] step_model(steps(m.detach(t, m.threads[t].reset()), k))).1.state
                != Some(t as usize),
{
    let th = if destroy { m.threads[t].destroyed() } else { m.threads[t].reset() };
    lemma_detach_wf(m, t, th);
    unwaited_thread_left_alone(m.detach(t, th), t, n);
}

/// The step in which a thread completes reports `Success` with that thread.
pub proof fn completion_reported(m: VmModel, t: int)
    requires
        m.wf(),
        0 <= t < m.threads.len(),
        m.threads[t].state != ThreadState::Completed,
        step_model(m).0.threads[t].state == ThreadState::Completed,
    ensures
        step_model(m).1 == (RunOnceResult { op: RunStatus::Success, state: Some(t as usize) }),
{
    if !m.waits(t) {
        step_leaves_unwaited_thread(m, t);
    } else {
        let rt = m.runtime.unwrap();
        lemma_first_ready_from(rt.queue, 0);
        let j = first_ready(rt.queue).unwrap();
        let w = rt.queue[j];
        if w.thread != t {
            let m1 = m.with_runtime(RuntimeModel { queue: rt.queue.remove(j) });
            let th = m.threads[w.thread as int];
            let run = run_from(th.program, th.pc, th.stack + w.payload);
            assert(step_model(m).0 == settle(m1, w.thread as int, run.0, run.1, run.2).0);
            assert(step_model(m).0.threads[t] == m.threads[t]);
        }
    }
}

/// First-in, first-out: when the first `n` queued items are all ready,
/// the next `n` steps deliver exactly those items, in registration order.
pub proof fn ready_work_served_in_order(m: VmModel, n: nat)
    requires
        m.wf(),
        m.runtime matches Some(rt) && n <= rt.queue.len() && forall|i: int|
            0 <= i < n ==> (#[trigger] rt.queue[i]).ready,
    ensures
        forall|k: nat|
            k < n ==> {
                &&& (#[trigger] steps(m, k)).runtime is Some
                &&& steps(m, k).runtime.unwrap().queue.len() > 0
                &&& steps(m, k).runtime.unwrap().queue[0] == m.runtime.unwrap().queue[k as int]
                &&& step_model(steps(m, k)) == deliver(steps(m, k), 0)
            },
{
    let q = m.runtime.unwrap().queue;
    assert forall|k: nat| k <= n implies {
        &&& (#[trigger] steps(m, k)).wf()
        &&& steps(m, k).runtime is Some
        &&& steps(m, k).runtime.unwrap().queue.len() >= n - k
        &&& steps(m, k).runtime.unwrap().queue.subrange(0, n - k) == q.subrange(k as int, n as int)
    } by {
        served_prefix(m, n, k);
    }
    assert forall|k: nat| k < n implies {
        &&& (#[trigger] steps(m, k)).runtime is Some
        &&& steps(m, k).runtime.unwrap().queue.len() > 0
        &&& steps(m, k).runtime.unwrap().queue[0] == m.runtime.unwrap().queue[k as int]
        &&& step_model(steps(m, k)) == deliver(steps(m, k), 0)
    } by {
        served_prefix(m, n, k);
        let qk = steps(m, k).runtime.unwrap().queue;
        assert(qk.subrange(0, n - k)[0] == q.subrange(k as int, n as int)[0]);
        assert(qk[0].ready);
    }
}

/// After `k` of the steps of `ready_work_served_in_order`, the items not yet
/// delivered still head the queue.
proof fn served_prefix(m: VmModel, n: nat, k: nat)
    requires
        m.wf(),
        m.runtime matches Some(rt) && n <= rt.queue.len() && forall|i: int|
            0 <= i < n ==> (#[trigger] rt.queue[i]).ready,
        k <= n,
    ensures
        steps(m, k).wf(),
        steps(m, k).runtime is Some,
        steps(m, k).runtime.unwrap().queue.len() >= n - k,
        steps(m, k).runtime.unwrap().queue.subrange(0, n - k) == m.runtime.unwrap().queue.subrange(
            k as int,
            n as int,
        ),
    decreases k,
{
    let q = m.runtime.unwrap().queue;
    if k == 0 {
        assert(q.subrange(0, n as int) == q.subrange(0, n as int));
    } else {
        let p = (k - 1) as nat;
        served_prefix(m, n, p);
        let mp = steps(m, p);
        let qp = mp.runtime.unwrap().queue;
        lemma_step_wf(mp);
        assert(qp.subrange(0, n - p)[0] == q.subrange(p as int, n as int)[0]);
        assert(qp[0].ready);
        lemma_first_ready_from(qp, 0);
        assert(first_ready(qp) == Some(0int));
        let w = qp[0];
        let rt = mp.runtime.unwrap();
        let m1 = mp.with_runtime(RuntimeModel { queue: qp.remove(0) });
        let th = mp.threads[w.thread as int];
        let run = run_from(th.program, th.pc, th.stack + w.payload);
        let m2 = settle(m1, w.thread as int, run.0, run.1, run.2).0;
        assert(steps(m, k) == m2);
        let q1 = qp.remove(0);
        let q2 = m2.runtime.unwrap().queue;
        assert(q2.len() >= q1.len() && q2.subrange(0, q1.len() as int) == q1) by {
            match run.2 {
                Outcome::Yielded(_) => {
                    if q2.len() > q1.len() {
                        assert(q2.subrange(0, q1.len() as int) =~= q1);
                    }
                },
                _ => {},
            }
        }
        assert(q2.subrange(0, n - k) =~= q.subrange(k as int, n as int)) by {
            assert forall|i: int| 0 <= i < n - k implies q2.subrange(0, n - k)[i] == q.subrange(
                k as int,
                n as int,
            )[i] by {
                assert(q2.subrange(0, q1.len() as int)[i] == q1[i]);
                assert(q1[i] == qp[i + 1]);
                assert(qp.subrange(0, n - p)[i + 1] == q.subrange(p as int, n as int)[i + 1]);
            }
        }
    }
}

/// Values moved across the boundary are, in order, exactly what a thread
/// sees when it is resumed, whether it has not started or waits at a yield
/// point: with `k` values moved, its stack holds its own values and then
/// those `k`, nothing truncated or padded, and it runs on that stack. A
/// thread whose next instruction returns hands back exactly that stack.
pub proof fn moved_values_seen_on_resume(m: VmModel, t: int, k: nat)
    requires
        m.wf(),
        0 <= t < m.threads.len(),
        m.is_live(t),
        k <= m.stack.len(),
    ensures
        ({
            let m2 = xmove_model(m, t, k);
            let moved = m.stack.subrange(m.stack.len() - k, m.stack.len() as int);
            let before = m.threads[t];
            let th = m2.threads[t];
            let run = run_from(th.program, th.pc, before.stack + moved);
            &&& th.stack == before.stack + moved
            &&& th.stack.len() == before.stack.len() + k
            &&& th.stack.subrange(before.stack.len() as int, th.stack.len() as int) == moved
            &&& th.pc == before.pc
            &&& resume_model(m2, t) == settle(m2.detach(t, th), t, run.0, run.1, run.2)
            &&& (before.pc < before.program.len() && before.program[before.pc as int] == Op::Return)
                ==> resume_model(m2, t).0.threads[t].state == ThreadState::Completed
                && resume_model(m2, t).0.threads[t].stack == before.stack + moved
                && resume_model(m2, t).1 == (RunOnceResult { op: RunStatus::Success, state: Some(t as usize) })
        }),
{
    let m2 = xmove_model(m, t, k);
    let moved = m.stack.subrange(m.stack.len() - k, m.stack.len() as int);
    let before = m.threads[t];
    let th = m2.threads[t];
    assert(th.stack.subrange(before.stack.len() as int, th.stack.len() as int) =~= moved);
    assert(m2.detach(t, th).threads[t] == th);
}

/// Completed work hands its thread exactly its payload: a thread waiting at
/// a `Return` with an empty stack completes, when delivered `k` values,
/// returning exactly those `k` values in order.
pub proof fn payload_seen_on_delivery(m: VmModel, j: int)
    requires
        m.wf(),
        m.runtime matches Some(rt) && 0 <= j < rt.queue.len(),
        ({
            let w = m.runtime.unwrap().queue[j];
            let th = m.threads[w.thread as int];
            th.pc < th.program.len() && th.program[th.pc as int] == Op::Return && th.stack.len() == 0
        }),
    ensures
        ({
            let w = m.runtime.unwrap().queue[j];
            let r = deliver(m, j);
            &&& r.1 == (RunOnceResult { op: RunStatus::Success, state: Some(w.thread) })
            &&& r.0.threads[w.thread as int].state == ThreadState::Completed
            &&& r.0.threads[w.thread as int].stack == w.payload
            &&& r.0.threads[w.thread as int].stack.len() == w.payload.len()
        }),
{
    let rt = m.runtime.unwrap();
    let w = rt.queue[j];
    let th = m.threads[w.thread as int];
    assert(th.stack + w.payload =~= w.payload);
    assert(w.thread < m.threads.len());
}

} // verus!
