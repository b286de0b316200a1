use vstd::prelude::*;
use crate::script::{run_from, Library, Op, Outcome, Request, ScriptError, Value};
use crate::thread::{ThreadModel, ThreadState};

verus! {

/// Which library subsystems a VM registers; each can be enabled on its own.
#[derive(Clone, Copy, PartialEq, Eq, Structural, Debug)]
pub struct Config {
    pub fs: bool,
    pub process: bool,
    pub task: bool,
    pub time: bool,
    pub system: bool,
    pub net: bool,
    pub crypto: bool,
}

/// The global name under which a library is registered.
pub open spec fn library_name(lib: Library) -> Seq<u8> {
    match lib {
        Library::Fs => seq![102u8, 115u8],
        Library::Process => seq![112u8, 114u8, 111u8, 99u8, 101u8, 115u8, 115u8],
        Library::Task => seq![116u8, 97u8, 115u8, 107u8],
        Library::Time => seq![116u8, 105u8, 109u8, 101u8],
        Library::System => seq![115u8, 121u8, 115u8, 116u8, 101u8, 109u8],
        Library::Net => seq![110u8, 101u8, 116u8],
        Library::Crypto => seq![99u8, 114u8, 121u8, 112u8, 116u8, 111u8],
    }
}

/// Every library, in the order a new VM registers them.
pub open spec fn all_libraries() -> Seq<Library> {
    seq![
        Library::Fs,
        Library::Process,
        Library::Task,
        Library::Time,
        Library::System,
        Library::Net,
        Library::Crypto,
    ]
}

/// The globals a new VM holds after registering the first `n` libraries
/// that `c` enables.
pub open spec fn registered_globals(c: Config, n: nat) -> Seq<(Seq<u8>, Value)>
    decreases n,
{
    if n == 0 {
        Seq::empty()
    } else {
        let g = registered_globals(c, (n - 1) as nat);
        let lib = all_libraries()[n - 1];
        if c.enables(lib) {
            g.push((library_name(lib), Value::Library(lib)))
        } else {
            g
        }
    }
}

/// The position of global `name` at or after `i`.
pub open spec fn global_position_from(g: Seq<(Seq<u8>, Value)>, name: Seq<u8>, i: int) -> Option<int>
    decreases g.len() - i,
{
    if i < 0 || i >= g.len() {
        None
    } else if g[i].0 == name {
        Some(i)
    } else {
        global_position_from(g, name, i + 1)
    }
}

/// The value of global `name`; `Nil` where it is not set.
pub open spec fn global_value(g: Seq<(Seq<u8>, Value)>, name: Seq<u8>) -> Value {
    match global_position_from(g, name, 0) {
        Some(j) => g[j].1,
        None => Value::Nil,
    }
}

/// The global table with `name` set to `v`.
pub open spec fn with_global(g: Seq<(Seq<u8>, Value)>, name: Seq<u8>, v: Value) -> Seq<(Seq<u8>, Value)> {
    match global_position_from(g, name, 0) {
        Some(j) => g.update(j, (name, v)),
        None => g.push((name, v)),
    }
}

impl Config {
    pub open spec fn enables(self, lib: Library) -> bool {
        match lib {
            Library::Fs => self.fs,
            Library::Process => self.process,
            Library::Task => self.task,
            Library::Time => self.time,
            Library::System => self.system,
            Library::Net => self.net,
            Library::Crypto => self.crypto,
        }
    }

    /// Whether work of `lib` can be carried out on this VM.
    pub fn supports(&self, lib: Library) -> (r: bool)
        ensures
            r == self.enables(lib),
    {
        match lib {
            Library::Fs => self.fs,
            Library::Process => self.process,
            Library::Task => self.task,
            Library::Time => self.time,
            Library::System => self.system,
            Library::Net => self.net,
            Library::Crypto => self.crypto,
        }
    }
}

/// The tag of what one scheduler step did.
#[derive(Clone, Copy, PartialEq, Eq, Structural, Debug)]
pub enum RunStatus {
    /// No runtime is installed on the VM.
    MissingError,
    /// The runtime itself failed.
    Error,
    /// A unit of work was done.
    Success,
    /// No work is ready.
    Empty,
    /// A thread asked for an operation this platform does not implement.
    UnsupportedOp,
}

/// The outcome of one scheduler step, with the thread it concerns, if any.
#[derive(Clone, Copy, PartialEq, Eq, Debug)]
pub struct RunOnceResult {
    pub op: RunStatus,
    pub state: Option<usize>,
}

/// A misuse of the VM reported to the host, or an error of a direct call.
#[derive(Clone, Copy, PartialEq, Eq, Structural, Debug)]
pub enum VmError {
    /// No runtime is installed.
    MissingRuntime,
    /// Outstanding work or waiting threads remain.
    LiveWork,
    /// No live thread has this index.
    BadThread,
    /// The thread is not in a state this operation accepts.
    NotResumable,
    /// Fewer values were there, or more came back, than the operation expects.
    StackMismatch,
    /// No outstanding, not yet completed work has this number.
    UnknownWork,
    /// The called value is not a loaded function.
    NotAFunction,
    /// The value is not a table, or the stack index names no value.
    NotATable,
    /// A direct call tried to yield.
    YieldAcrossCall,
    /// A direct call raised an error.
    Script(ScriptError),
}

/// The model of an outstanding asynchronous request.
pub struct WorkModel {
    /// Registration number: later registrations have larger ones.
    pub id: u64,
    /// The thread to resume when the work is delivered.
    pub thread: usize,
    /// Whether the work has completed and waits for delivery.
    pub ready: bool,
    /// The values handed to the thread on delivery.
    pub payload: Seq<Value>,
}

/// The model of the scheduler's bookkeeping.
pub struct RuntimeModel {
    /// Outstanding work in registration order.
    pub queue: Seq<WorkModel>,
}

/// The model of a VM instance.
pub struct VmModel {
    pub config: Config,
    /// The main stack.
    pub stack: Seq<Value>,
    /// The metatable of each table, by table index.
    pub tables: Seq<Option<usize>>,
    /// The programs of loaded functions.
    pub functions: Seq<Seq<Op>>,
    /// Every thread ever created, by thread index.
    pub threads: Seq<ThreadModel>,
    /// The global table: names and their values.
    pub globals: Seq<(Seq<u8>, Value)>,
    /// The scheduler, once installed.
    pub runtime: Option<RuntimeModel>,
    /// The registration number the next request gets. It only grows, also
    /// across a teardown and a new setup of the runtime, so a number is never
    /// given twice.
    pub next_id: u64,
}

/// The position of the first ready item of `q` at or after `i`.
pub open spec fn first_ready_from(q: Seq<WorkModel>, i: int) -> Option<int>
    decreases q.len() - i,
{
    if i < 0 || i >= q.len() {
        None
    } else if q[i].ready {
        Some(i)
    } else {
        first_ready_from(q, i + 1)
    }
}

/// The position of the earliest-registered ready item of `q`.
pub open spec fn first_ready(q: Seq<WorkModel>) -> Option<int> {
    first_ready_from(q, 0)
}

/// The position of the item of `q` at or after `i` that resumes thread `t`.
pub open spec fn position_of_thread_from(q: Seq<WorkModel>, t: int, i: int) -> Option<int>
    decreases q.len() - i,
{
    if i < 0 || i >= q.len() {
        None
    } else if q[i].thread == t {
        Some(i)
    } else {
        position_of_thread_from(q, t, i + 1)
    }
}

/// `q` with the item that resumes thread `t` taken out, if it has one.
pub open spec fn without_thread(q: Seq<WorkModel>, t: int) -> Seq<WorkModel> {
    match position_of_thread_from(q, t, 0) {
        Some(j) => q.remove(j),
        None => q,
    }
}

/// The position of the item of `q` at or after `i` with number `id` that
/// has not completed yet.
pub open spec fn position_of_open_id_from(q: Seq<WorkModel>, id: u64, i: int) -> Option<int>
    decreases q.len() - i,
{
    if i < 0 || i >= q.len() {
        None
    } else if q[i].id == id && !q[i].ready {
        Some(i)
    } else {
        position_of_open_id_from(q, id, i + 1)
    }
}

impl RuntimeModel {
    /// Every item resumes a live, yielded thread, no thread has two items,
    /// and registration numbers grow along the queue.
    pub open spec fn wf(self, threads: Seq<ThreadModel>, next_id: u64) -> bool {
        &&& forall|i: int|
            #![trigger self.queue[i]]
            0 <= i < self.queue.len() ==> {
                &&& self.queue[i].thread < threads.len()
                &&& threads[self.queue[i].thread as int].state == ThreadState::Yielded
                &&& self.queue[i].id < next_id
            }
        &&& forall|i: int, j: int|
            #![trigger self.queue[i], self.queue[j]]
            0 <= i < j < self.queue.len() ==> {
                &&& self.queue[i].id < self.queue[j].id
                &&& self.queue[i].thread != self.queue[j].thread
            }
    }
}

impl VmModel {
    pub open spec fn wf(self) -> bool {
        &&& self.threads.len() <= usize::MAX
        &&& self.threads_fit()
        &&& match self.runtime {
            Some(rt) => rt.wf(self.threads, self.next_id),
            None => true,
        }
    }

    /// Thread `th` can stand in this VM: its next instruction is within its
    /// program, it is not running, and it waits only where a runtime can
    /// resume it.
    pub open spec fn fits(self, th: ThreadModel) -> bool {
        &&& th.pc <= th.program.len()
        &&& th.state != ThreadState::Running
        &&& self.runtime is None ==> th.state != ThreadState::Yielded
    }

    pub open spec fn threads_fit(self) -> bool {
        forall|t: int| #![trigger self.threads[t]] 0 <= t < self.threads.len() ==> self.fits(self.threads[t])
    }

    /// Some item of the queue will resume thread `t`.
    pub open spec fn waits(self, t: int) -> bool {
        match self.runtime {
            Some(rt) => exists|i: int| 0 <= i < rt.queue.len() && #[trigger] rt.queue[i].thread == t,
            None => false,
        }
    }

    /// Outstanding work: a queued item, or a thread waiting for one.
    pub open spec fn has_live_work(self) -> bool {
        ||| (self.runtime is Some && self.runtime.unwrap().queue.len() > 0)
        ||| exists|t: int| 0 <= t < self.threads.len() && #[trigger] self.threads[t].state == ThreadState::Yielded
    }

    /// A thread that has not finished and has not been destroyed.
    pub open spec fn is_live(self, t: int) -> bool {
        self.threads[t].state == ThreadState::Created || self.threads[t].state == ThreadState::Yielded
    }

    /// `self` with thread `t` replaced by `th` and no queue item left that resumes it.
    pub open spec fn detach(self, t: int, th: ThreadModel) -> VmModel {
        let m = self.with_thread(t, th);
        match self.runtime {
            Some(rt) => m.with_runtime(RuntimeModel { queue: without_thread(rt.queue, t) }),
            None => m,
        }
    }

    pub open spec fn with_thread(self, t: int, th: ThreadModel) -> VmModel {
        VmModel { threads: self.threads.update(t, th), ..self }
    }

    pub open spec fn with_runtime(self, rt: RuntimeModel) -> VmModel {
        VmModel { runtime: Some(rt), ..self }
    }
}

/// The VM after thread `t` ran to `pc` with `stack` and stopped with `out`,
/// and what the step reports: a finished thread is reported with `Success`;
/// a yield registers a new request at the end of the queue; a request the
/// platform cannot serve, or one the runtime cannot register, leaves the
/// thread holding an error.
pub open spec fn settle(m: VmModel, t: int, pc: nat, stack: Seq<Value>, out: Outcome) -> (VmModel, RunOnceResult) {
    let ran = ThreadModel { pc: pc, stack: stack, ..m.threads[t] };
    match out {
        Outcome::Returned => (
            m.with_thread(t, ThreadModel { state: ThreadState::Completed, ..ran }),
            RunOnceResult { op: RunStatus::Success, state: Some(t as usize) },
        ),
        Outcome::Failed(e) => (
            m.with_thread(t, ThreadModel { state: ThreadState::Errored, error: Some(e), ..ran }),
            RunOnceResult { op: RunStatus::Success, state: Some(t as usize) },
        ),
        Outcome::Yielded(req) => {
            let rt = m.runtime.unwrap();
            let supported = match req {
                Request::Reschedule => true,
                Request::Work(lib) => m.config.enables(lib),
            };
            if !supported {
                (
                    m.with_thread(
                        t,
                        ThreadModel { state: ThreadState::Errored, error: Some(ScriptError::Unsupported), ..ran },
                    ),
                    RunOnceResult { op: RunStatus::UnsupportedOp, state: Some(t as usize) },
                )
            } else if m.next_id == u64::MAX {
                (
                    m.with_thread(
                        t,
                        ThreadModel { state: ThreadState::Errored, error: Some(ScriptError::Exhausted), ..ran },
                    ),
                    RunOnceResult { op: RunStatus::Error, state: Some(t as usize) },
                )
            } else {
                let item = WorkModel {
                    id: m.next_id,
                    thread: t as usize,
                    ready: req == Request::Reschedule,
                    payload: Seq::empty(),
                };
                (
                    VmModel {
                        next_id: (m.next_id + 1) as u64,
                        ..m.with_thread(t, ThreadModel { state: ThreadState::Yielded, ..ran }).with_runtime(
                            RuntimeModel { queue: rt.queue.push(item) },
                        )
                    },
                    RunOnceResult { op: RunStatus::Success, state: None },
                )
            }
        },
    }
}

/// Delivers queue item `j`: takes it out of the queue, hands its payload to
/// its thread and runs the thread until it stops.
pub open spec fn deliver(m: VmModel, j: int) -> (VmModel, RunOnceResult) {
    let rt = m.runtime.unwrap();
    let w = rt.queue[j];
    let t = w.thread as int;
    let th = m.threads[t];
    let run = run_from(th.program, th.pc, th.stack + w.payload);
    settle(m.with_runtime(RuntimeModel { queue: rt.queue.remove(j) }), t, run.0, run.1, run.2)
}

/// One scheduler step: with no runtime, `MissingError`; with no ready work,
/// `Empty` and nothing changes; else the earliest-registered ready item is
/// delivered.
pub open spec fn step_model(m: VmModel) -> (VmModel, RunOnceResult) {
    match m.runtime {
        None => (m, RunOnceResult { op: RunStatus::MissingError, state: None }),
        Some(rt) => match first_ready(rt.queue) {
            None => (m, RunOnceResult { op: RunStatus::Empty, state: None }),
            Some(j) => deliver(m, j),
        },
    }
}

/// A direct resume of thread `t`: the queue item that would have resumed it,
/// if any, is taken out, and it runs from where it stands on its own stack.
pub open spec fn resume_model(m: VmModel, t: int) -> (VmModel, RunOnceResult) {
    let th = m.threads[t];
    let run = run_from(th.program, th.pc, th.stack);
    settle(m.detach(t, th), t, run.0, run.1, run.2)
}

/// The position on a stack of length `len` that a Lua-style index names:
/// `1..=len` counts from the bottom, `-1..=-len` from the top.
pub open spec fn slot(len: int, idx: int) -> Option<int> {
    if 1 <= idx <= len {
        Some(idx - 1)
    } else if -len <= idx <= -1 {
        Some(len + idx)
    } else {
        None
    }
}

/// The top `n` values of the main stack moved, in order, onto the stack of thread `t`.
pub open spec fn xmove_model(m: VmModel, t: int, n: nat) -> VmModel {
    let len = m.stack.len();
    VmModel {
        stack: m.stack.subrange(0, len - n),
        ..m.with_thread(t, ThreadModel { stack: m.threads[t].stack + m.stack.subrange(len - n, len as int), ..m.threads[t] })
    }
}

/// `n` scheduler steps in a row from `m`, with nothing else done between them.
pub open spec fn steps(m: VmModel, n: nat) -> VmModel
    decreases n,
{
    if n == 0 {
        m
    } else {
        step_model(steps(m, (n - 1) as nat)).0
    }
}

/// A direct, non-coroutine call: the function sits below `nargs` arguments
/// on the main stack. Both are taken off; exactly `nresults` return values
/// replace them. A yield, an error, or another number of results is
/// reported as an error, with nothing pushed.
pub open spec fn call_model(m: VmModel, nargs: nat, nresults: nat) -> (VmModel, Result<(), VmError>) {
    let n = m.stack.len();
    if nargs + 1 > n {
        (m, Err(VmError::StackMismatch))
    } else {
        let base = n - nargs - 1;
        match m.stack[base] {
            Value::Function(f) if f < m.functions.len() => {
                let run = run_from(m.functions[f as int], 0, m.stack.subrange(base + 1, n as int));
                let rest = m.stack.subrange(0, base);
                match run.2 {
                    Outcome::Returned => if run.1.len() == nresults {
                        (VmModel { stack: rest + run.1, ..m }, Ok(()))
                    } else {
                        (VmModel { stack: rest, ..m }, Err(VmError::StackMismatch))
                    },
                    Outcome::Yielded(_) => (VmModel { stack: rest, ..m }, Err(VmError::YieldAcrossCall)),
                    Outcome::Failed(e) => (VmModel { stack: rest, ..m }, Err(VmError::Script(e))),
                }
            },
            _ => (m, Err(VmError::NotAFunction)),
        }
    }
}

/// Replacing thread `t` by one that fits keeps every thread fitting, whatever
/// else changes, so long as an installed runtime stays installed.
pub proof fn lemma_replace_thread_fits(m: VmModel, m2: VmModel, t: int)
    requires
        m.threads_fit(),
        0 <= t < m.threads.len(),
        m2.threads == m.threads.update(t, m2.threads[t]),
        m2.fits(m2.threads[t]),
        m2.runtime is None ==> m.runtime is None,
    ensures
        m2.threads_fit(),
{
    assert forall|k: int| 0 <= k < m2.threads.len() implies m2.fits(#[trigger] m2.threads[k]) by {
        if k != t {
            assert(m.fits(m.threads[k]));
        }
    }
}

/// A run never moves past the end of its program.
pub proof fn lemma_run_from_pc(prog: Seq<Op>, pc: nat, stack: Seq<Value>)
    requires
        pc <= prog.len(),
    ensures
        run_from(prog, pc, stack).0 <= prog.len(),
    decreases prog.len() - pc,
{
    if pc < prog.len() {
        match prog[pc as int] {
            Op::Push(v) => lemma_run_from_pc(prog, pc + 1, stack.push(v)),
            Op::Pop => if stack.len() > 0 {
                lemma_run_from_pc(prog, pc + 1, stack.drop_last());
            },
            Op::Add => {
                if stack.len() >= 2 {
                    match (stack[stack.len() - 2], stack[stack.len() - 1]) {
                        (Value::Int(a), Value::Int(b)) => {
                            if i64::MIN <= a + b <= i64::MAX {
                                lemma_run_from_pc(
                                    prog,
                                    pc + 1,
                                    stack.subrange(0, stack.len() - 2).push(Value::Int((a + b) as i64)),
                                );
                            }
                        },
                        _ => {},
                    }
                }
            },
            _ => {},
        }
    }
}

/// Settling a thread that no queue item resumes keeps the VM well formed.
pub proof fn lemma_settle_wf(m: VmModel, t: int, pc: nat, stack: Seq<Value>, out: Outcome)
    requires
        m.wf(),
        m.runtime is Some,
        0 <= t < m.threads.len(),
        !m.waits(t),
        pc <= m.threads[t].program.len(),
    ensures
        settle(m, t, pc, stack, out).0.wf(),
{
    let rt = m.runtime.unwrap();
    let m2 = settle(m, t, pc, stack, out).0;
    assert forall|i: int| 0 <= i < rt.queue.len() implies #[trigger] rt.queue[i].thread != t by {
        if rt.queue[i].thread == t {
            assert(m.waits(t));
        }
    }
    lemma_replace_thread_fits(m, m2, t);
    let rt2 = m2.runtime.unwrap();
    let pushed = match out {
        Outcome::Yielded(_) => rt2.queue.len() == rt.queue.len() + 1,
        _ => false,
    };
    if !pushed || rt2 == rt {
        assert(rt2 == rt) by {
            match out {
                Outcome::Yielded(_) => {},
                _ => {},
            }
        }
        assert forall|i: int| 0 <= i < rt2.queue.len() implies {
            &&& (#[trigger] rt2.queue[i]).thread < m2.threads.len()
            &&& m2.threads[rt2.queue[i].thread as int].state == ThreadState::Yielded
            &&& rt2.queue[i].id < m2.next_id
        } by {
            assert(rt.queue[i].thread != t);
        }
    } else {
        assert(m.next_id < u64::MAX);
        assert(m2.next_id == m.next_id + 1);
        assert(rt2.queue == rt.queue.push(rt2.queue.last()));
        assert(rt2.queue.last().id == m.next_id);
        assert(rt2.queue.last().thread == t);
        assert(m2.threads[t].state == ThreadState::Yielded);
        assert forall|i: int| 0 <= i < rt2.queue.len() implies {
            &&& (#[trigger] rt2.queue[i]).thread < m2.threads.len()
            &&& m2.threads[rt2.queue[i].thread as int].state == ThreadState::Yielded
            &&& rt2.queue[i].id < m2.next_id
        } by {
            if i < rt.queue.len() {
                assert(rt2.queue[i] == rt.queue[i]);
                assert(rt.queue[i].thread != t);
            }
        }
        assert forall|i: int, j: int| 0 <= i < j < rt2.queue.len() implies {
            &&& (#[trigger] rt2.queue[i]).id < (#[trigger] rt2.queue[j]).id
            &&& rt2.queue[i].thread != rt2.queue[j].thread
        } by {
            assert(rt2.queue[i] == rt.queue[i]);
            assert(rt.queue[i].thread != t);
            if j < rt.queue.len() {
                assert(rt2.queue[j] == rt.queue[j]);
            }
        }
    }
}

/// Taking item `j` out of a well-formed queue keeps it well formed, and no
/// item is left that resumes the thread of item `j`.
pub proof fn lemma_remove_wf(m: VmModel, j: int)
    requires
        m.wf(),
        m.runtime is Some,
        0 <= j < m.runtime.unwrap().queue.len(),
    ensures
        ({
            let rt = m.runtime.unwrap();
            let m1 = m.with_runtime(RuntimeModel { queue: rt.queue.remove(j) });
            &&& m1.wf()
            &&& !m1.waits(rt.queue[j].thread as int)
        }),
{
    let rt = m.runtime.unwrap();
    let q = rt.queue;
    let q1 = q.remove(j);
    let m1 = m.with_runtime(RuntimeModel { queue: q1 });
    assert forall|i: int| 0 <= i < q1.len() implies #[trigger] q1[i] == if i < j { q[i] } else { q[i + 1] } by {}
    assert forall|i: int| 0 <= i < q1.len() implies {
        &&& (#[trigger] q1[i]).thread < m1.threads.len()
        &&& m1.threads[q1[i].thread as int].state == ThreadState::Yielded
        &&& q1[i].id < m.next_id
    } by {
        if i < j {
            assert(q1[i] == q[i]);
        } else {
            assert(q1[i] == q[i + 1]);
        }
    }
    assert forall|a: int, b: int| 0 <= a < b < q1.len() implies {
        &&& (#[trigger] q1[a]).id < (#[trigger] q1[b]).id
        &&& q1[a].thread != q1[b].thread
    } by {
        let a0 = if a < j { a } else { a + 1 };
        let b0 = if b < j { b } else { b + 1 };
        assert(q1[a] == q[a0]);
        assert(q1[b] == q[b0]);
        assert(q[a0] == q[a0] && q[b0] == q[b0]);
    }
    if m1.waits(q[j].thread as int) {
        let i = choose|i: int| 0 <= i < q1.len() && #[trigger] q1[i].thread == q[j].thread;
        let i0 = if i < j { i } else { i + 1 };
        assert(q1[i] == q[i0]);
        assert(q[i0] == q[i0] && q[j] == q[j]);
    }
}

/// `first_ready_from` finds a ready item, in range, with none ready before it.
pub proof fn lemma_first_ready_from(q: Seq<WorkModel>, i: int)
    requires
        0 <= i,
    ensures
        match first_ready_from(q, i) {
            Some(j) => i <= j < q.len() && q[j].ready && forall|k: int| i <= k < j ==> !(#[trigger] q[k]).ready,
            None => forall|k: int| i <= k < q.len() ==> !(#[trigger] q[k]).ready,
        },
    decreases q.len() - i,
{
    if i < q.len() && !q[i].ready {
        lemma_first_ready_from(q, i + 1);
    }
}

/// `position_of_thread_from` finds the item that resumes `t`, if there is one.
pub proof fn lemma_position_of_thread_from(q: Seq<WorkModel>, t: int, i: int)
    requires
        0 <= i,
    ensures
        match position_of_thread_from(q, t, i) {
            Some(j) => i <= j < q.len() && q[j].thread == t,
            None => forall|k: int| i <= k < q.len() ==> (#[trigger] q[k]).thread != t,
        },
    decreases q.len() - i,
{
    if i < q.len() && q[i].thread != t {
        lemma_position_of_thread_from(q, t, i + 1);
    }
}

/// `global_position_from` finds the entry of `name`, if there is one.
pub proof fn lemma_global_position_from(g: Seq<(Seq<u8>, Value)>, name: Seq<u8>, i: int)
    requires
        0 <= i,
    ensures
        match global_position_from(g, name, i) {
            Some(j) => i <= j < g.len() && g[j].0 == name,
            None => forall|k: int| i <= k < g.len() ==> (#[trigger] g[k]).0 != name,
        },
    decreases g.len() - i,
{
    if i < g.len() && g[i].0 != name {
        lemma_global_position_from(g, name, i + 1);
    }
}

/// `position_of_open_id_from` finds the open item numbered `id`, if there is one.
pub proof fn lemma_position_of_open_id_from(q: Seq<WorkModel>, id: u64, i: int)
    requires
        0 <= i,
    ensures
        match position_of_open_id_from(q, id, i) {
            Some(j) => i <= j < q.len() && q[j].id == id && !q[j].ready,
            None => forall|k: int| i <= k < q.len() ==> !((#[trigger] q[k]).id == id && !q[k].ready),
        },
    decreases q.len() - i,
{
    if i < q.len() && !(q[i].id == id && !q[i].ready) {
        lemma_position_of_open_id_from(q, id, i + 1);
    }
}

/// Detaching a thread and giving it a state that fits the VM keeps the VM
/// well formed.
pub proof fn lemma_detach_wf(m: VmModel, t: int, th: ThreadModel)
    requires
        m.wf(),
        0 <= t < m.threads.len(),
        m.fits(th),
    ensures
        m.detach(t, th).wf(),
        !m.detach(t, th).waits(t),
{
    let m2 = m.detach(t, th);
    if let Some(rt) = m.runtime {
        lemma_position_of_thread_from(rt.queue, t, 0);
        match position_of_thread_from(rt.queue, t, 0) {
            Some(j) => {
                lemma_remove_wf(m, j);
            },
            None => {},
        }
        let m1 = match position_of_thread_from(rt.queue, t, 0) {
            Some(j) => m.with_runtime(RuntimeModel { queue: rt.queue.remove(j) }),
            None => m,
        };
        assert(m1.wf());
        assert(!m1.waits(t));
        let q1 = m1.runtime.unwrap().queue;
        assert(m2 == m1.with_thread(t, th));
        assert forall|i: int| 0 <= i < q1.len() implies #[trigger] q1[i].thread != t by {
            if q1[i].thread == t {
                assert(m1.waits(t));
            }
        }
        lemma_replace_thread_fits(m, m2, t);
        assert forall|i: int| 0 <= i < q1.len() implies {
            &&& (#[trigger] q1[i]).thread < m2.threads.len()
            &&& m2.threads[q1[i].thread as int].state == ThreadState::Yielded
            &&& q1[i].id < m.next_id
        } by {
            assert(q1[i].thread != t);
        }
        if m2.waits(t) {
            let i = choose|i: int| 0 <= i < q1.len() && #[trigger] q1[i].thread == t;
        }
    } else {
        lemma_replace_thread_fits(m, m2, t);
    }
}

/// One scheduler step keeps the VM well formed.
pub proof fn lemma_step_wf(m: VmModel)
    requires
        m.wf(),
    ensures
        step_model(m).0.wf(),
{
    if let Some(rt) = m.runtime {
        lemma_first_ready_from(rt.queue, 0);
        if let Some(j) = first_ready(rt.queue) {
            let w = rt.queue[j];
            let t = w.thread as int;
            let th = m.threads[t];
            let m1 = m.with_runtime(RuntimeModel { queue: rt.queue.remove(j) });
            lemma_remove_wf(m, j);
            lemma_run_from_pc(th.program, th.pc, th.stack + w.payload);
            let run = run_from(th.program, th.pc, th.stack + w.payload);
            assert(m1.threads[t] == th);
            lemma_settle_wf(m1, t, run.0, run.1, run.2);
        }
    }
}

} // verus!
