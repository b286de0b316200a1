use vstd::prelude::*;
use crate::model::{
    call_model, first_ready, first_ready_from, lemma_detach_wf, lemma_first_ready_from,
    lemma_position_of_open_id_from, lemma_position_of_thread_from, lemma_remove_wf, lemma_replace_thread_fits,
    lemma_run_from_pc, lemma_settle_wf, lemma_step_wf, position_of_open_id_from,
    position_of_thread_from, resume_model, settle, slot, step_model, without_thread, xmove_model,
    Config, RunOnceResult, RunStatus, RuntimeModel, VmError, VmModel, WorkModel, all_libraries,
    global_position_from, global_value, lemma_global_position_from, library_name,
    registered_globals, with_global,
};
use crate::script::{interpret, run_from, Library, Op, Outcome, Request, ScriptError, Value};
use crate::thread::{Thread, ThreadModel, ThreadState};

verus! {

/// An outstanding asynchronous request of a yielded thread.
pub struct PendingWork {
    pub id: u64,
    pub thread: usize,
    pub ready: bool,
    pub payload: Vec<Value>,
}

impl View for PendingWork {
    type V = WorkModel;

    open spec fn view(&self) -> WorkModel {
        WorkModel { id: self.id, thread: self.thread, ready: self.ready, payload: self.payload@ }
    }
}

/// A VM instance: its stacks, heap, threads and, once installed, the
/// runtime scheduler.
pub struct Vm {
    config: Config,
    stack: Vec<Value>,
    tables: Vec<Option<usize>>,
    functions: Vec<Vec<Op>>,
    threads: Vec<Thread>,
    globals: Vec<(Vec<u8>, Value)>,
    has_runtime: bool,
    queue: Vec<PendingWork>,
    next_id: u64,
}

impl View for Vm {
    type V = VmModel;

    closed spec fn view(&self) -> VmModel {
        VmModel {
            config: self.config,
            stack: self.stack@,
            tables: self.tables@,
            functions: self.functions@.map_values(|f: Vec<Op>| f@),
            threads: self.threads@.map_values(|t: Thread| t@),
            globals: self.globals@.map_values(|e: (Vec<u8>, Value)| (e.0@, e.1)),
            runtime: if self.has_runtime {
                Some(RuntimeModel { queue: self.queue@.map_values(|w: PendingWork| w@) })
            } else {
                None
            },
            next_id: self.next_id,
        }
    }
}

impl Vm {
    /// A fresh VM with no runtime; each library that `config` enables is
    /// registered as a global under its name.
    pub fn new(config: Config) -> (vm: Vm)
        ensures
            vm@ == (VmModel {
                config: config,
                stack: Seq::empty(),
                tables: Seq::empty(),
                functions: Seq::empty(),
                threads: Seq::empty(),
                globals: registered_globals(config, 7),
                runtime: None,
                next_id: 0,
            }),
            vm@.wf(),
    {
        let libs = [
            Library::Fs,
            Library::Process,
            Library::Task,
            Library::Time,
            Library::System,
            Library::Net,
            Library::Crypto,
        ];
        assert(libs@ == all_libraries());
        let mut globals: Vec<(Vec<u8>, Value)> = Vec::new();
        let mut i: usize = 0;
        while i < 7
            invariant
                i <= 7,
                libs@ == all_libraries(),
                globals@.map_values(|e: (Vec<u8>, Value)| (e.0@, e.1)) == registered_globals(config, i as nat),
            decreases 7 - i,
        {
            let lib = libs[i];
            if config.supports(lib) {
                let ghost before = globals@;
                globals.push((library_name_bytes(lib), Value::Library(lib)));
                assert(globals@.map_values(|e: (Vec<u8>, Value)| (e.0@, e.1)) =~= before.map_values(
                    |e: (Vec<u8>, Value)| (e.0@, e.1),
                ).push((library_name(lib), Value::Library(lib))));
            }
            i = i + 1;
        }
        let vm = Vm {
            config,
            stack: Vec::new(),
            tables: Vec::new(),
            functions: Vec::new(),
            threads: Vec::new(),
            globals,
            has_runtime: false,
            queue: Vec::new(),
            next_id: 0,
        };
        assert(vm@.functions =~= Seq::empty());
        assert(vm@.threads =~= Seq::empty());
        vm
    }

    /// Installs the scheduler's bookkeeping with an empty queue; a VM that has
    /// it keeps it as it is. Registration numbers go on from where they were,
    /// so work registered before an earlier teardown is never confused with
    /// new work.
    pub fn setup_runtime(&mut self)
        requires
            old(self)@.wf(),
        ensures
            final(self)@.wf(),
            final(self)@ == (if old(self)@.runtime is Some {
                old(self)@
            } else {
                old(self)@.with_runtime(RuntimeModel { queue: Seq::empty() })
            }),
    {
        if !self.has_runtime {
            self.queue = Vec::new();
            self.has_runtime = true;
            assert(self@.runtime.unwrap().queue =~= Seq::empty());
        }
    }

    /// Index of the earliest-registered ready item.
    fn find_ready(&self) -> (r: Option<usize>)
        ensures
            r matches Some(j) ==> first_ready(self.queue@.map_values(|w: PendingWork| w@)) == Some(j as int),
            r is None ==> first_ready(self.queue@.map_values(|w: PendingWork| w@)) is None,
    {
        let ghost q = self.queue@.map_values(|w: PendingWork| w@);
        let mut i: usize = 0;
        while i < self.queue.len()
            invariant
                i <= self.queue.len(),
                q == self.queue@.map_values(|w: PendingWork| w@),
                first_ready_from(q, 0) == first_ready_from(q, i as int),
            decreases self.queue.len() - i,
        {
            if self.queue[i].ready {
                return Some(i);
            }
            i = i + 1;
        }
        None
    }

    /// Runs thread `t`, first handing it `payload`, until it stops, and
    /// records where it stopped.
    fn drive(&mut self, t: usize, payload: Vec<Value>) -> (r: RunOnceResult)
        requires
            old(self)@.wf(),
            old(self)@.runtime is Some,
            t < old(self)@.threads.len(),
            !old(self)@.waits(t as int),
        ensures
            ({
                let th = old(self)@.threads[t as int];
                let run = run_from(th.program, th.pc, th.stack + payload@);
                (final(self)@, r) == settle(old(self)@, t as int, run.0, run.1, run.2)
            }),
    {
        let ghost m = self@;
        let mut th = Thread::new(Vec::new());
        std::mem::swap(&mut th, &mut self.threads[t]);
        assert(th@ == m.threads[t as int]);
        let mut payload = payload;
        th.stack.append(&mut payload);
        th.state = ThreadState::Running;
        let (pc, out) = interpret(&th.program, th.pc, &mut th.stack);
        th.pc = pc;
        let r = match out {
            Outcome::Returned => {
                th.state = ThreadState::Completed;
                RunOnceResult { op: RunStatus::Success, state: Some(t) }
            },
            Outcome::Failed(e) => {
                th.state = ThreadState::Errored;
                th.error = Some(e);
                RunOnceResult { op: RunStatus::Success, state: Some(t) }
            },
            Outcome::Yielded(req) => {
                let supported = match req {
                    Request::Reschedule => true,
                    Request::Work(lib) => self.config.supports(lib),
                };
                if !supported {
                    th.state = ThreadState::Errored;
                    th.error = Some(ScriptError::Unsupported);
                    RunOnceResult { op: RunStatus::UnsupportedOp, state: Some(t) }
                } else if self.next_id == u64::MAX {
                    th.state = ThreadState::Errored;
                    th.error = Some(ScriptError::Exhausted);
                    RunOnceResult { op: RunStatus::Error, state: Some(t) }
                } else {
                    th.state = ThreadState::Yielded;
                    let ready = match req {
                        Request::Reschedule => true,
                        Request::Work(_) => false,
                    };
                    self.queue.push(PendingWork { id: self.next_id, thread: t, ready, payload: Vec::new() });
                    self.next_id = self.next_id + 1;
                    RunOnceResult { op: RunStatus::Success, state: None }
                }
            },
        };
        self.threads.set(t, th);
        proof {
            let s = settle(m, t as int, pc as nat, th.stack@, out);
            assert(self@.threads =~= s.0.threads);
            assert(self@.runtime.unwrap().queue =~= s.0.runtime.unwrap().queue);
        }
        r
    }

    /// One scheduler step: at most one unit of work.
    ///
    /// Without a runtime it reports `MissingError`; with no ready work,
    /// `Empty`, and nothing changes. Otherwise the earliest-registered ready
    /// item leaves the queue, its payload is pushed on its thread's stack and
    /// the thread runs until it yields, returns or fails. Since it holds the
    /// VM mutably, no other call can enter the VM while it runs.
    pub fn run_once(&mut self) -> (r: RunOnceResult)
        requires
            old(self)@.wf(),
        ensures
            final(self)@.wf(),
            (final(self)@, r) == step_model(old(self)@),
    {
        proof {
            lemma_step_wf(self@);
        }
        if !self.has_runtime {
            return RunOnceResult { op: RunStatus::MissingError, state: None };
        }
        let j = match self.find_ready() {
            None => {
                return RunOnceResult { op: RunStatus::Empty, state: None };
            },
            Some(j) => j,
        };
        let ghost m = self@;
        proof {
            lemma_first_ready_from(m.runtime.unwrap().queue, 0);
            lemma_remove_wf(m, j as int);
        }
        let w = self.queue.remove(j);
        assert(self@ == m.with_runtime(
            RuntimeModel { queue: m.runtime.unwrap().queue.remove(j as int) },
        )) by {
            assert(self@.runtime.unwrap().queue =~= m.runtime.unwrap().queue.remove(j as int));
        }
        self.drive(w.thread, w.payload)
    }

    /// Resumes thread `t` directly, outside the scheduler. A thread that has
    /// not started runs from its start; a yielded thread runs on from its
    /// yield point, and the work it waited for is deregistered and never
    /// delivered. Either runs on its own stack, with whatever `xmove` put
    /// there, until it yields, returns or fails; the result is reported as a
    /// scheduler step would report it.
    pub fn resume(&mut self, t: usize) -> (r: Result<RunOnceResult, VmError>)
        requires
            old(self)@.wf(),
        ensures
            final(self)@.wf(),
            old(self)@.runtime is None ==> r == Err::<RunOnceResult, VmError>(VmError::MissingRuntime)
                && final(self)@ == old(self)@,
            old(self)@.runtime is Some && t >= old(self)@.threads.len() ==> r == Err::<
                RunOnceResult,
                VmError,
            >(VmError::BadThread) && final(self)@ == old(self)@,
            old(self)@.runtime is Some && t < old(self)@.threads.len() && !old(self)@.is_live(t as int) ==> r
                == Err::<RunOnceResult, VmError>(VmError::NotResumable) && final(self)@ == old(self)@,
            old(self)@.runtime is Some && t < old(self)@.threads.len() && old(self)@.is_live(t as int) ==> r
                == Ok::<RunOnceResult, VmError>(resume_model(old(self)@, t as int).1) && final(self)@
                == resume_model(old(self)@, t as int).0,
    {
        if !self.has_runtime {
            return Err(VmError::MissingRuntime);
        }
        if t >= self.threads.len() {
            return Err(VmError::BadThread);
        }
        if self.threads[t].state != ThreadState::Created && self.threads[t].state != ThreadState::Yielded {
            return Err(VmError::NotResumable);
        }
        let ghost m = self@;
        let ghost th = m.threads[t as int];
        proof {
            assert(m.fits(th));
            lemma_detach_wf(m, t as int, th);
            lemma_run_from_pc(th.program, th.pc, th.stack);
            let run = run_from(th.program, th.pc, th.stack);
            assert(m.detach(t as int, th).threads[t as int] == th);
            lemma_settle_wf(m.detach(t as int, th), t as int, run.0, run.1, run.2);
            assert(th.stack + Seq::<Value>::empty() =~= th.stack);
        }
        self.detach_work(t);
        assert(self@ == m.detach(t as int, th)) by {
            assert(m.threads.update(t as int, th) =~= m.threads);
        }
        let r = self.drive(t, Vec::new());
        Ok(r)
    }
}

impl Vm {
    /// Releases the scheduler's bookkeeping. Refused while work is
    /// outstanding or a thread waits for it.
    pub fn destroy_runtime(&mut self) -> (r: Result<(), VmError>)
        requires
            old(self)@.wf(),
        ensures
            final(self)@.wf(),
            old(self)@.runtime is None ==> r == Err::<(), VmError>(VmError::MissingRuntime) && final(self)@
                == old(self)@,
            old(self)@.runtime is Some && old(self)@.has_live_work() ==> r == Err::<(), VmError>(
                VmError::LiveWork,
            ) && final(self)@ == old(self)@,
            old(self)@.runtime is Some && !old(self)@.has_live_work() ==> r == Ok::<(), VmError>(())
                && final(self)@ == (VmModel { runtime: None, ..old(self)@ }),
    {
        if !self.has_runtime {
            return Err(VmError::MissingRuntime);
        }
        if self.queue.len() > 0 {
            return Err(VmError::LiveWork);
        }
        if self.any_thread_in(ThreadState::Yielded) {
            return Err(VmError::LiveWork);
        }
        self.has_runtime = false;
        Ok(())
    }

    /// Whether some thread is in state `s`.
    fn any_thread_in(&self, s: ThreadState) -> (r: bool)
        ensures
            r == exists|t: int| 0 <= t < self@.threads.len() && #[trigger] self@.threads[t].state == s,
    {
        let mut i: usize = 0;
        while i < self.threads.len()
            invariant
                i <= self.threads.len(),
                forall|t: int| 0 <= t < i ==> #[trigger] self@.threads[t].state != s,
            decreases self.threads.len() - i,
        {
            if self.threads[i].state == s {
                assert(self@.threads[i as int].state == s);
                return true;
            }
            i = i + 1;
        }
        false
    }

    /// The number of values on the main stack.
    pub fn stack_len(&self) -> (r: usize)
        ensures
            r == self@.stack.len(),
    {
        self.stack.len()
    }

    /// Pushes `v` on the main stack.
    pub fn push(&mut self, v: Value)
        requires
            old(self)@.wf(),
        ensures
            final(self)@.wf(),
            final(self)@ == (VmModel { stack: old(self)@.stack.push(v), ..old(self)@ }),
    {
        self.stack.push(v);
    }

    /// Takes the top value off the main stack.
    pub fn pop(&mut self) -> (r: Option<Value>)
        requires
            old(self)@.wf(),
        ensures
            final(self)@.wf(),
            old(self)@.stack.len() == 0 ==> r is None && final(self)@ == old(self)@,
            old(self)@.stack.len() > 0 ==> r == Some(old(self)@.stack.last()) && final(self)@ == (VmModel {
                stack: old(self)@.stack.drop_last(),
                ..old(self)@
            }),
    {
        self.stack.pop()
    }

    /// The value at a Lua-style index of the main stack.
    pub fn value_at(&self, idx: i64) -> (r: Option<Value>)
        ensures
            r == (match slot(self@.stack.len() as int, idx as int) {
                Some(i) => Some(self@.stack[i]),
                None => None::<Value>,
            }),
    {
        match slot_index(self.stack.len(), idx) {
            Some(i) => Some(self.stack[i]),
            None => None,
        }
    }

    /// Loads `program` as a function and pushes it on the main stack.
    pub fn load(&mut self, program: Vec<Op>)
        requires
            old(self)@.wf(),
        ensures
            final(self)@.wf(),
            final(self)@ == (VmModel {
                functions: old(self)@.functions.push(program@),
                stack: old(self)@.stack.push(Value::Function(old(self)@.functions.len() as usize)),
                ..old(self)@
            }),
    {
        let f = self.functions.len();
        self.functions.push(program);
        self.stack.push(Value::Function(f));
        assert(self@.functions =~= old(self)@.functions.push(program@));
    }

    /// Calls the function below the top `nargs` values, directly and not as a
    /// coroutine, expecting exactly `nresults` return values.
    pub fn call(&mut self, nargs: usize, nresults: usize) -> (r: Result<(), VmError>)
        requires
            old(self)@.wf(),
        ensures
            final(self)@.wf(),
            (final(self)@, r) == call_model(old(self)@, nargs as nat, nresults as nat),
    {
        let n = self.stack.len();
        if nargs >= n {
            return Err(VmError::StackMismatch);
        }
        let base = n - nargs - 1;
        let f = match self.stack[base] {
            Value::Function(f) => f,
            _ => {
                return Err(VmError::NotAFunction);
            },
        };
        if f >= self.functions.len() {
            return Err(VmError::NotAFunction);
        }
        let ghost m = self@;
        let mut args = self.stack.split_off(base + 1);
        self.stack.pop();
        assert(self.stack@ =~= m.stack.subrange(0, base as int));
        assert(self.functions[f as int]@ == m.functions[f as int]);
        let (_, out) = interpret(&self.functions[f], 0, &mut args);
        match out {
            Outcome::Returned => {
                if args.len() == nresults {
                    self.stack.append(&mut args);
                    Ok(())
                } else {
                    Err(VmError::StackMismatch)
                }
            },
            Outcome::Yielded(_) => Err(VmError::YieldAcrossCall),
            Outcome::Failed(e) => Err(VmError::Script(e)),
        }
    }
}

impl Vm {
    /// Creates a thread that will run `program`; returns its index.
    pub fn new_thread(&mut self, program: Vec<Op>) -> (t: usize)
        requires
            old(self)@.wf(),
            old(self)@.threads.len() < usize::MAX,
        ensures
            final(self)@.wf(),
            t == old(self)@.threads.len(),
            final(self)@ == (VmModel {
                threads: old(self)@.threads.push(
                    ThreadModel {
                        state: ThreadState::Created,
                        program: program@,
                        pc: 0,
                        stack: Seq::empty(),
                        error: None,
                    },
                ),
                ..old(self)@
            }),
    {
        let t = self.threads.len();
        self.threads.push(Thread::new(program));
        assert(self@.threads =~= old(self)@.threads.push(self.threads@[t as int]@));
        t
    }

    /// Moves the top `n` values of the main stack, in order, onto the stack of
    /// thread `t`, which has not started or waits at a yield point: they are
    /// its arguments when it is resumed.
    pub fn xmove(&mut self, t: usize, n: usize) -> (r: Result<(), VmError>)
        requires
            old(self)@.wf(),
        ensures
            final(self)@.wf(),
            ({
                let m = old(self)@;
                let len = m.stack.len();
                if t >= m.threads.len() || m.threads[t as int].state == ThreadState::Destroyed {
                    r == Err::<(), VmError>(VmError::BadThread) && final(self)@ == m
                } else if !m.is_live(t as int) {
                    r == Err::<(), VmError>(VmError::NotResumable) && final(self)@ == m
                } else if n > len {
                    r == Err::<(), VmError>(VmError::StackMismatch) && final(self)@ == m
                } else {
                    &&& r == Ok::<(), VmError>(())
                    &&& final(self)@ == xmove_model(m, t as int, n as nat)
                }
            }),
    {
        if t >= self.threads.len() || self.threads[t].state == ThreadState::Destroyed {
            return Err(VmError::BadThread);
        }
        if self.threads[t].state != ThreadState::Created && self.threads[t].state != ThreadState::Yielded {
            return Err(VmError::NotResumable);
        }
        let len = self.stack.len();
        if n > len {
            return Err(VmError::StackMismatch);
        }
        let ghost m = self@;
        let mut moved = self.stack.split_off(len - n);
        let mut th = Thread::new(Vec::new());
        std::mem::swap(&mut th, &mut self.threads[t]);
        assert(th@ == m.threads[t as int]);
        th.stack.append(&mut moved);
        self.threads.set(t, th);
        proof {
            assert(self@.threads =~= m.threads.update(t as int, th@));
            lemma_replace_thread_fits(m, self@, t as int);
        }
        Ok(())
    }

    /// Marks outstanding work `id` as completed with the values `payload`,
    /// which its thread receives when the work is delivered.
    pub fn complete_work(&mut self, id: u64, payload: Vec<Value>) -> (r: Result<(), VmError>)
        requires
            old(self)@.wf(),
        ensures
            final(self)@.wf(),
            old(self)@.runtime is None ==> r == Err::<(), VmError>(VmError::MissingRuntime) && final(self)@
                == old(self)@,
            old(self)@.runtime matches Some(rt) ==> match position_of_open_id_from(rt.queue, id, 0) {
                None => r == Err::<(), VmError>(VmError::UnknownWork) && final(self)@ == old(self)@,
                Some(j) => r == Ok::<(), VmError>(()) && final(self)@ == old(self)@.with_runtime(
                    RuntimeModel {
                        queue: rt.queue.update(j, WorkModel { ready: true, payload: payload@, ..rt.queue[j] }),
                    },
                ),
            },
    {
        if !self.has_runtime {
            return Err(VmError::MissingRuntime);
        }
        let ghost m = self@;
        let ghost q = m.runtime.unwrap().queue;
        proof {
            lemma_position_of_open_id_from(q, id, 0);
        }
        let mut i: usize = 0;
        while i < self.queue.len()
            invariant
                i <= self.queue.len(),
                self@ == m,
                m == old(self)@,
                m.wf(),
                self.has_runtime,
                q == self.queue@.map_values(|w: PendingWork| w@),
                position_of_open_id_from(q, id, 0) == position_of_open_id_from(q, id, i as int),
            decreases self.queue.len() - i,
        {
            if self.queue[i].id == id && !self.queue[i].ready {
                let ghost qe = self.queue@;
                let mut w = self.queue.remove(i);
                w.ready = true;
                w.payload = payload;
                self.queue.insert(i, w);
                proof {
                    let q2 = q.update(i as int, w@);
                    assert(self.queue@ =~= qe.update(i as int, w));
                    assert(self@.runtime.unwrap().queue =~= q2);
                    assert(w@ == WorkModel { ready: true, payload: payload@, ..q[i as int] });
                    assert(self@ == m.with_runtime(RuntimeModel { queue: q2 }));
                    assert forall|a: int| 0 <= a < q2.len() implies #[trigger] q2[a].id == q[a].id
                        && q2[a].thread == q[a].thread by {}
                    assert forall|a: int, b: int| 0 <= a < b < q2.len() implies {
                        &&& (#[trigger] q2[a]).id < (#[trigger] q2[b]).id
                        &&& q2[a].thread != q2[b].thread
                    } by {
                        assert(q[a] == q[a] && q[b] == q[b]);
                    }
                    assert forall|a: int| 0 <= a < q2.len() implies {
                        &&& (#[trigger] q2[a]).thread < self@.threads.len()
                        &&& self@.threads[q2[a].thread as int].state == ThreadState::Yielded
                        &&& q2[a].id < self.next_id
                    } by {
                        assert(q[a] == q[a]);
                    }
                }
                return Ok(());
            }
            i = i + 1;
        }
        Err(VmError::UnknownWork)
    }

    /// The number of the outstanding work that will resume thread `t`.
    pub fn pending_for(&self, t: usize) -> (r: Option<u64>)
        ensures
            self@.runtime is None ==> r is None,
            self@.runtime matches Some(rt) ==> r == match position_of_thread_from(rt.queue, t as int, 0) {
                Some(j) => Some(rt.queue[j].id),
                None => None::<u64>,
            },
    {
        if !self.has_runtime {
            return None;
        }
        proof {
            lemma_position_of_thread_from(self@.runtime.unwrap().queue, t as int, 0);
        }
        match self.position_of_thread(t) {
            Some(j) => Some(self.queue[j].id),
            None => None,
        }
    }

    fn position_of_thread(&self, t: usize) -> (r: Option<usize>)
        ensures
            r matches Some(j) ==> position_of_thread_from(self.queue@.map_values(|w: PendingWork| w@), t as int, 0)
                == Some(j as int),
            r is None ==> position_of_thread_from(self.queue@.map_values(|w: PendingWork| w@), t as int, 0) is None,
    {
        let ghost q = self.queue@.map_values(|w: PendingWork| w@);
        let mut i: usize = 0;
        while i < self.queue.len()
            invariant
                i <= self.queue.len(),
                q == self.queue@.map_values(|w: PendingWork| w@),
                position_of_thread_from(q, t as int, 0) == position_of_thread_from(q, t as int, i as int),
            decreases self.queue.len() - i,
        {
            if self.queue[i].thread == t {
                return Some(i);
            }
            i = i + 1;
        }
        None
    }

    /// Takes out of the queue the item that resumes thread `t`, if any.
    fn detach_work(&mut self, t: usize)
        requires
            old(self)@.wf(),
        ensures
            final(self)@ == (match old(self)@.runtime {
                Some(rt) => old(self)@.with_runtime(RuntimeModel { queue: without_thread(rt.queue, t as int) }),
                None => old(self)@,
            }),
    {
        if !self.has_runtime {
            return;
        }
        match self.position_of_thread(t) {
            Some(j) => {
                proof {
                    lemma_position_of_thread_from(self@.runtime.unwrap().queue, t as int, 0);
                }
                let ghost m = self@;
                self.queue.remove(j);
                assert(self@.runtime.unwrap().queue =~= without_thread(m.runtime.unwrap().queue, t as int));
            },
            None => {},
        }
    }

    /// Returns a thread to `Created`, discarding its stack, its progress and
    /// any error, so it runs its program again from the start. Work it was
    /// waiting for is deregistered and will never be delivered to it.
    pub fn reset_thread(&mut self, t: usize) -> (r: Result<(), VmError>)
        requires
            old(self)@.wf(),
        ensures
            final(self)@.wf(),
            t >= old(self)@.threads.len() || old(self)@.threads[t as int].state == ThreadState::Destroyed ==> r
                == Err::<(), VmError>(VmError::BadThread) && final(self)@ == old(self)@,
            t < old(self)@.threads.len() && old(self)@.threads[t as int].state != ThreadState::Destroyed ==> r
                == Ok::<(), VmError>(()) && final(self)@ == old(self)@.detach(
                t as int,
                old(self)@.threads[t as int].reset(),
            ),
            !final(self)@.waits(t as int),
    {
        if t >= self.threads.len() || self.threads[t].state == ThreadState::Destroyed {
            proof {
                if self@.waits(t as int) {
                    let rt = self@.runtime.unwrap();
                    let i = choose|i: int| 0 <= i < rt.queue.len() && #[trigger] rt.queue[i].thread == t;
                    assert(rt.queue[i] == rt.queue[i]);
                }
            }
            return Err(VmError::BadThread);
        }
        let ghost m = self@;
        proof {
            lemma_detach_wf(m, t as int, m.threads[t as int].reset());
        }
        self.detach_work(t);
        let mut th = Thread::new(Vec::new());
        std::mem::swap(&mut th, &mut self.threads[t]);
        th.state = ThreadState::Created;
        th.pc = 0;
        th.stack = Vec::new();
        th.error = None;
        self.threads.set(t, th);
        assert(self@.threads =~= m.detach(t as int, m.threads[t as int].reset()).threads);
        Ok(())
    }

    /// Destroys a thread, releasing its program and stack. Work it was
    /// waiting for is deregistered and will never be delivered to it.
    pub fn destroy_thread(&mut self, t: usize) -> (r: Result<(), VmError>)
        requires
            old(self)@.wf(),
        ensures
            final(self)@.wf(),
            t >= old(self)@.threads.len() || old(self)@.threads[t as int].state == ThreadState::Destroyed ==> r
                == Err::<(), VmError>(VmError::BadThread) && final(self)@ == old(self)@,
            t < old(self)@.threads.len() && old(self)@.threads[t as int].state != ThreadState::Destroyed ==> r
                == Ok::<(), VmError>(()) && final(self)@ == old(self)@.detach(
                t as int,
                old(self)@.threads[t as int].destroyed(),
            ),
            !final(self)@.waits(t as int),
    {
        if t >= self.threads.len() || self.threads[t].state == ThreadState::Destroyed {
            proof {
                if self@.waits(t as int) {
                    let rt = self@.runtime.unwrap();
                    let i = choose|i: int| 0 <= i < rt.queue.len() && #[trigger] rt.queue[i].thread == t;
                    assert(rt.queue[i] == rt.queue[i]);
                }
            }
            return Err(VmError::BadThread);
        }
        let ghost m = self@;
        proof {
            lemma_detach_wf(m, t as int, m.threads[t as int].destroyed());
        }
        self.detach_work(t);
        self.threads.set(t, Thread { state: ThreadState::Destroyed, program: Vec::new(), pc: 0, stack: Vec::new(), error: None });
        assert(self@.threads =~= m.detach(t as int, m.threads[t as int].destroyed()).threads);
        Ok(())
    }
}

impl Vm {
    /// Whether outstanding work is registered with the runtime.
    pub fn has_work(&self) -> (r: bool)
        ensures
            r == (self@.runtime matches Some(rt) && rt.queue.len() > 0),
    {
        self.has_runtime && self.queue.len() > 0
    }

    /// Whether some thread has not finished and has not been destroyed.
    pub fn has_threads(&self) -> (r: bool)
        ensures
            r == exists|t: int| 0 <= t < self@.threads.len() && #[trigger] self@.is_live(t),
    {
        let r = self.any_thread_in(ThreadState::Created) || self.any_thread_in(ThreadState::Yielded);
        proof {
            if r {
                if exists|t: int| 0 <= t < self@.threads.len() && #[trigger] self@.threads[t].state
                    == ThreadState::Created {
                    let t = choose|t: int| 0 <= t < self@.threads.len() && #[trigger] self@.threads[t].state
                        == ThreadState::Created;
                    assert(self@.is_live(t));
                } else {
                    let t = choose|t: int| 0 <= t < self@.threads.len() && #[trigger] self@.threads[t].state
                        == ThreadState::Yielded;
                    assert(self@.is_live(t));
                }
            } else {
                assert forall|t: int| 0 <= t < self@.threads.len() implies !#[trigger] self@.is_live(t) by {
                    assert(self@.threads[t] == self@.threads[t]);
                }
            }
        }
        r
    }

    /// Whether some completed work waits to be delivered, so that the next
    /// `run_once` will do a unit of work.
    pub fn has_continuation(&self) -> (r: bool)
        ensures
            r == (self@.runtime matches Some(rt) && first_ready(rt.queue) is Some),
    {
        self.has_runtime && self.find_ready().is_some()
    }

    /// The state of thread `t`.
    pub fn thread_state(&self, t: usize) -> (r: Option<ThreadState>)
        ensures
            t < self@.threads.len() ==> r == Some(self@.threads[t as int].state),
            t >= self@.threads.len() ==> r is None,
    {
        if t < self.threads.len() {
            Some(self.threads[t].state)
        } else {
            None
        }
    }

    /// The error thread `t` holds, if it has one.
    pub fn thread_error(&self, t: usize) -> (r: Option<ScriptError>)
        ensures
            t < self@.threads.len() ==> r == self@.threads[t as int].error,
            t >= self@.threads.len() ==> r is None,
    {
        if t < self.threads.len() {
            self.threads[t].error
        } else {
            None
        }
    }

    /// A copy of the stack of thread `t`: for a completed thread, its return values.
    pub fn thread_values(&self, t: usize) -> (r: Option<Vec<Value>>)
        ensures
            t < self@.threads.len() ==> (r matches Some(v) && v@ == self@.threads[t as int].stack),
            t >= self@.threads.len() ==> r is None,
    {
        if t >= self.threads.len() {
            return None;
        }
        let src = &self.threads[t].stack;
        let mut out: Vec<Value> = Vec::new();
        let mut i: usize = 0;
        while i < src.len()
            invariant
                i <= src.len(),
                out@ == src@.subrange(0, i as int),
            decreases src.len() - i,
        {
            out.push(src[i]);
            i = i + 1;
            assert(out@ =~= src@.subrange(0, i as int));
        }
        assert(out@ =~= src@);
        Some(out)
    }

    /// Creates an empty table without a metatable and pushes it on the main stack.
    pub fn create_table(&mut self)
        requires
            old(self)@.wf(),
        ensures
            final(self)@.wf(),
            final(self)@ == (VmModel {
                tables: old(self)@.tables.push(None),
                stack: old(self)@.stack.push(Value::Table(old(self)@.tables.len() as usize)),
                ..old(self)@
            }),
    {
        let h = self.tables.len();
        self.tables.push(None);
        self.stack.push(Value::Table(h));
    }

    /// The identity of the table at a stack index; `None` for any other value.
    pub fn to_pointer(&self, idx: i64) -> (r: Option<usize>)
        ensures
            r == (match slot(self@.stack.len() as int, idx as int) {
                Some(i) => match self@.stack[i] {
                    Value::Table(h) => Some(h),
                    _ => None::<usize>,
                },
                None => None::<usize>,
            }),
    {
        match slot_index(self.stack.len(), idx) {
            Some(i) => match self.stack[i] {
                Value::Table(h) => Some(h),
                _ => None,
            },
            None => None,
        }
    }

    /// The identity of the metatable of the table at a stack index; `None`
    /// where there is no table or it has no metatable.
    pub fn get_metatable_pointer(&self, idx: i64) -> (r: Option<usize>)
        ensures
            r == (match slot(self@.stack.len() as int, idx as int) {
                Some(i) => match self@.stack[i] {
                    Value::Table(h) => if h < self@.tables.len() {
                        self@.tables[h as int]
                    } else {
                        None::<usize>
                    },
                    _ => None::<usize>,
                },
                None => None::<usize>,
            }),
    {
        match slot_index(self.stack.len(), idx) {
            Some(i) => match self.stack[i] {
                Value::Table(h) => if h < self.tables.len() {
                    self.tables[h]
                } else {
                    None
                },
                _ => None,
            },
            None => None,
        }
    }

    /// Takes the top value off the main stack and makes it the metatable of
    /// the table at stack index `idx` (named before the pop); `Nil` removes
    /// the metatable.
    pub fn set_metatable(&mut self, idx: i64) -> (r: Result<(), VmError>)
        requires
            old(self)@.wf(),
        ensures
            final(self)@.wf(),
            ({
                let m = old(self)@;
                let n = m.stack.len();
                let target = match slot(n as int, idx as int) {
                    Some(i) => match m.stack[i] {
                        Value::Table(h) => if h < m.tables.len() {
                            Some(h)
                        } else {
                            None
                        },
                        _ => None,
                    },
                    None => None,
                };
                let meta: Option<Option<usize>> = if n == 0 {
                    None
                } else {
                    match m.stack.last() {
                        Value::Nil => Some(None),
                        Value::Table(mt) => if mt < m.tables.len() {
                            Some(Some(mt))
                        } else {
                            None
                        },
                        _ => None,
                    }
                };
                if n == 0 {
                    r == Err::<(), VmError>(VmError::StackMismatch) && final(self)@ == m
                } else if target is None || meta is None {
                    r == Err::<(), VmError>(VmError::NotATable) && final(self)@ == m
                } else {
                    r == Ok::<(), VmError>(()) && final(self)@ == (VmModel {
                        tables: m.tables.update(target.unwrap() as int, meta.unwrap()),
                        stack: m.stack.drop_last(),
                        ..m
                    })
                }
            }),
    {
        let n = self.stack.len();
        if n == 0 {
            return Err(VmError::StackMismatch);
        }
        let target = match self.to_pointer(idx) {
            Some(h) => if h < self.tables.len() {
                h
            } else {
                return Err(VmError::NotATable);
            },
            None => {
                return Err(VmError::NotATable);
            },
        };
        let meta = match self.stack[n - 1] {
            Value::Nil => None,
            Value::Table(mt) => if mt < self.tables.len() {
                Some(mt)
            } else {
                return Err(VmError::NotATable);
            },
            _ => {
                return Err(VmError::NotATable);
            },
        };
        self.tables.set(target, meta);
        self.stack.pop();
        Ok(())
    }

    /// Tears the VM down. Refused while a thread waits for work, in which case
    /// the VM is handed back as it was.
    pub fn close(self) -> (r: Result<(), Vm>)
        ensures
            r is Ok <==> !exists|t: int| 0 <= t < self@.threads.len() && #[trigger] self@.threads[t].state
                == ThreadState::Yielded,
            r matches Err(vm) ==> vm@ == self@,
    {
        if self.any_thread_in(ThreadState::Yielded) {
            Err(self)
        } else {
            Ok(())
        }
    }
}

impl Vm {
    /// Pushes the value of global `name` on the main stack; `Nil` where it is not set.
    pub fn get_global(&mut self, name: &[u8])
        requires
            old(self)@.wf(),
        ensures
            final(self)@.wf(),
            final(self)@ == (VmModel {
                stack: old(self)@.stack.push(global_value(old(self)@.globals, name@)),
                ..old(self)@
            }),
    {
        let v = match self.global_position(name) {
            Some(j) => self.globals[j].1,
            None => Value::Nil,
        };
        self.stack.push(v);
    }

    /// Takes the top value off the main stack and makes it the value of global `name`.
    pub fn set_global(&mut self, name: &[u8]) -> (r: Result<(), VmError>)
        requires
            old(self)@.wf(),
        ensures
            final(self)@.wf(),
            old(self)@.stack.len() == 0 ==> r == Err::<(), VmError>(VmError::StackMismatch) && final(self)@
                == old(self)@,
            old(self)@.stack.len() > 0 ==> r == Ok::<(), VmError>(()) && final(self)@ == (VmModel {
                stack: old(self)@.stack.drop_last(),
                globals: with_global(old(self)@.globals, name@, old(self)@.stack.last()),
                ..old(self)@
            }),
    {
        let v = match self.stack.pop() {
            Some(v) => v,
            None => {
                return Err(VmError::StackMismatch);
            },
        };
        let ghost g = self@.globals;
        let ghost ge = self.globals@;
        let key = copy_bytes(name);
        match self.global_position(name) {
            Some(j) => {
                self.globals.set(j, (key, v));
                assert(self.globals@ == ge.update(j as int, (key, v)));
            },
            None => {
                self.globals.push((key, v));
            },
        }
        assert(self@.globals =~= with_global(g, name@, v));
        Ok(())
    }

    /// The position of global `name` in the table.
    fn global_position(&self, name: &[u8]) -> (r: Option<usize>)
        ensures
            r matches Some(j) ==> j < self.globals.len() && global_position_from(self@.globals, name@, 0) == Some(
                j as int,
            ),
            r is None ==> global_position_from(self@.globals, name@, 0) is None,
    {
        let ghost g = self@.globals;
        proof {
            lemma_global_position_from(g, name@, 0);
        }
        let mut i: usize = 0;
        while i < self.globals.len()
            invariant
                i <= self.globals.len(),
                g == self@.globals,
                global_position_from(g, name@, 0) == global_position_from(g, name@, i as int),
            decreases self.globals.len() - i,
        {
            if same_bytes(&self.globals[i].0, name) {
                assert(g[i as int].0 == name@);
                return Some(i);
            }
            assert(g[i as int].0 != name@);
            i = i + 1;
        }
        None
    }
}

/// Whether `a` and `b` hold the same bytes.
fn same_bytes(a: &Vec<u8>, b: &[u8]) -> (r: bool)
    ensures
        r == (a@ == b@),
{
    if a.len() != b.len() {
        return false;
    }
    let mut i: usize = 0;
    while i < a.len()
        invariant
            i <= a.len(),
            a@.len() == b@.len(),
            a@.subrange(0, i as int) == b@.subrange(0, i as int),
        decreases a.len() - i,
    {
        if a[i] != b[i] {
            assert(a@[i as int] != b@[i as int]);
            return false;
        }
        assert(a@.subrange(0, i + 1) =~= a@.subrange(0, i as int).push(a@[i as int]));
        assert(b@.subrange(0, i + 1) =~= b@.subrange(0, i as int).push(b@[i as int]));
        i = i + 1;
    }
    assert(a@ =~= a@.subrange(0, a@.len() as int));
    assert(b@ =~= b@.subrange(0, b@.len() as int));
    true
}

/// An owned copy of `b`.
fn copy_bytes(b: &[u8]) -> (r: Vec<u8>)
    ensures
        r@ == b@,
{
    let mut r: Vec<u8> = Vec::new();
    let mut i: usize = 0;
    while i < b.len()
        invariant
            i <= b.len(),
            r@ == b@.subrange(0, i as int),
        decreases b.len() - i,
    {
        r.push(b[i]);
        i = i + 1;
        assert(r@ =~= b@.subrange(0, i as int));
    }
    assert(r@ =~= b@);
    r
}

/// The bytes of the global name of `lib`.
fn library_name_bytes(lib: Library) -> (r: Vec<u8>)
    ensures
        r@ == library_name(lib),
{
    let r = match lib {
        Library::Fs => vec![102u8, 115u8],
        Library::Process => vec![112u8, 114u8, 111u8, 99u8, 101u8, 115u8, 115u8],
        Library::Task => vec![116u8, 97u8, 115u8, 107u8],
        Library::Time => vec![116u8, 105u8, 109u8, 101u8],
        Library::System => vec![115u8, 121u8, 115u8, 116u8, 101u8, 109u8],
        Library::Net => vec![110u8, 101u8, 116u8],
        Library::Crypto => vec![99u8, 114u8, 121u8, 112u8, 116u8, 111u8],
    };
    assert(r@ =~= library_name(lib));
    r
}

/// The position that a Lua-style index names on a stack of length `len`.
fn slot_index(len: usize, idx: i64) -> (r: Option<usize>)
    ensures
        r matches Some(i) ==> slot(len as int, idx as int) == Some(i as int),
        r is None ==> slot(len as int, idx as int) is None,
{
    if idx >= 1 {
        if (idx as u64) <= (len as u64) {
            Some((idx - 1) as usize)
        } else {
            None
        }
    } else if idx <= -1 {
        let back: u64 = (-(idx + 1)) as u64;
        if back < len as u64 {
            Some(len - 1 - back as usize)
        } else {
            None
        }
    } else {
        None
    }
}

} // verus!
