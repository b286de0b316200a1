use vstd::prelude::*;
use crate::script::{Op, ScriptError, Value};

verus! {

/// The lifecycle state of a script thread.
///
/// `Running` is held only while the VM drives the thread inside one call;
/// callers never observe it.
#[derive(Clone, Copy, PartialEq, Eq, Structural, Debug)]
pub enum ThreadState {
    Created,
    Running,
    Yielded,
    Completed,
    Errored,
    Destroyed,
}

impl ThreadState {
    /// A finished thread: it returned or raised an error.
    pub open spec fn is_finished(self) -> bool {
        self == ThreadState::Completed || self == ThreadState::Errored
    }
}

/// A suspendable execution context of a VM.
pub struct Thread {
    pub state: ThreadState,
    pub program: Vec<Op>,
    /// The next instruction to run.
    pub pc: usize,
    /// The thread's own stack; once the thread completed, its return values.
    pub stack: Vec<Value>,
    /// The error a thread in `Errored` holds.
    pub error: Option<ScriptError>,
}

/// The mathematical model of a thread.
pub struct ThreadModel {
    pub state: ThreadState,
    pub program: Seq<Op>,
    pub pc: nat,
    pub stack: Seq<Value>,
    pub error: Option<ScriptError>,
}

impl View for Thread {
    type V = ThreadModel;

    open spec fn view(&self) -> ThreadModel {
        ThreadModel {
            state: self.state,
            program: self.program@,
            pc: self.pc as nat,
            stack: self.stack@,
            error: self.error,
        }
    }
}

impl ThreadModel {
    /// The thread as it is after a reset: its program kept, ready to start again.
    pub open spec fn reset(self) -> ThreadModel {
        ThreadModel { state: ThreadState::Created, pc: 0, stack: Seq::empty(), error: None, ..self }
    }

    /// The thread as it is once destroyed.
    pub open spec fn destroyed(self) -> ThreadModel {
        ThreadModel {
            state: ThreadState::Destroyed,
            program: Seq::empty(),
            pc: 0,
            stack: Seq::empty(),
            error: None,
        }
    }
}

impl Thread {
    /// A new thread that will run `program` from its start.
    pub fn new(program: Vec<Op>) -> (t: Thread)
        ensures
            t@ == (ThreadModel {
                state: ThreadState::Created,
                program: program@,
                pc: 0,
                stack: Seq::empty(),
                error: None,
            }),
    {
        Thread { state: ThreadState::Created, program, pc: 0, stack: Vec::new(), error: None }
    }
}

} // verus!
