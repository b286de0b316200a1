use vstd::prelude::*;

verus! {

/// A script value, as it sits on a stack.
#[derive(Clone, Copy, PartialEq, Eq, Structural, Debug)]
pub enum Value {
    Nil,
    Bool(bool),
    Int(i64),
    /// A table, by its index in the VM's table arena.
    Table(usize),
    /// A loaded function, by its index in the VM's function arena.
    Function(usize),
    /// A registered library.
    Library(Library),
}

/// A library subsystem that script code can ask for asynchronous work.
#[derive(Clone, Copy, PartialEq, Eq, Structural, Debug)]
pub enum Library {
    Fs,
    Process,
    Task,
    Time,
    System,
    Net,
    Crypto,
}

/// One instruction of a script program.
#[derive(Clone, Copy, PartialEq, Eq, Structural, Debug)]
pub enum Op {
    /// Push a constant.
    Push(Value),
    /// Pop two integers and push their sum.
    Add,
    /// Pop the top value.
    Pop,
    /// Yield cooperatively; the thread is ready to run again at once.
    Yield,
    /// Yield, asking the library for asynchronous work; the thread waits
    /// until the host completes it.
    Await(Library),
    /// Return every value on the thread's stack.
    Return,
    /// Raise an error.
    Raise,
}

/// An error raised inside a script thread.
#[derive(Clone, Copy, PartialEq, Eq, Structural, Debug)]
pub enum ScriptError {
    /// The program raised an error itself.
    Raised,
    /// An addition left the range of `i64`.
    Overflow,
    /// An operand had the wrong type.
    TypeMismatch,
    /// An instruction needed more values than the stack held.
    StackUnderflow,
    /// The requested operation has no implementation on this platform.
    Unsupported,
    /// The runtime could not register more work.
    Exhausted,
}

/// What a thread asks for when it yields.
#[derive(Clone, Copy, PartialEq, Eq, Structural, Debug)]
pub enum Request {
    Reschedule,
    Work(Library),
}

/// Where a run of a thread stopped.
#[derive(Clone, Copy, PartialEq, Eq, Structural, Debug)]
pub enum Outcome {
    Yielded(Request),
    Returned,
    Failed(ScriptError),
}

/// A run of `prog` from instruction `pc` on `stack`, up to the first
/// instruction that suspends or ends it: the next instruction, the stack,
/// and how the run stopped. Running off the end returns.
pub open spec fn run_from(prog: Seq<Op>, pc: nat, stack: Seq<Value>) -> (nat, Seq<Value>, Outcome)
    decreases prog.len() - pc,
{
    if pc >= prog.len() {
        (pc, stack, Outcome::Returned)
    } else {
        match prog[pc as int] {
            Op::Push(v) => run_from(prog, pc + 1, stack.push(v)),
            Op::Add => {
                if stack.len() < 2 {
                    (pc + 1, stack, Outcome::Failed(ScriptError::StackUnderflow))
                } else {
                    match (stack[stack.len() - 2], stack[stack.len() - 1]) {
                        (Value::Int(a), Value::Int(b)) => {
                            if i64::MIN <= a + b <= i64::MAX {
                                run_from(
                                    prog,
                                    pc + 1,
                                    stack.subrange(0, stack.len() - 2).push(Value::Int((a + b) as i64)),
                                )
                            } else {
                                (pc + 1, stack, Outcome::Failed(ScriptError::Overflow))
                            }
                        },
                        _ => (pc + 1, stack, Outcome::Failed(ScriptError::TypeMismatch)),
                    }
                }
            },
            Op::Pop => if stack.len() == 0 {
                (pc + 1, stack, Outcome::Failed(ScriptError::StackUnderflow))
            } else {
                run_from(prog, pc + 1, stack.drop_last())
            },
            Op::Yield => (pc + 1, stack, Outcome::Yielded(Request::Reschedule)),
            Op::Await(lib) => (pc + 1, stack, Outcome::Yielded(Request::Work(lib))),
            Op::Return => (pc + 1, stack, Outcome::Returned),
            Op::Raise => (pc + 1, stack, Outcome::Failed(ScriptError::Raised)),
        }
    }
}

/// Runs `prog` from `pc` on `stack` until the program suspends or ends;
/// returns the next instruction and how the run stopped.
pub fn interpret(prog: &Vec<Op>, pc: usize, stack: &mut Vec<Value>) -> (r: (usize, Outcome))
    requires
        pc <= prog.len(),
    ensures
        r.0 <= prog.len(),
        run_from(prog@, pc as nat, old(stack)@) == (r.0 as nat, final(stack)@, r.1),
{
    let mut i: usize = pc;
    while i < prog.len()
        invariant
            i <= prog.len(),
            run_from(prog@, i as nat, stack@) == run_from(prog@, pc as nat, old(stack)@),
        decreases prog.len() - i,
    {
        match prog[i] {
            Op::Push(v) => {
                stack.push(v);
            },
            Op::Add => {
                let n = stack.len();
                if n < 2 {
                    return (i + 1, Outcome::Failed(ScriptError::StackUnderflow));
                }
                match (stack[n - 2], stack[n - 1]) {
                    (Value::Int(a), Value::Int(b)) => {
                        match a.checked_add(b) {
                            Some(s) => {
                                let ghost before = stack@;
                                stack.pop();
                                stack.pop();
                                stack.push(Value::Int(s));
                                proof {
                                    assert(stack@ =~= before.subrange(0, before.len() - 2).push(Value::Int(s)));
                                }
                            },
                            None => {
                                return (i + 1, Outcome::Failed(ScriptError::Overflow));
                            },
                        }
                    },
                    _ => {
                        return (i + 1, Outcome::Failed(ScriptError::TypeMismatch));
                    },
                }
            },
            Op::Pop => {
                if stack.len() == 0 {
                    return (i + 1, Outcome::Failed(ScriptError::StackUnderflow));
                }
                stack.pop();
            },
            Op::Yield => {
                return (i + 1, Outcome::Yielded(Request::Reschedule));
            },
            Op::Await(lib) => {
                return (i + 1, Outcome::Yielded(Request::Work(lib)));
            },
            Op::Return => {
                return (i + 1, Outcome::Returned);
            },
            Op::Raise => {
                return (i + 1, Outcome::Failed(ScriptError::Raised));
            },
        }
        i = i + 1;
    }
    (i, Outcome::Returned)
}

} // verus!
