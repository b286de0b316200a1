use lute_runtime::model::{Config, RunOnceResult, RunStatus, VmError};
use lute_runtime::script::{Library, Op, ScriptError, Value};
use lute_runtime::thread::ThreadState;
use lute_runtime::host::{next_action, HostAction};
use lute_runtime::vm::Vm;

fn all_libraries() -> Config {
    Config { fs: true, process: true, task: true, time: true, system: true, net: true, crypto: true }
}

fn task_and_time_only() -> Config {
    Config { fs: false, process: false, task: true, time: true, system: false, net: false, crypto: false }
}

fn vm_with_runtime(config: Config) -> Vm {
    let mut vm = Vm::new(config);
    vm.setup_runtime();
    vm
}

fn empty() -> RunOnceResult {
    RunOnceResult { op: RunStatus::Empty, state: None }
}

fn finished(t: usize) -> RunOnceResult {
    RunOnceResult { op: RunStatus::Success, state: Some(t) }
}

#[test]
fn test_metatablepointer() {
    let mut state = Vm::new(all_libraries());

    state.create_table();
    assert!(state.get_metatable_pointer(-1).is_none());

    state.create_table();
    let mt_ptr1 = state.to_pointer(-1);

    state.set_metatable(-2).unwrap();
    let mt_ptr2 = state.get_metatable_pointer(-1);
    assert_eq!(mt_ptr1, mt_ptr2);
}

#[test]
fn metatable_can_be_removed_with_nil() {
    let mut vm = Vm::new(all_libraries());
    vm.create_table();
    vm.create_table();
    vm.set_metatable(-2).unwrap();
    assert_eq!(vm.get_metatable_pointer(-1), Some(1));
    vm.push(Value::Nil);
    vm.set_metatable(-2).unwrap();
    assert_eq!(vm.get_metatable_pointer(-1), None);
    assert_eq!(vm.stack_len(), 1);
}

#[test]
fn set_metatable_rejects_non_tables() {
    let mut vm = Vm::new(all_libraries());
    assert_eq!(vm.set_metatable(-1), Err(VmError::StackMismatch));
    vm.push(Value::Int(1));
    vm.create_table();
    assert_eq!(vm.set_metatable(-2), Err(VmError::NotATable));
    vm.push(Value::Bool(true));
    assert_eq!(vm.set_metatable(-2), Err(VmError::NotATable));
    assert_eq!(vm.stack_len(), 3);
    assert_eq!(vm.to_pointer(-3), None);
}

#[test]
fn stack_indices_count_from_both_ends() {
    let mut vm = Vm::new(all_libraries());
    vm.push(Value::Int(10));
    vm.push(Value::Int(20));
    vm.push(Value::Int(30));
    assert_eq!(vm.value_at(1), Some(Value::Int(10)));
    assert_eq!(vm.value_at(3), Some(Value::Int(30)));
    assert_eq!(vm.value_at(-1), Some(Value::Int(30)));
    assert_eq!(vm.value_at(-3), Some(Value::Int(10)));
    assert_eq!(vm.value_at(0), None);
    assert_eq!(vm.value_at(4), None);
    assert_eq!(vm.value_at(-4), None);
    assert_eq!(vm.pop(), Some(Value::Int(30)));
    assert_eq!(vm.stack_len(), 2);
}

#[test]
fn duration_sum_with_task_and_time() {
    let mut vm = vm_with_runtime(task_and_time_only());
    vm.get_global(b"time");
    assert_eq!(vm.value_at(-1), Some(Value::Library(Library::Time)));
    vm.pop();
    vm.load(vec![
        Op::Pop,
        Op::Pop,
        Op::Push(Value::Int(2)),
        Op::Push(Value::Int(3)),
        Op::Add,
        Op::Return,
    ]);
    vm.push(Value::Int(123));
    vm.push(Value::Int(321));
    vm.call(2, 1).unwrap();
    assert_eq!(vm.value_at(-1), Some(Value::Int(5)));
    assert_eq!(vm.stack_len(), 1);
}

#[test]
fn direct_call_adds() {
    let mut vm = Vm::new(all_libraries());
    vm.load(vec![Op::Add, Op::Return]);
    vm.push(Value::Int(123));
    vm.push(Value::Int(321));
    vm.call(2, 1).unwrap();
    assert_eq!(vm.value_at(-1), Some(Value::Int(444)));
    assert_eq!(vm.stack_len(), 1);
}

#[test]
fn direct_call_errors() {
    let mut vm = Vm::new(all_libraries());
    vm.load(vec![Op::Add, Op::Return]);
    vm.push(Value::Int(1));
    vm.push(Value::Int(2));
    assert_eq!(vm.call(2, 2), Err(VmError::StackMismatch));
    assert_eq!(vm.stack_len(), 0);

    assert_eq!(vm.call(0, 0), Err(VmError::StackMismatch));

    vm.push(Value::Int(7));
    assert_eq!(vm.call(0, 0), Err(VmError::NotAFunction));
    assert_eq!(vm.stack_len(), 1);
    vm.pop();

    vm.load(vec![Op::Add]);
    vm.push(Value::Int(i64::MAX));
    vm.push(Value::Int(1));
    assert_eq!(vm.call(2, 1), Err(VmError::Script(ScriptError::Overflow)));

    vm.load(vec![Op::Add]);
    vm.push(Value::Int(1));
    vm.push(Value::Bool(true));
    assert_eq!(vm.call(2, 1), Err(VmError::Script(ScriptError::TypeMismatch)));

    vm.load(vec![Op::Add]);
    vm.push(Value::Int(1));
    assert_eq!(vm.call(1, 1), Err(VmError::Script(ScriptError::StackUnderflow)));

    vm.load(vec![Op::Raise]);
    assert_eq!(vm.call(0, 0), Err(VmError::Script(ScriptError::Raised)));

    vm.load(vec![Op::Pop]);
    assert_eq!(vm.call(0, 0), Err(VmError::Script(ScriptError::StackUnderflow)));

    vm.load(vec![Op::Yield]);
    assert_eq!(vm.call(0, 0), Err(VmError::YieldAcrossCall));
    assert_eq!(vm.stack_len(), 0);
}

#[test]
fn coroutine_yields_once_then_returns() {
    let mut vm = vm_with_runtime(all_libraries());
    let t = vm.new_thread(vec![Op::Yield, Op::Push(Value::Int(78)), Op::Return]);
    assert_eq!(vm.resume(t), Ok(RunOnceResult { op: RunStatus::Success, state: None }));
    assert_eq!(vm.thread_state(t), Some(ThreadState::Yielded));
    let mut steps: usize = 0;
    loop {
        let r = vm.run_once();
        steps += 1;
        if r.state == Some(t) {
            assert_eq!(r, finished(t));
            break;
        }
        assert_eq!(r, empty());
        assert!(steps < 10);
    }
    assert_eq!(vm.thread_state(t), Some(ThreadState::Completed));
    assert_eq!(vm.thread_values(t), Some(vec![Value::Int(78)]));
}

#[test]
fn coroutine_waits_for_work_then_returns() {
    let mut vm = vm_with_runtime(all_libraries());
    let t = vm.new_thread(vec![Op::Await(Library::Task), Op::Push(Value::Int(78)), Op::Return]);
    vm.resume(t).unwrap();
    let id = vm.pending_for(t).unwrap();
    assert!(vm.has_work());
    assert!(!vm.has_continuation());
    assert_eq!(vm.run_once(), empty());
    assert_eq!(vm.run_once(), empty());
    vm.complete_work(id, vec![]).unwrap();
    assert!(vm.has_continuation());
    assert_eq!(vm.run_once(), finished(t));
    assert_eq!(vm.thread_values(t), Some(vec![Value::Int(78)]));
    assert!(!vm.has_work());
    assert!(!vm.has_threads());
}

#[test]
fn unsupported_operation_is_reported() {
    let mut vm = vm_with_runtime(task_and_time_only());
    let t = vm.new_thread(vec![Op::Yield, Op::Await(Library::Net), Op::Return]);
    vm.resume(t).unwrap();
    assert_eq!(vm.run_once(), RunOnceResult { op: RunStatus::UnsupportedOp, state: Some(t) });
    assert_eq!(vm.thread_state(t), Some(ThreadState::Errored));
    assert_eq!(vm.thread_error(t), Some(ScriptError::Unsupported));
    assert_eq!(vm.run_once(), empty());
    assert!(!vm.has_work());
}

#[test]
fn unsupported_operation_on_direct_resume() {
    let mut vm = vm_with_runtime(task_and_time_only());
    let t = vm.new_thread(vec![Op::Await(Library::Fs)]);
    assert_eq!(vm.resume(t), Ok(RunOnceResult { op: RunStatus::UnsupportedOp, state: Some(t) }));
    assert_eq!(vm.thread_error(t), Some(ScriptError::Unsupported));
}

#[test]
fn missing_runtime() {
    let mut vm = Vm::new(all_libraries());
    assert_eq!(vm.run_once(), RunOnceResult { op: RunStatus::MissingError, state: None });
    let t = vm.new_thread(vec![Op::Return]);
    assert_eq!(vm.resume(t), Err(VmError::MissingRuntime));
    assert_eq!(vm.destroy_runtime(), Err(VmError::MissingRuntime));
    assert_eq!(vm.complete_work(0, vec![]), Err(VmError::MissingRuntime));
    assert_eq!(vm.pending_for(t), None);
    assert!(!vm.has_work());
}

#[test]
fn idle_run_once_is_empty_and_changes_nothing() {
    let mut vm = vm_with_runtime(all_libraries());
    vm.push(Value::Int(4));
    let t = vm.new_thread(vec![Op::Return]);
    for _ in 0..5 {
        assert_eq!(vm.run_once(), empty());
    }
    assert_eq!(vm.stack_len(), 1);
    assert_eq!(vm.thread_state(t), Some(ThreadState::Created));
    assert!(!vm.has_work());
    assert!(vm.has_threads());
}

#[test]
fn finished_thread_reported_exactly_once() {
    let mut vm = vm_with_runtime(all_libraries());
    let t = vm.new_thread(vec![Op::Yield, Op::Raise]);
    vm.resume(t).unwrap();
    assert_eq!(vm.run_once(), finished(t));
    assert_eq!(vm.thread_state(t), Some(ThreadState::Errored));
    assert_eq!(vm.thread_error(t), Some(ScriptError::Raised));
    for _ in 0..3 {
        assert_eq!(vm.run_once(), empty());
    }
    assert_eq!(vm.resume(t), Err(VmError::NotResumable));
}

#[test]
fn ready_work_is_served_in_registration_order() {
    let mut vm = vm_with_runtime(all_libraries());
    let mut ids = Vec::new();
    let mut threads = Vec::new();
    for k in 0..4 {
        let t = vm.new_thread(vec![Op::Await(Library::Time), Op::Push(Value::Int(k)), Op::Return]);
        vm.resume(t).unwrap();
        ids.push(vm.pending_for(t).unwrap());
        threads.push(t);
    }
    assert!(ids.windows(2).all(|w| w[0] < w[1]));
    for k in (0..4).rev() {
        vm.complete_work(ids[k], vec![]).unwrap();
    }
    for k in 0..4 {
        assert_eq!(vm.run_once(), finished(threads[k]));
        assert_eq!(vm.thread_values(threads[k]), Some(vec![Value::Int(k as i64)]));
    }
    assert_eq!(vm.run_once(), empty());
}

#[test]
fn only_ready_work_is_served() {
    let mut vm = vm_with_runtime(all_libraries());
    let a = vm.new_thread(vec![Op::Await(Library::Fs), Op::Return]);
    let b = vm.new_thread(vec![Op::Await(Library::Fs), Op::Return]);
    vm.resume(a).unwrap();
    vm.resume(b).unwrap();
    let id_b = vm.pending_for(b).unwrap();
    vm.complete_work(id_b, vec![Value::Int(2)]).unwrap();
    assert_eq!(vm.complete_work(id_b, vec![]), Err(VmError::UnknownWork));
    assert_eq!(vm.run_once(), finished(b));
    assert_eq!(vm.run_once(), empty());
    assert_eq!(vm.thread_state(a), Some(ThreadState::Yielded));
}

#[test]
fn reset_thread_drops_its_pending_work() {
    let mut vm = vm_with_runtime(all_libraries());
    let t = vm.new_thread(vec![Op::Await(Library::Process), Op::Return]);
    vm.resume(t).unwrap();
    let id = vm.pending_for(t).unwrap();
    vm.reset_thread(t).unwrap();
    assert_eq!(vm.thread_state(t), Some(ThreadState::Created));
    assert_eq!(vm.pending_for(t), None);
    assert_eq!(vm.complete_work(id, vec![Value::Int(1)]), Err(VmError::UnknownWork));
    assert_eq!(vm.run_once(), empty());
    assert_eq!(vm.thread_state(t), Some(ThreadState::Created));
    assert!(!vm.has_work());
}

#[test]
fn destroyed_thread_drops_its_pending_work() {
    let mut vm = vm_with_runtime(all_libraries());
    let t = vm.new_thread(vec![Op::Yield, Op::Return]);
    vm.resume(t).unwrap();
    assert!(vm.has_continuation());
    vm.destroy_thread(t).unwrap();
    assert!(!vm.has_continuation());
    assert_eq!(vm.run_once(), empty());
    assert_eq!(vm.thread_state(t), Some(ThreadState::Destroyed));
    assert_eq!(vm.destroy_thread(t), Err(VmError::BadThread));
    assert_eq!(vm.reset_thread(t), Err(VmError::BadThread));
    assert_eq!(vm.reset_thread(99), Err(VmError::BadThread));
}

#[test]
fn moved_arguments_arrive_in_order() {
    for k in [0usize, 1, 5] {
        let mut vm = vm_with_runtime(all_libraries());
        vm.push(Value::Nil);
        for i in 0..k {
            vm.push(Value::Int(i as i64));
        }
        let t = vm.new_thread(vec![Op::Return]);
        vm.xmove(t, k).unwrap();
        assert_eq!(vm.stack_len(), 1);
        assert_eq!(vm.resume(t), Ok(finished(t)));
        let expected: Vec<Value> = (0..k).map(|i| Value::Int(i as i64)).collect();
        assert_eq!(vm.thread_values(t), Some(expected));
    }
}

#[test]
fn delivered_payload_arrives_in_order() {
    let mut vm = vm_with_runtime(all_libraries());
    let t = vm.new_thread(vec![Op::Await(Library::Net), Op::Return]);
    vm.resume(t).unwrap();
    let id = vm.pending_for(t).unwrap();
    vm.complete_work(id, vec![Value::Int(1), Value::Bool(false), Value::Nil]).unwrap();
    assert_eq!(vm.run_once(), finished(t));
    assert_eq!(vm.thread_values(t), Some(vec![Value::Int(1), Value::Bool(false), Value::Nil]));
}

#[test]
fn xmove_errors() {
    let mut vm = vm_with_runtime(all_libraries());
    let t = vm.new_thread(vec![Op::Return]);
    assert_eq!(vm.xmove(t, 1), Err(VmError::StackMismatch));
    assert_eq!(vm.xmove(t + 1, 0), Err(VmError::BadThread));
    vm.resume(t).unwrap();
    assert_eq!(vm.xmove(t, 0), Err(VmError::NotResumable));
    assert_eq!(vm.resume(t), Err(VmError::NotResumable));
    vm.destroy_thread(t).unwrap();
    assert_eq!(vm.xmove(t, 0), Err(VmError::BadThread));
    assert_eq!(vm.resume(t + 1), Err(VmError::BadThread));
}

#[test]
fn yielded_thread_receives_moved_values() {
    for k in [0usize, 1, 5] {
        let mut vm = vm_with_runtime(all_libraries());
        let t = vm.new_thread(vec![Op::Push(Value::Bool(true)), Op::Yield, Op::Return]);
        vm.resume(t).unwrap();
        assert_eq!(vm.thread_state(t), Some(ThreadState::Yielded));
        vm.push(Value::Nil);
        for i in 0..k {
            vm.push(Value::Int(i as i64 + 10));
        }
        vm.xmove(t, k).unwrap();
        assert_eq!(vm.stack_len(), 1);
        assert_eq!(vm.resume(t), Ok(finished(t)));
        let mut expected = vec![Value::Bool(true)];
        for i in 0..k {
            expected.push(Value::Int(i as i64 + 10));
        }
        assert_eq!(vm.thread_values(t), Some(expected));
        assert!(!vm.has_work());
        assert_eq!(vm.run_once(), empty());
    }
}

#[test]
fn direct_resume_of_waiting_thread_drops_its_work() {
    let mut vm = vm_with_runtime(all_libraries());
    let t = vm.new_thread(vec![Op::Await(Library::Fs), Op::Add, Op::Return]);
    vm.resume(t).unwrap();
    let id = vm.pending_for(t).unwrap();
    vm.push(Value::Int(20));
    vm.push(Value::Int(22));
    vm.xmove(t, 2).unwrap();
    assert_eq!(vm.resume(t), Ok(finished(t)));
    assert_eq!(vm.thread_values(t), Some(vec![Value::Int(42)]));
    assert_eq!(vm.complete_work(id, vec![]), Err(VmError::UnknownWork));
    assert_eq!(vm.run_once(), empty());
}

#[test]
fn registration_numbers_survive_runtime_teardown() {
    let mut vm = vm_with_runtime(all_libraries());
    let a = vm.new_thread(vec![Op::Await(Library::Task), Op::Return]);
    vm.resume(a).unwrap();
    let old_id = vm.pending_for(a).unwrap();
    vm.reset_thread(a).unwrap();
    vm.destroy_runtime().unwrap();
    vm.setup_runtime();
    let b = vm.new_thread(vec![Op::Await(Library::Task), Op::Return]);
    vm.resume(b).unwrap();
    let new_id = vm.pending_for(b).unwrap();
    assert!(new_id > old_id);
    assert_eq!(vm.complete_work(old_id, vec![Value::Int(9)]), Err(VmError::UnknownWork));
    assert_eq!(vm.run_once(), empty());
    assert_eq!(vm.thread_state(b), Some(ThreadState::Yielded));
}

#[test]
fn libraries_are_registered_as_globals() {
    let mut vm = Vm::new(task_and_time_only());
    vm.get_global(b"task");
    vm.get_global(b"time");
    vm.get_global(b"fs");
    vm.get_global(b"net");
    assert_eq!(vm.value_at(1), Some(Value::Library(Library::Task)));
    assert_eq!(vm.value_at(2), Some(Value::Library(Library::Time)));
    assert_eq!(vm.value_at(3), Some(Value::Nil));
    assert_eq!(vm.value_at(4), Some(Value::Nil));
    let mut full = Vm::new(all_libraries());
    full.get_global(b"process");
    full.get_global(b"crypto");
    assert_eq!(full.value_at(1), Some(Value::Library(Library::Process)));
    assert_eq!(full.value_at(2), Some(Value::Library(Library::Crypto)));
}

#[test]
fn globals_can_be_set_and_replaced() {
    let mut vm = Vm::new(all_libraries());
    assert_eq!(vm.set_global(b"answer"), Err(VmError::StackMismatch));
    vm.push(Value::Int(41));
    vm.set_global(b"answer").unwrap();
    assert_eq!(vm.stack_len(), 0);
    vm.get_global(b"answer");
    assert_eq!(vm.value_at(-1), Some(Value::Int(41)));
    vm.push(Value::Int(42));
    vm.set_global(b"answer").unwrap();
    vm.get_global(b"answer");
    assert_eq!(vm.value_at(-1), Some(Value::Int(42)));
    vm.push(Value::Nil);
    vm.set_global(b"fs").unwrap();
    vm.get_global(b"fs");
    assert_eq!(vm.value_at(-1), Some(Value::Nil));
    vm.get_global(b"answe");
    assert_eq!(vm.value_at(-1), Some(Value::Nil));
}

#[test]
fn runtime_teardown_waits_for_live_work() {
    let mut vm = vm_with_runtime(all_libraries());
    let t = vm.new_thread(vec![Op::Yield, Op::Return]);
    vm.resume(t).unwrap();
    assert_eq!(vm.destroy_runtime(), Err(VmError::LiveWork));
    let vm = match vm.close() {
        Err(vm) => vm,
        Ok(()) => panic!("a VM with a waiting thread was closed"),
    };
    let mut vm = vm;
    assert_eq!(vm.run_once(), finished(t));
    assert_eq!(vm.destroy_runtime(), Ok(()));
    assert_eq!(vm.run_once(), RunOnceResult { op: RunStatus::MissingError, state: None });
    assert!(vm.close().is_ok());
}

#[test]
fn setup_runtime_twice_keeps_work() {
    let mut vm = vm_with_runtime(all_libraries());
    let t = vm.new_thread(vec![Op::Yield, Op::Return]);
    vm.resume(t).unwrap();
    vm.setup_runtime();
    assert!(vm.has_work());
    assert_eq!(vm.run_once(), finished(t));
}

#[test]
fn library_support_follows_config() {
    let c = task_and_time_only();
    assert!(c.supports(Library::Task));
    assert!(c.supports(Library::Time));
    assert!(!c.supports(Library::Fs));
    assert!(!c.supports(Library::Crypto));
}

#[test]
fn host_loop_decisions() {
    assert_eq!(next_action(finished(3), false), HostAction::Deliver(3));
    assert_eq!(next_action(RunOnceResult { op: RunStatus::Success, state: None }, true), HostAction::RunAgain);
    assert_eq!(next_action(empty(), true), HostAction::Wait);
    assert_eq!(next_action(empty(), false), HostAction::Stop);
    let unsupported = RunOnceResult { op: RunStatus::UnsupportedOp, state: Some(1) };
    assert_eq!(next_action(unsupported, true), HostAction::Report(RunStatus::UnsupportedOp, Some(1)));
    let missing = RunOnceResult { op: RunStatus::MissingError, state: None };
    assert_eq!(next_action(missing, false), HostAction::Report(RunStatus::MissingError, None));
}

#[test]
fn host_loop_runs_to_completion() {
    let mut vm = vm_with_runtime(all_libraries());
    let a = vm.new_thread(vec![Op::Yield, Op::Push(Value::Int(1)), Op::Return]);
    let b = vm.new_thread(vec![Op::Await(Library::Time), Op::Push(Value::Int(2)), Op::Return]);
    vm.resume(a).unwrap();
    vm.resume(b).unwrap();
    let mut delivered = Vec::new();
    let mut waits: usize = 0;
    loop {
        let r = vm.run_once();
        match next_action(r, vm.has_work()) {
            HostAction::RunAgain => {}
            HostAction::Deliver(t) => delivered.push(t),
            HostAction::Wait => {
                waits += 1;
                let id = vm.pending_for(b).unwrap();
                vm.complete_work(id, vec![]).unwrap();
            }
            HostAction::Stop => break,
            HostAction::Report(op, _) => panic!("unexpected {:?}", op),
        }
    }
    assert_eq!(delivered, vec![a, b]);
    assert_eq!(waits, 1);
}
