//! The future-set flow: waits receive elapsed time, delayed tasks keep
//! their stored arguments, failures cancel the owning task.

use std::cell::RefCell;
use std::rc::Rc;

use task_scheduler::ResumeArgs;
use task_scheduler::ResumeDecision;
use task_scheduler::SchedulerStep;
use task_scheduler::TaskScheduler;
use task_scheduler::TaskSchedulerResult;

fn spin_for_millis(millis: u64) {
    let start = std::time::Instant::now();
    while start.elapsed().as_millis() < millis as u128 {}
}

#[test]
fn wait_task_receives_elapsed_seconds() {
    let lua = mlua::Lua::new();
    let seen: Rc<RefCell<Option<f64>>> = Rc::new(RefCell::new(None));
    let seen_in = seen.clone();
    let f = lua
        .create_function(move |_, secs: f64| {
            *seen_in.borrow_mut() = Some(secs);
            Ok(())
        })
        .unwrap();
    let mut sched = TaskScheduler::new(lua.clone());
    let r = sched.schedule_wait(10, mlua::Value::Function(f)).unwrap();
    // Both lanes are empty: the step defers to the future set.
    assert!(matches!(sched.resume_queue(), SchedulerStep::AwaitFutures));
    // The embedder's timer elapses, then reports the completion with no
    // argument override.
    spin_for_millis(15);
    match sched.resume_next_queue_future(r, Ok(None)) {
        SchedulerStep::Resume { thread, args, reference } => {
            assert_eq!(reference, r);
            let since = match args {
                ResumeArgs::ElapsedSince(t) => t,
                ResumeArgs::Values(_) => panic!("a bare wait carries no stored arguments"),
            };
            let secs = since.elapsed().as_secs_f64();
            thread.resume::<mlua::MultiValue>(secs).unwrap();
        }
        _ => panic!("expected a Resume step"),
    }
    let secs = seen.borrow().expect("the wait's coroutine must have run");
    assert!(secs >= 0.010);
    // The future set entry was discharged and the task removed.
    assert_eq!(sched.state().num_future, 0);
    assert_eq!(sched.state().num_total, 0);
}

#[test]
fn delayed_task_keeps_stored_arguments_even_empty() {
    let lua = mlua::Lua::new();
    let argc: Rc<RefCell<Option<usize>>> = Rc::new(RefCell::new(None));
    let argc_in = argc.clone();
    let f = lua
        .create_function(move |_, args: mlua::MultiValue| {
            *argc_in.borrow_mut() = Some(args.len());
            Ok(())
        })
        .unwrap();
    let mut sched = TaskScheduler::new(lua.clone());
    let r = sched
        .schedule_delayed(10, mlua::Value::Function(f), Vec::new())
        .unwrap();
    assert!(matches!(sched.resume_queue(), SchedulerStep::AwaitFutures));
    match sched.resume_next_queue_future(r, Ok(None)) {
        SchedulerStep::Resume { thread, args, .. } => {
            // A delayed task carries stored arguments — an empty list
            // here — and is never handed the elapsed time.
            let values = match args {
                ResumeArgs::Values(v) => v,
                ResumeArgs::ElapsedSince(_) => {
                    panic!("a delayed task must keep its stored arguments")
                }
            };
            assert!(values.is_empty());
            thread
                .resume::<mlua::MultiValue>(mlua::MultiValue::from_vec(values))
                .unwrap();
        }
        _ => panic!("expected a Resume step"),
    }
    assert_eq!(*argc.borrow(), Some(0));
}

#[test]
fn future_completion_override_beats_stored_arguments() {
    let lua = mlua::Lua::new();
    let seen: Rc<RefCell<Option<i64>>> = Rc::new(RefCell::new(None));
    let seen_in = seen.clone();
    let f = lua
        .create_function(move |_, x: i64| {
            *seen_in.borrow_mut() = Some(x);
            Ok(())
        })
        .unwrap();
    let mut sched = TaskScheduler::new(lua.clone());
    let r = sched
        .schedule_delayed(
            10,
            mlua::Value::Function(f),
            vec![mlua::Value::Integer(1)],
        )
        .unwrap();
    match sched.resume_next_queue_future(r, Ok(Some(vec![mlua::Value::Integer(9)]))) {
        SchedulerStep::Resume { thread, args, .. } => {
            let values = match args {
                ResumeArgs::Values(v) => v,
                ResumeArgs::ElapsedSince(_) => panic!("override expected"),
            };
            thread
                .resume::<mlua::MultiValue>(mlua::MultiValue::from_vec(values))
                .unwrap();
        }
        _ => panic!("expected a Resume step"),
    }
    assert_eq!(*seen.borrow(), Some(9));
}

#[test]
fn failed_future_cancels_its_task() {
    let lua = mlua::Lua::new();
    let mut sched = TaskScheduler::new(lua.clone());
    let f = lua
        .create_function(|_, _: mlua::MultiValue| Ok(()))
        .unwrap();
    let r = sched
        .schedule_delayed(10, mlua::Value::Function(f), Vec::new())
        .unwrap();
    assert!(sched.contains_task(r));
    let failure = mlua::Error::RuntimeError("timer failed".to_string());
    match sched.resume_next_queue_future(r, Err(failure)) {
        SchedulerStep::Done(TaskSchedulerResult::TaskErrored { error, state }) => {
            assert!(matches!(error, mlua::Error::RuntimeError(_)));
            assert_eq!(state.num_total, 0);
            assert_eq!(state.num_future, 0);
        }
        _ => panic!("expected TaskErrored"),
    }
    // The coroutine was never resumed and the task no longer exists.
    assert!(!sched.contains_task(r));
}

#[test]
fn resume_task_override_wins_and_stale_is_silent() {
    let lua = mlua::Lua::new();
    let seen: Rc<RefCell<Option<i64>>> = Rc::new(RefCell::new(None));
    let seen_in = seen.clone();
    let f = lua
        .create_function(move |_, x: i64| {
            *seen_in.borrow_mut() = Some(x);
            Ok(())
        })
        .unwrap();
    let mut sched = TaskScheduler::new(lua.clone());
    let r = sched
        .schedule_current_resume(
            mlua::Value::Function(f),
            vec![mlua::Value::Integer(1)],
        )
        .unwrap();
    match sched.resume_task(r, Some(vec![mlua::Value::Integer(5)])) {
        ResumeDecision::Run { thread, args } => {
            let values = match args {
                ResumeArgs::Values(v) => v,
                ResumeArgs::ElapsedSince(_) => panic!("override expected"),
            };
            thread
                .resume::<mlua::MultiValue>(mlua::MultiValue::from_vec(values))
                .unwrap();
        }
        ResumeDecision::Stale => panic!("the task was live"),
    }
    assert_eq!(*seen.borrow(), Some(5));
    // A second resumption of the same reference is a stale miss.
    assert!(matches!(sched.resume_task(r, None), ResumeDecision::Stale));
}
