//! Ordering behavior: strict lane priority, lane positions, and guids.

use std::cell::RefCell;
use std::rc::Rc;

use task_scheduler::SchedulerStep;
use task_scheduler::TaskKind;
use task_scheduler::TaskScheduler;

fn noop_value(lua: &mlua::Lua) -> mlua::Value {
    mlua::Value::Function(
        lua.create_function(|_, _: mlua::MultiValue| Ok(())).unwrap(),
    )
}

fn popped_reference(step: SchedulerStep) -> task_scheduler::TaskReference {
    match step {
        SchedulerStep::Resume { reference, .. } => reference,
        _ => panic!("expected a Resume step"),
    }
}

#[test]
fn guids_are_unique_and_strictly_increasing() {
    let lua = mlua::Lua::new();
    let mut sched = TaskScheduler::new(lua.clone());
    let a = sched
        .schedule_current_resume(noop_value(&lua), Vec::new())
        .unwrap();
    let b = sched
        .schedule_deferred(noop_value(&lua), Vec::new())
        .unwrap();
    let c = sched.schedule_delayed(5, noop_value(&lua), Vec::new()).unwrap();
    let d = sched.schedule_wait(5, noop_value(&lua)).unwrap();
    assert_eq!(a.guid, 1);
    assert_eq!(b.guid, 2);
    assert_eq!(c.guid, 3);
    assert_eq!(d.guid, 4);
    assert!(a.guid < b.guid && b.guid < c.guid && c.guid < d.guid);
    assert_eq!(a.kind, TaskKind::Instant);
    assert_eq!(b.kind, TaskKind::Deferred);
    assert_eq!(c.kind, TaskKind::Future);
    assert_eq!(d.kind, TaskKind::Future);
}

#[test]
fn instant_lane_has_priority_over_deferred() {
    let lua = mlua::Lua::new();
    let mut sched = TaskScheduler::new(lua.clone());
    let deferred = sched
        .schedule_deferred(noop_value(&lua), Vec::new())
        .unwrap();
    let instant = sched
        .schedule_current_resume(noop_value(&lua), Vec::new())
        .unwrap();
    let first = popped_reference(sched.resume_queue());
    assert_eq!(first, instant);
    let second = popped_reference(sched.resume_queue());
    assert_eq!(second, deferred);
}

#[test]
fn front_insert_and_second_position_insert() {
    // With a pending reference X already in the lane, a front-insert A
    // pushes ahead of X, and a second-position insert B lands directly
    // behind the then-current front A: the pop order is A, B, X.
    let lua = mlua::Lua::new();
    let mut sched = TaskScheduler::new(lua.clone());
    let x = sched
        .schedule_current_resume(noop_value(&lua), Vec::new())
        .unwrap();
    let a = sched
        .schedule_current_resume(noop_value(&lua), Vec::new())
        .unwrap();
    let b = sched
        .schedule_after_current_resume(noop_value(&lua), Vec::new())
        .unwrap();
    assert_eq!(popped_reference(sched.resume_queue()), a);
    assert_eq!(popped_reference(sched.resume_queue()), b);
    assert_eq!(popped_reference(sched.resume_queue()), x);
}

#[test]
fn state_reports_counts_per_structure() {
    let lua = mlua::Lua::new();
    let mut sched = TaskScheduler::new(lua.clone());
    sched
        .schedule_current_resume(noop_value(&lua), Vec::new())
        .unwrap();
    sched
        .schedule_current_resume(noop_value(&lua), Vec::new())
        .unwrap();
    sched.schedule_deferred(noop_value(&lua), Vec::new()).unwrap();
    sched.schedule_wait(10, noop_value(&lua)).unwrap();
    let st = sched.state();
    assert_eq!(st.num_instant, 2);
    assert_eq!(st.num_deferred, 1);
    assert_eq!(st.num_future, 1);
    assert_eq!(st.num_total, 4);
    assert_eq!(st.exit_code, None);
}

#[test]
fn full_run_resumes_lanes_then_futures_then_finishes() {
    // One task per category: the step protocol resumes the instant task,
    // then the deferred one, then asks for the future set, and reports
    // Finished once the store is drained.
    let lua = mlua::Lua::new();
    let mut sched = TaskScheduler::new(lua.clone());
    let instant = sched
        .schedule_current_resume(noop_value(&lua), Vec::new())
        .unwrap();
    let deferred = sched
        .schedule_deferred(noop_value(&lua), Vec::new())
        .unwrap();
    let future = sched
        .schedule_delayed(5, noop_value(&lua), Vec::new())
        .unwrap();
    assert_eq!(popped_reference(sched.resume_queue()), instant);
    assert_eq!(popped_reference(sched.resume_queue()), deferred);
    assert!(matches!(sched.resume_queue(), SchedulerStep::AwaitFutures));
    let promoted = popped_reference(sched.resume_next_queue_future(future, Ok(None)));
    assert_eq!(promoted, future);
    assert!(matches!(
        sched.resume_queue(),
        SchedulerStep::Done(task_scheduler::TaskSchedulerResult::Finished { .. })
    ));
}

#[test]
fn resume_step_executes_the_popped_coroutine() {
    // Drive one Resume step by hand, the way an embedder would, and
    // check the scheduled function really runs with its stored args.
    let lua = mlua::Lua::new();
    let seen: Rc<RefCell<Option<i64>>> = Rc::new(RefCell::new(None));
    let seen_in = seen.clone();
    let f = lua
        .create_function(move |_, x: i64| {
            *seen_in.borrow_mut() = Some(x);
            Ok(())
        })
        .unwrap();
    let mut sched = TaskScheduler::new(lua.clone());
    sched
        .schedule_current_resume(mlua::Value::Function(f), vec![mlua::Value::Integer(42)])
        .unwrap();
    match sched.resume_queue() {
        SchedulerStep::Resume { thread, args, .. } => {
            let values = match args {
                task_scheduler::ResumeArgs::Values(v) => v,
                task_scheduler::ResumeArgs::ElapsedSince(_) => {
                    panic!("stored arguments expected")
                }
            };
            thread
                .resume::<mlua::MultiValue>(mlua::MultiValue::from_vec(values))
                .unwrap();
        }
        _ => panic!("expected a Resume step"),
    }
    assert_eq!(*seen.borrow(), Some(42));
}
