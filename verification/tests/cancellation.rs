//! Cancellation, error rejection, the exit signal, and run termination.

use task_scheduler::SchedulerError;
use task_scheduler::SchedulerStep;
use task_scheduler::TaskScheduler;
use task_scheduler::TaskSchedulerResult;

fn noop_value(lua: &mlua::Lua) -> mlua::Value {
    mlua::Value::Function(
        lua.create_function(|_, _: mlua::MultiValue| Ok(())).unwrap(),
    )
}

#[test]
fn after_current_resume_on_empty_lane_fails() {
    let lua = mlua::Lua::new();
    let mut sched = TaskScheduler::new(lua.clone());
    let res = sched.schedule_after_current_resume(noop_value(&lua), Vec::new());
    assert!(matches!(res, Err(SchedulerError::Precondition)));
    // No task was created.
    assert_eq!(sched.state().num_total, 0);
    assert_eq!(sched.state().num_instant, 0);
}

#[test]
fn scheduling_a_non_callable_is_an_argument_error() {
    let lua = mlua::Lua::new();
    let mut sched = TaskScheduler::new(lua.clone());
    let res = sched.schedule_current_resume(mlua::Value::Nil, Vec::new());
    assert!(matches!(res, Err(SchedulerError::Argument(mlua::Value::Nil))));
    let res2 = sched.schedule_deferred(mlua::Value::Integer(7), Vec::new());
    assert!(matches!(res2, Err(SchedulerError::Argument(_))));
    assert_eq!(sched.state().num_total, 0);
}

#[test]
fn scheduling_an_existing_coroutine_is_accepted() {
    let lua = mlua::Lua::new();
    let f = lua
        .create_function(|_, _: mlua::MultiValue| Ok(()))
        .unwrap();
    let thread = lua.create_thread(f).unwrap();
    let mut sched = TaskScheduler::new(lua.clone());
    let r = sched
        .schedule_current_resume(mlua::Value::Thread(thread), Vec::new())
        .unwrap();
    assert!(sched.contains_task(r));
}

#[test]
fn cancelled_reference_is_a_stale_miss() {
    let lua = mlua::Lua::new();
    let mut sched = TaskScheduler::new(lua.clone());
    let r = sched
        .schedule_current_resume(noop_value(&lua), Vec::new())
        .unwrap();
    assert!(sched.cancel_task(r));
    assert!(!sched.contains_task(r));
    // Cancelling again returns false.
    assert!(!sched.cancel_task(r));
    // The stale reference is still in the lane; popping it resumes
    // nothing and reports a vacuous success.
    match sched.resume_queue() {
        SchedulerStep::Done(TaskSchedulerResult::TaskSuccessful { state }) => {
            assert_eq!(state.num_total, 0);
            assert_eq!(state.num_instant, 0);
        }
        _ => panic!("expected a vacuous TaskSuccessful step"),
    }
}

#[test]
fn finished_exactly_when_nothing_is_left() {
    let lua = mlua::Lua::new();
    let mut sched = TaskScheduler::new(lua.clone());
    // Empty scheduler: immediately finished.
    assert!(matches!(
        sched.resume_queue(),
        SchedulerStep::Done(TaskSchedulerResult::Finished { .. })
    ));
    // A stale entry in a lane delays Finished by one vacuous step, even
    // though the task store is already empty.
    let r = sched
        .schedule_current_resume(noop_value(&lua), Vec::new())
        .unwrap();
    assert!(sched.cancel_task(r));
    assert_eq!(sched.state().num_total, 0);
    assert!(matches!(
        sched.resume_queue(),
        SchedulerStep::Done(TaskSchedulerResult::TaskSuccessful { .. })
    ));
    assert!(matches!(
        sched.resume_queue(),
        SchedulerStep::Done(TaskSchedulerResult::Finished { .. })
    ));
}

#[test]
fn exit_code_is_sticky() {
    let lua = mlua::Lua::new();
    let mut sched = TaskScheduler::new(lua.clone());
    assert_eq!(sched.state().exit_code, None);
    sched.set_exit_code(3);
    assert_eq!(sched.state().exit_code, Some(3));
    // No operation clears the signal.
    let r = sched
        .schedule_current_resume(noop_value(&lua), Vec::new())
        .unwrap();
    assert_eq!(sched.state().exit_code, Some(3));
    sched.cancel_task(r);
    sched.resume_queue();
    assert_eq!(sched.state().exit_code, Some(3));
    // Setting it again reports the last code given.
    sched.set_exit_code(5);
    assert_eq!(sched.state().exit_code, Some(5));
}

#[test]
fn report_resume_outcome_maps_errors() {
    let lua = mlua::Lua::new();
    let sched = TaskScheduler::new(lua.clone());
    let ok = sched.report_resume_outcome(Ok(()));
    assert!(matches!(ok, TaskSchedulerResult::TaskSuccessful { .. }));
    let err = sched.report_resume_outcome(Err(mlua::Error::RuntimeError(
        "boom".to_string(),
    )));
    match err {
        TaskSchedulerResult::TaskErrored { error, .. } => {
            assert!(matches!(error, mlua::Error::RuntimeError(_)));
        }
        _ => panic!("expected TaskErrored"),
    }
}
