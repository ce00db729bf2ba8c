//! Trusted boundary to the scripting engine (mlua) and to the clock.
//!
//! Everything the scheduler needs from the engine is either an opaque
//! handle carried through unchanged (coroutines, values, the engine
//! state itself) or one of the small calls wrapped below. Nothing here
//! executes script code: resuming a continuation is the embedder's job.

use vstd::prelude::*;

verus! {

/// The engine state handle (`mlua::Lua`); opaque to the scheduler.
#[verifier::external_type_specification]
#[verifier::external_body]
pub struct ExLua(mlua::Lua);

/// A dynamically typed engine value (`mlua::Value`); opaque to the
/// scheduler, which only sorts it into thread / function / other.
#[verifier::external_type_specification]
#[verifier::external_body]
pub struct ExLuaValue(mlua::Value);

/// A suspended coroutine handle (`mlua::Thread`); opaque, owned by the
/// task store from creation until removal.
#[verifier::external_type_specification]
#[verifier::external_body]
pub struct ExLuaThread(mlua::Thread);

/// A callable handle (`mlua::Function`); opaque.
#[verifier::external_type_specification]
#[verifier::external_body]
pub struct ExLuaFunction(mlua::Function);

/// An engine error (`mlua::Error`); opaque, carried through to the host.
#[verifier::external_type_specification]
#[verifier::external_body]
pub struct ExLuaError(mlua::Error);

/// A monotonic clock reading (`std::time::Instant`); opaque, used as a
/// task's creation timestamp.
#[verifier::external_type_specification]
#[verifier::external_body]
pub struct ExInstant(std::time::Instant);

/// Whether an engine value is a coroutine (`mlua::Value::Thread`). The
/// variant of a value is a function of the value alone; the name lets
/// contracts say when a scheduling call owes success or rejection.
pub uninterp spec fn engine_value_is_thread(v: mlua::Value) -> bool;

/// Whether an engine value is a callable (`mlua::Value::Function`).
pub uninterp spec fn engine_value_is_function(v: mlua::Value) -> bool;

/// A scheduling call accepts a closed set of inputs: an already-suspended
/// coroutine, or a callable to wrap into a fresh one. Anything else is
/// rejected at the call site.
pub(crate) enum ValueClass {
    /// The value is an already-suspended coroutine.
    Thread(mlua::Thread),
    /// The value is a callable that must be wrapped into a coroutine.
    Function(mlua::Function),
    /// Any other kind of value; carries the rejected value, so the host
    /// can report the engine's name for its type.
    Other(mlua::Value),
}

/// Relies on matching `mlua::Value`'s variants: a value is a coroutine,
/// a callable, or something a scheduling call rejects.
#[verifier::external_body]
pub(crate) fn classify_value(value: mlua::Value) -> (r: ValueClass)
    ensures
        r is Thread <==> engine_value_is_thread(value),
        r is Function <==> (engine_value_is_function(value) && !engine_value_is_thread(value)),
{
    match value {
        mlua::Value::Thread(t) => ValueClass::Thread(t),
        mlua::Value::Function(f) => ValueClass::Function(f),
        other => ValueClass::Other(other),
    }
}

/// Relies on `mlua::Lua::create_thread`, which wraps a Lua function into
/// a fresh suspended coroutine without running it. The function must
/// belong to the same engine instance as the handle: mlua aborts the
/// process when handle types of separate instances are mixed, a fatal
/// embedding defect that no recoverable error reports.
#[verifier::external_body]
pub(crate) fn create_thread(
    lua: &mlua::Lua,
    func: mlua::Function,
) -> Result<mlua::Thread, mlua::Error> {
    lua.create_thread(func)
}

/// Relies on `mlua::Error`'s derived `Clone`: engine errors are plain
/// data and reference-counted handles that can be duplicated freely.
/// Nothing is claimed of the copy.
pub assume_specification[ <mlua::Error as Clone>::clone ](e: &mlua::Error) -> mlua::Error;

/// Relies on `std::time::Instant::now`, which reads the monotonic clock.
#[verifier::external_body]
pub(crate) fn instant_now() -> std::time::Instant {
    std::time::Instant::now()
}

} // verus!
