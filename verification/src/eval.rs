//! Trusted boundary to the scripted evaluator (the `mlua` crate).
//!
//! A script's behaviour depends on what it computes at run time, so none of
//! these wrappers promises anything about the values that come back; the
//! verified callers check lengths and state what holds of every outcome.

use vstd::prelude::*;
use crate::errors::EvaluationError;

verus! {

#[verifier::external_type_specification]
#[verifier::external_body]
pub struct ExLua(mlua::Lua);

#[verifier::external_type_specification]
#[verifier::external_body]
pub struct ExFunction(mlua::Function);

/// Relies on mlua::Lua::new: a fresh evaluator state with only the safe
/// standard libraries loaded; it aborts only if no state can be allocated.
#[verifier::external_body]
pub(crate) fn lua_new() -> mlua::Lua {
    mlua::Lua::new()
}

/// Relies on mlua::Lua::load and mlua::Chunk::exec: runs the script text in
/// the given state; nothing is assumed about what it defines.
#[verifier::external_body]
pub(crate) fn lua_exec(lua: &mlua::Lua, code: &str) -> Result<(), EvaluationError> {
    match lua.load(code).exec() {
        Ok(()) => Ok(()),
        Err(e) => Err(EvaluationError::Script(format!("{}", e))),
    }
}

/// Relies on mlua::Table::get on the globals table: the integer value of a
/// global, or an error when it is absent or not an integer.
#[verifier::external_body]
pub(crate) fn lua_get_global_u8(lua: &mlua::Lua, name: &str) -> Result<u8, EvaluationError> {
    match lua.globals().get::<u8>(name) {
        Ok(v) => Ok(v),
        Err(e) => Err(EvaluationError::Script(format!("{}", e))),
    }
}

/// Relies on mlua::Table::get on the globals table: the integer value of a
/// global, `None` when the global is absent.
#[verifier::external_body]
pub(crate) fn lua_get_global_opt_u8(
    lua: &mlua::Lua,
    name: &str,
) -> Result<Option<u8>, EvaluationError> {
    match lua.globals().get::<Option<u8>>(name) {
        Ok(v) => Ok(v),
        Err(e) => Err(EvaluationError::Script(format!("{}", e))),
    }
}

/// Relies on mlua::Table::set on the globals table: binds the global `name`
/// to the given boolean vector.
#[verifier::external_body]
pub(crate) fn lua_set_global_bools(
    lua: &mlua::Lua,
    name: &str,
    values: Vec<bool>,
) -> Result<(), EvaluationError> {
    match lua.globals().set(name, values) {
        Ok(()) => Ok(()),
        Err(e) => Err(EvaluationError::Script(format!("{}", e))),
    }
}

/// Relies on mlua::Table::get on the globals table: the boolean vector a
/// global holds, or an error when it holds anything else.
#[verifier::external_body]
pub(crate) fn lua_get_global_bools(
    lua: &mlua::Lua,
    name: &str,
) -> Result<Vec<bool>, EvaluationError> {
    match lua.globals().get::<Vec<bool>>(name) {
        Ok(v) => Ok(v),
        Err(e) => Err(EvaluationError::Script(format!("{}", e))),
    }
}

/// Relies on mlua::Table::get on the globals table: the function a global
/// holds, or an error when it holds anything else.
#[verifier::external_body]
pub(crate) fn lua_get_global_function(
    lua: &mlua::Lua,
    name: &str,
) -> Result<mlua::Function, EvaluationError> {
    match lua.globals().get::<mlua::Function>(name) {
        Ok(f) => Ok(f),
        Err(e) => Err(EvaluationError::Script(format!("{}", e))),
    }
}

/// Relies on mlua::Function::call: applies the script function to a boolean
/// vector; whatever it returns is converted to a boolean vector or rejected.
#[verifier::external_body]
pub(crate) fn lua_call_bools(
    f: &mlua::Function,
    args: Vec<bool>,
) -> Result<Vec<bool>, EvaluationError> {
    match f.call::<Vec<bool>>(args) {
        Ok(v) => Ok(v),
        Err(e) => Err(EvaluationError::Script(format!("{}", e))),
    }
}

} // verus!
