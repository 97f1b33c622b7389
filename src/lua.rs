//! The embedded Lua interpreter, as seen by the verified code.

use vstd::prelude::*;

verus! {

/// `mlua::Lua`: one interpreter state, carried through opaque.
#[verifier::external_type_specification]
#[verifier::external_body]
pub struct ExLua(mlua::Lua);

/// `mlua::Error`: what the interpreter reports on failure, carried through opaque.
#[verifier::external_type_specification]
#[verifier::external_body]
pub struct ExLuaError(mlua::Error);

/// `mlua::RegistryKey`: a handle to a value stored in one interpreter's
/// registry, carried through opaque.
#[verifier::external_type_specification]
#[verifier::external_body]
pub struct ExRegistryKey(mlua::RegistryKey);

/// `mlua::Value`: any Lua value, carried through opaque.
#[verifier::external_type_specification]
#[verifier::external_body]
pub struct ExValue<'lua>(mlua::Value<'lua>);

/// Relies on `mlua::Lua::new`: a fresh interpreter with the safe standard
/// libraries. Nothing is promised of it.
pub assume_specification[ mlua::Lua::new ]() -> mlua::Lua;

/// Relies on `mlua::Lua::load`, `mlua::Chunk::eval`, `mlua::Table::pairs` and
/// `mlua::Lua::create_registry_value`: runs a chunk of Lua source once in
/// `lua`, reads the value it returns as a table, and lists its entries, each
/// key read as a string, with the entry's value stored in `lua`'s registry if
/// it is a function. Everything happens in `lua` alone. A syntax error, a
/// runtime error, a value that is not a table or a key that is not a string
/// is an error.
#[verifier::external_body]
pub(crate) fn module_functions(lua: &mlua::Lua, source: &str) -> (r: Result<
    Vec<(String, Option<mlua::RegistryKey>)>,
    mlua::Error,
>) {
    let table: mlua::Table = lua.load(source).eval()?;
    let mut entries = Vec::new();
    for pair in table.pairs::<String, mlua::Value>() {
        let (key, value) = pair?;
        let function = match value {
            mlua::Value::Function(f) => Some(lua.create_registry_value(f)?),
            _ => None,
        };
        entries.push((key, function));
    }
    Ok(entries)
}

/// Relies on the variants of `mlua::Value`: the boolean that a value holds, if
/// it holds one.
#[verifier::external_body]
pub(crate) fn as_boolean(v: &mlua::Value) -> (r: Option<bool>) {
    match v {
        mlua::Value::Boolean(b) => Some(*b),
        _ => None,
    }
}

/// Relies on `mlua::LuaSerdeExt::to_value`, `mlua::Lua::registry_value`,
/// `mlua::Function::call` and `mlua::MultiValue::into_vec`, all on `lua`:
/// turns the record into a Lua value of the same serde shape (the outer
/// error), then fetches the function that `key` stores and runs it on that
/// value, returning all of its results in order (the inner error). A key of
/// another interpreter's registry is refused by `registry_value` with an
/// error, so the function and its argument always belong to `lua`.
#[verifier::external_body]
pub(crate) fn call_registered<'lua, T: serde::Serialize>(
    lua: &'lua mlua::Lua,
    key: &mlua::RegistryKey,
    value: &T,
) -> (r: Result<Result<Vec<mlua::Value<'lua>>, mlua::Error>, mlua::Error>) {
    let arg = mlua::LuaSerdeExt::to_value(lua, value)?;
    let function: mlua::Function = match lua.registry_value(key) {
        Ok(function) => function,
        Err(e) => return Ok(Err(e)),
    };
    Ok(function.call::<_, mlua::MultiValue>(arg).map(mlua::MultiValue::into_vec))
}

} // verus!
