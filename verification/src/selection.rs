//! Which engine a data directory belongs to.
//!
//! The directory of a store holds, beside the logs, a file named `engine`
//! with the name of the engine that wrote the directory. A directory is
//! opened with that engine only.

use crate::error::KvsError;
use vstd::prelude::*;
use vstd::string::StringExecFns;

verus! {

/// The engines that there are.
#[derive(Clone, Copy, Debug, PartialEq, Eq, Structural)]
pub enum Engine {
    /// The log-structured engine.
    Kvs,
    /// The engine over a sled database.
    Sled,
}

/// The name of the file that holds the name of a directory's engine.
pub fn marker_name() -> (name: &'static str)
    ensures
        name@ == "engine"@,
{
    "engine"
}

/// The name that an engine goes by.
pub open spec fn engine_name_spec(engine: Engine) -> Seq<char> {
    match engine {
        Engine::Kvs => "kvs"@,
        Engine::Sled => "sled"@,
    }
}

/// The name that an engine goes by.
pub fn engine_name(engine: Engine) -> (name: &'static str)
    ensures
        name@ == engine_name_spec(engine),
{
    match engine {
        Engine::Kvs => "kvs",
        Engine::Sled => "sled",
    }
}

/// The engine that goes by the name `text`, if there is one.
pub fn parse_engine(text: &str) -> (engine: Option<Engine>)
    ensures
        engine == (if text@ == "kvs"@ {
            Some(Engine::Kvs)
        } else if text@ == "sled"@ {
            Some(Engine::Sled)
        } else {
            None
        }),
{
    let text = String::from_str(text);
    if text == String::from_str("kvs") {
        Some(Engine::Kvs)
    } else if text == String::from_str("sled") {
        Some(Engine::Sled)
    } else {
        None
    }
}

/// The engine to open a directory with: the one that wrote the directory,
/// `found`, where there is one, else the one asked for, `wanted`, else the
/// log-structured engine. To ask for another engine than the one that wrote
/// the directory is an error.
pub fn select_engine(found: Option<Engine>, wanted: Option<Engine>) -> (r: Result<Engine, KvsError>)
    ensures
        match r {
            Ok(engine) => engine == (match (found, wanted) {
                (Some(f), _) => f,
                (None, Some(w)) => w,
                (None, None) => Engine::Kvs,
            }) && (found is Some && wanted is Some ==> found == wanted),
            Err(e) => e is EngineMismatch && found is Some && wanted is Some && found != wanted,
        },
{
    match (found, wanted) {
        (Some(f), Some(w)) => {
            if f == w {
                Ok(f)
            } else {
                Err(KvsError::EngineMismatch)
            }
        },
        (Some(f), None) => Ok(f),
        (None, Some(w)) => Ok(w),
        (None, None) => Ok(Engine::Kvs),
    }
}

} // verus!
