//! The runtime's error taxonomy.
use vstd::prelude::*;

verus! {

/// Errors of the script runtime, each with the text that describes it.
#[derive(Debug)]
pub enum LuaError {
    /// The startup sequence failed; the runtime never starts degraded.
    InitializationError(String),
    /// A module file could not be read or registered during the scan.
    ModuleLoadError(String),
    /// An entity, or a field of one, is missing or has the wrong shape:
    /// the entity's id and what went wrong.
    EntityProcessingError(String, String),
    /// A payload does not have the expected array, object or string shape.
    FormatError(String),
    /// A reply could not be delivered.
    CommunicationError(String),
    /// Scripted code raised an error.
    LuaError(String),
}

/// Mathematical model of a [`LuaError`].
pub enum ErrorModel {
    InitializationError(Seq<char>),
    ModuleLoadError(Seq<char>),
    EntityProcessingError(Seq<char>, Seq<char>),
    FormatError(Seq<char>),
    CommunicationError(Seq<char>),
    LuaError(Seq<char>),
}

impl View for LuaError {
    type V = ErrorModel;

    open spec fn view(&self) -> ErrorModel {
        match self {
            LuaError::InitializationError(d) => ErrorModel::InitializationError(d@),
            LuaError::ModuleLoadError(d) => ErrorModel::ModuleLoadError(d@),
            LuaError::EntityProcessingError(id, d) => ErrorModel::EntityProcessingError(id@, d@),
            LuaError::FormatError(d) => ErrorModel::FormatError(d@),
            LuaError::CommunicationError(d) => ErrorModel::CommunicationError(d@),
            LuaError::LuaError(d) => ErrorModel::LuaError(d@),
        }
    }
}

/// Text of `prefix`, then `detail`.
fn joined(prefix: &str, detail: &str) -> (r: String)
    ensures
        r@ == prefix@ + detail@,
{
    let mut s = String::from_str(prefix);
    s.append(detail);
    s
}

impl LuaError {
    /// The message reported for the error.
    pub fn message(&self) -> (r: String)
        ensures
            match self {
                LuaError::InitializationError(d) => r@ == "Failed to initialize Lua environment: "@ + d@,
                LuaError::ModuleLoadError(d) => r@ == "Failed to load Lua module: "@ + d@,
                LuaError::EntityProcessingError(id, d) => r@ == "Failed to process entity "@ + id@ + ": "@ + d@,
                LuaError::FormatError(d) => r@ == "Invalid data format: "@ + d@,
                LuaError::CommunicationError(d) => r@ == "Communication error: "@ + d@,
                LuaError::LuaError(d) => r@ == "Lua error: "@ + d@,
            },
    {
        match self {
            LuaError::InitializationError(d) => joined("Failed to initialize Lua environment: ", d.as_str()),
            LuaError::ModuleLoadError(d) => joined("Failed to load Lua module: ", d.as_str()),
            LuaError::EntityProcessingError(id, d) => {
                let mut s = joined("Failed to process entity ", id.as_str());
                s.append(": ");
                s.append(d.as_str());
                s
            },
            LuaError::FormatError(d) => joined("Invalid data format: ", d.as_str()),
            LuaError::CommunicationError(d) => joined("Communication error: ", d.as_str()),
            LuaError::LuaError(d) => joined("Lua error: ", d.as_str()),
        }
    }
}

} // verus!
