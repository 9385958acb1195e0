//! Host-side core of a scene editor's script runtime: the value model shared
//! with the Lua environment and the marshaller between the two, the entity
//! store, the module registry plan, and the command protocol served by the
//! runtime actor.
pub mod assoc;
pub mod commands;
pub mod error;
pub mod modules;
pub mod protocol;
pub mod scene;
pub mod value;
