//! Verified core of a Godot / Rapier physics bridge: object and handle
//! bookkeeping, the ordered action queue, the identifier lookup table, the
//! rollback world buffer and the peer synchronisation state.

pub mod text;
pub mod objects;
pub mod queue;
pub mod maps;
pub mod lookup;
pub mod hashing;
pub mod buffer;
pub mod sync;
pub mod process;
pub mod nodes;
