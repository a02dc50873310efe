//! Serialization of an entity-component world: the traversal that decides,
//! entity by entity, which components are written and in what order.
pub mod storage;
pub mod registry;
pub mod scene;
pub mod laws;
