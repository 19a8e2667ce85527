//! A small entity-component-system core with a game built on it: entity
//! identifiers with generations, sparse component storage, a multi-reader
//! event channel, and a dispatcher that layers systems into conflict-free
//! stages and steps through them one tick at a time.

pub mod dispatch;
pub mod entity;
pub mod events;
pub mod pong;
pub mod storage;
pub mod world;
