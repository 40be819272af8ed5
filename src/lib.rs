//! Host-side core for a contract runtime: the host-function registry, compact
//! values and the object store, the resource budget, the event journal with
//! rollback, and the host instance that ties them together.

pub mod registry;
pub mod storage;
pub mod budget;
pub mod contracts;
pub mod env;
pub mod events;
pub mod host;
pub mod objects;
pub mod value;
