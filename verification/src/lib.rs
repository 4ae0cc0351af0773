//! Message exchange between a server agent and its client processes: the
//! store of replies per client, the wire messages, the launch command of a
//! client, the bookkeeping of a reading loop, and the catalogue of
//! communication tests.

pub mod foo;
pub mod text;
pub mod command;
pub mod data;
pub mod message;
pub mod collect;
pub mod comm_tests;
pub mod delay;
